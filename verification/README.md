# disko_zfs

Plans the `zfs` commands that bring a pool to a declared specification of its datasets
and their properties.

The library in `src/` is written in Verus and verified:

- `property`: property values and sources, how numeric texts with unit suffixes read, and
  when two values of a property mean the same setting;
- `prefix_paths`, `keyed`, `order`, `text`: parent paths of dataset names, name-keyed
  lists, the stable ordering of datasets by name length, and character-level text work;
- `zfs_specification`, `zfs_list_output`: the declared state and the state that
  `zfs get --json` reports;
- `planner`, `producer`, `actions`: the plan itself, the folding of repeated creations,
  and the command lines;
- `fractions`: the fractional numeric texts (such as `1.5G`) whose floating-point
  readings the caller supplies;
- `laws`: properties proved of the plan for all inputs.

`app/` holds the command-line program: argument parsing, JSON and Nix input and output,
running `zfs`, and the floating-point reading of fractional numbers.
