//! The changes that a plan makes to a pool, and the `zfs` command lines that make them.

use vstd::prelude::*;
use vstd::string::*;

use crate::keyed::KeyedList;
use crate::property::{value_text, PropertySource, PropertyValue, PropertyValueView, SourceView};
use crate::text::owned;

verus! {

/// Property values under their names.
pub type ValuesView = Seq<(Seq<char>, PropertyValueView)>;

/// A change that adds to the pool or changes its settings.
#[derive(Debug)]
#[allow(inconsistent_fields)]
pub enum ZfsAction {
    CreateDataset { name: String, properties: KeyedList<PropertyValue> },
    SetProperties { dataset: String, properties: KeyedList<PropertyValue> },
    InheritProperties { dataset: String, properties: Vec<String> },
}

/// A change with its texts taken as sequences of characters.
#[allow(inconsistent_fields)]
pub enum ActionView {
    Create { name: Seq<char>, properties: ValuesView },
    SetProps { dataset: Seq<char>, properties: ValuesView },
    Inherit { dataset: Seq<char>, properties: Seq<Seq<char>> },
}

impl View for ZfsAction {
    type V = ActionView;

    open spec fn view(&self) -> ActionView {
        match self {
            ZfsAction::CreateDataset { name, properties } => ActionView::Create {
                name: name@,
                properties: properties@,
            },
            ZfsAction::SetProperties { dataset, properties } => ActionView::SetProps {
                dataset: dataset@,
                properties: properties@,
            },
            ZfsAction::InheritProperties { dataset, properties } => ActionView::Inherit {
                dataset: dataset@,
                properties: properties@.map_values(|s: String| s@),
            },
        }
    }
}

/// A change that removes data from the pool.
#[derive(Debug)]
pub enum DestructiveAction {
    DestroyDataset { name: String },
}

impl View for DestructiveAction {
    type V = Seq<char>;

    /// The name of the dataset that is destroyed.
    open spec fn view(&self) -> Seq<char> {
        match self {
            DestructiveAction::DestroyDataset { name } => name@,
        }
    }
}

/// A property that the plan wants to change but may not, because of where its current
/// value comes from.
#[derive(Debug)]
pub struct UnsettableProperty {
    pub dataset: String,
    pub property: String,
    pub source: Option<PropertySource>,
}

/// An unsettable property with its texts taken as sequences of characters.
pub struct UnsettableView {
    pub dataset: Seq<char>,
    pub property: Seq<char>,
    pub source: Option<SourceView>,
}

impl View for UnsettableProperty {
    type V = UnsettableView;

    open spec fn view(&self) -> UnsettableView {
        UnsettableView {
            dataset: self.dataset@,
            property: self.property@,
            source: match self.source {
                Some(s) => Some(s@),
                None => None,
            },
        }
    }
}

/// The views of a list of changes.
pub open spec fn actions_view(actions: Seq<ZfsAction>) -> Seq<ActionView> {
    actions.map_values(|a: ZfsAction| a@)
}

/// The views of a list of destructive changes.
pub open spec fn destroyed_view(actions: Seq<DestructiveAction>) -> Seq<Seq<char>> {
    actions.map_values(|a: DestructiveAction| a@)
}

/// The views of a list of refused properties.
pub open spec fn unsettable_view(errors: Seq<UnsettableProperty>) -> Seq<UnsettableView> {
    errors.map_values(|e: UnsettableProperty| e@)
}

/// The views of a list of command lines.
pub open spec fn commands_view(commands: Seq<Vec<String>>) -> Seq<Seq<Seq<char>>> {
    commands.map_values(|c: Vec<String>| c@.map_values(|s: String| s@))
}

/// The `-o name=value` option of `zfs create` for one property.
pub open spec fn create_option(e: (Seq<char>, PropertyValueView)) -> Seq<char> {
    "-o"@ + e.0 + "="@ + value_text(e.1)
}

/// The `name=value` argument of `zfs set` for one property.
pub open spec fn assignment(e: (Seq<char>, PropertyValueView)) -> Seq<char> {
    e.0 + "="@ + value_text(e.1)
}

/// The `zfs` command line that makes a change.
pub open spec fn command_of(a: ActionView) -> Seq<Seq<char>> {
    match a {
        ActionView::Create { name, properties } => seq!["zfs"@, "create"@] + properties.map_values(
            |e: (Seq<char>, PropertyValueView)| create_option(e),
        ) + seq![name],
        ActionView::SetProps { dataset, properties } => seq!["zfs"@, "set"@] + properties.map_values(
            |e: (Seq<char>, PropertyValueView)| assignment(e),
        ) + seq![dataset],
        ActionView::Inherit { dataset, properties } => seq!["zfs"@, "inherit"@] + properties
            + seq![dataset],
    }
}

/// The `zfs destroy` command line for a dataset.
pub open spec fn destroy_command(name: Seq<char>) -> Seq<Seq<char>> {
    seq!["zfs"@, "destroy"@, name]
}

/// The additive and the destructive changes of a plan.
#[derive(Debug)]
pub struct ActionSet {
    pub additive: Vec<ZfsAction>,
    pub destrictive: Vec<DestructiveAction>,
}

/// A text made of `a`, then `b`, then `c`.
fn join3(a: &str, b: &str, c: &str) -> (r: String)
    ensures
        r@ == a@ + b@ + c@,
{
    let mut r = owned(a);
    r.append(b);
    r.append(c);
    r
}

/// The arguments that name each property value in a command line: `-o name=value` where
/// `create` holds, else `name=value`.
fn value_arguments(properties: &KeyedList<PropertyValue>, create: bool) -> (r: Vec<String>)
    ensures
        r@.map_values(|s: String| s@) == properties@.map_values(
            |e: (Seq<char>, PropertyValueView)|
                if create {
                    create_option(e)
                } else {
                    assignment(e)
                },
        ),
{
    let ghost f = |e: (Seq<char>, PropertyValueView)|
        if create {
            create_option(e)
        } else {
            assignment(e)
        };
    let n = properties.len();
    let mut r: Vec<String> = Vec::new();
    let mut i: usize = 0;
    while i < n
        invariant
            n == properties@.len(),
            i <= n,
            f == (|e: (Seq<char>, PropertyValueView)|
                if create {
                    create_option(e)
                } else {
                    assignment(e)
                }),
            r@.map_values(|s: String| s@) =~= properties@.subrange(0, i as int).map_values(f),
        decreases n - i,
    {
        let name = properties.key_at(i);
        let value = properties.value_at(i).to_string();
        let arg = if create {
            let mut a = owned("-o");
            a.append(name.as_str());
            a.append("=");
            a.append(value.as_str());
            a
        } else {
            join3(name.as_str(), "=", value.as_str())
        };
        assert(arg@ == f(properties@[i as int]));
        let ghost before = r@;
        r.push(arg);
        assert(r@.map_values(|s: String| s@) =~= before.map_values(|s: String| s@).push(arg@));
        i = i + 1;
    }
    assert(properties@.subrange(0, n as int) =~= properties@);
    r
}

/// The command line `zfs <verb> <arguments> <dataset>`.
fn command_line(verb: &str, arguments: Vec<String>, dataset: &String) -> (r: Vec<String>)
    ensures
        r@.map_values(|s: String| s@) == seq!["zfs"@, verb@] + arguments@.map_values(
            |s: String| s@,
        ) + seq![dataset@],
{
    let mut r: Vec<String> = Vec::new();
    r.push(owned("zfs"));
    r.push(owned(verb));
    let mut args = arguments;
    let ghost args_view = args@.map_values(|s: String| s@);
    let ghost head = r@.map_values(|s: String| s@);
    r.append(&mut args);
    r.push(dataset.clone());
    assert(r@.map_values(|s: String| s@) =~= head + args_view + seq![dataset@]);
    r
}

/// The command line that makes a change.
fn command_for(action: &ZfsAction) -> (r: Vec<String>)
    ensures
        r@.map_values(|s: String| s@) == command_of(action@),
{
    match action {
        ZfsAction::CreateDataset { name, properties } => command_line(
            "create",
            value_arguments(properties, true),
            name,
        ),
        ZfsAction::SetProperties { dataset, properties } => command_line(
            "set",
            value_arguments(properties, false),
            dataset,
        ),
        ZfsAction::InheritProperties { dataset, properties } => command_line(
            "inherit",
            properties.clone(),
            dataset,
        ),
    }
}

impl ActionSet {
    /// The `zfs destroy` command lines of the destructive changes, in order.
    pub fn to_destructive_commands(&self) -> (r: Vec<Vec<String>>)
        ensures
            commands_view(r@) == destroyed_view(self.destrictive@).map_values(
                |name: Seq<char>| destroy_command(name),
            ),
    {
        let n = self.destrictive.len();
        let mut r: Vec<Vec<String>> = Vec::new();
        let mut i: usize = 0;
        while i < n
            invariant
                n == self.destrictive@.len(),
                i <= n,
                commands_view(r@) =~= destroyed_view(self.destrictive@).subrange(
                    0,
                    i as int,
                ).map_values(|name: Seq<char>| destroy_command(name)),
            decreases n - i,
        {
            match &self.destrictive[i] {
                DestructiveAction::DestroyDataset { name } => {
                    let mut command: Vec<String> = Vec::new();
                    command.push(owned("zfs"));
                    command.push(owned("destroy"));
                    command.push(name.clone());
                    assert(command@.map_values(|s: String| s@) =~= destroy_command(name@));
                    let ghost before = r@;
                    r.push(command);
                    assert(commands_view(r@) =~= commands_view(before).push(destroy_command(name@)));
                    assert(destroyed_view(self.destrictive@)[i as int] == name@);
                },
            }
            i = i + 1;
        }
        assert(destroyed_view(self.destrictive@).subrange(0, n as int) =~= destroyed_view(
            self.destrictive@,
        ));
        r
    }

    /// The `zfs create`, `zfs set` and `zfs inherit` command lines of the additive changes,
    /// in order.
    pub fn to_additive_commands(&self) -> (r: Vec<Vec<String>>)
        ensures
            commands_view(r@) == actions_view(self.additive@).map_values(
                |a: ActionView| command_of(a),
            ),
    {
        let n = self.additive.len();
        let mut r: Vec<Vec<String>> = Vec::new();
        let mut i: usize = 0;
        while i < n
            invariant
                n == self.additive@.len(),
                i <= n,
                commands_view(r@) =~= actions_view(self.additive@).subrange(
                    0,
                    i as int,
                ).map_values(|a: ActionView| command_of(a)),
            decreases n - i,
        {
            let command = command_for(&self.additive[i]);
            let ghost before = r@;
            r.push(command);
            assert(commands_view(r@) =~= commands_view(before).push(command_of(self.additive@[i as int]@)));
            assert(actions_view(self.additive@)[i as int] == self.additive@[i as int]@);
            i = i + 1;
        }
        assert(actions_view(self.additive@).subrange(0, n as int) =~= actions_view(
            self.additive@,
        ));
        r
    }
}

/// The words of a command line joined by single spaces.
pub open spec fn joined(words: Seq<Seq<char>>) -> Seq<char>
    decreases words.len(),
{
    if words.len() == 0 {
        Seq::empty()
    } else if words.len() == 1 {
        words[0]
    } else {
        joined(words.drop_last()) + " "@ + words.last()
    }
}

/// A command line as one line of text: `prefix`, the words joined by single spaces, and a
/// line break.
pub fn render_command(prefix: &str, command: &Vec<String>) -> (r: String)
    ensures
        r@ == prefix@ + joined(command@.map_values(|s: String| s@)) + "\n"@,
{
    let ghost words = command@.map_values(|s: String| s@);
    let n = command.len();
    let mut line = String::new();
    let mut i: usize = 0;
    while i < n
        invariant
            n == command@.len(),
            words == command@.map_values(|s: String| s@),
            i <= n,
            line@ =~= joined(words.subrange(0, i as int)),
        decreases n - i,
    {
        if i > 0 {
            line.append(" ");
        }
        line.append(command[i].as_str());
        assert(words.subrange(0, i + 1).drop_last() =~= words.subrange(0, i as int));
        i = i + 1;
    }
    assert(words.subrange(0, n as int) =~= words);
    let mut r = owned(prefix);
    r.append(line.as_str());
    r.append("\n");
    r
}

} // verus!
