//! The parent paths of a dataset name: for `tank/a/b`, the names `tank` and `tank/a`.

use vstd::prelude::*;
use vstd::string::*;

verus! {

/// The positions of the slashes in `s`, in increasing order.
pub open spec fn slash_positions(s: Seq<char>) -> Seq<int>
    decreases s.len(),
{
    if s.len() == 0 {
        Seq::empty()
    } else {
        let before = slash_positions(s.drop_last());
        if s.last() == '/' {
            before.push(s.len() - 1)
        } else {
            before
        }
    }
}

/// The prefixes of `s` that end just before a slash, shortest first.
pub open spec fn prefix_paths(s: Seq<char>) -> Seq<Seq<char>> {
    slash_positions(s).map_values(|i: int| s.subrange(0, i))
}

/// A position belongs to the slash positions exactly where `s` holds a slash.
pub proof fn lemma_slash_positions(s: Seq<char>)
    ensures
        forall|k: int|
            0 <= k < slash_positions(s).len() ==> 0 <= #[trigger] slash_positions(s)[k] < s.len()
                && s[slash_positions(s)[k]] == '/',
        forall|i: int| 0 <= i < s.len() && s[i] == '/' ==> slash_positions(s).contains(i),
        forall|k1: int, k2: int|
            0 <= k1 < k2 < slash_positions(s).len() ==> #[trigger] slash_positions(s)[k1]
                < #[trigger] slash_positions(s)[k2],
    decreases s.len(),
{
    if s.len() > 0 {
        let t = s.drop_last();
        lemma_slash_positions(t);
        let p = slash_positions(s);
        assert forall|i: int| 0 <= i < s.len() && s[i] == '/' implies p.contains(i) by {
            if i < s.len() - 1 {
                assert(t[i] == '/');
                let k = choose|k: int| 0 <= k < slash_positions(t).len() && slash_positions(t)[k] == i;
                assert(p[k] == i);
            } else {
                assert(p[p.len() - 1] == i);
            }
        }
    }
}

/// The slash positions of the text read so far grow by the next position when it holds a
/// slash.
pub proof fn lemma_slash_positions_step(s: Seq<char>, i: int)
    requires
        0 <= i < s.len(),
    ensures
        slash_positions(s.subrange(0, i + 1)) == if s[i] == '/' {
            slash_positions(s.subrange(0, i)).push(i)
        } else {
            slash_positions(s.subrange(0, i))
        },
{
    assert(s.subrange(0, i + 1).drop_last() =~= s.subrange(0, i));
}

/// The slash positions of a prefix of `s` are the first slash positions of `s`; the
/// later ones lie at or beyond the end of the prefix.
pub proof fn lemma_slash_positions_prefix(s: Seq<char>, k: int)
    requires
        0 <= k <= s.len(),
    ensures
        slash_positions(s.subrange(0, k)).len() <= slash_positions(s).len(),
        slash_positions(s.subrange(0, k)) == slash_positions(s).subrange(
            0,
            slash_positions(s.subrange(0, k)).len() as int,
        ),
        forall|j: int|
            slash_positions(s.subrange(0, k)).len() <= j < slash_positions(s).len()
                ==> #[trigger] slash_positions(s)[j] >= k,
    decreases s.len(),
{
    if k == s.len() {
        assert(s.subrange(0, k) =~= s);
        assert(slash_positions(s).subrange(0, slash_positions(s).len() as int) =~= slash_positions(s));
    } else {
        let t = s.drop_last();
        assert(t.subrange(0, k) =~= s.subrange(0, k));
        lemma_slash_positions_prefix(t, k);
        let q = slash_positions(s.subrange(0, k));
        if s.last() == '/' {
            assert(slash_positions(s) == slash_positions(t).push(s.len() - 1));
            assert(slash_positions(s).subrange(0, q.len() as int) =~= slash_positions(t).subrange(
                0,
                q.len() as int,
            ));
        }
    }
}

/// The parent paths of a parent path of `s` are the parent paths of `s` before it.
pub proof fn lemma_prefix_paths_of_prefix(s: Seq<char>, m: int)
    requires
        0 <= m < prefix_paths(s).len(),
    ensures
        prefix_paths(prefix_paths(s)[m]) == prefix_paths(s).subrange(0, m),
{
    let ps = slash_positions(s);
    lemma_slash_positions(s);
    let k = ps[m];
    let p = s.subrange(0, k);
    assert(prefix_paths(s)[m] == p);
    lemma_slash_positions_prefix(s, k);
    let q = slash_positions(p);
    lemma_slash_positions(p);
    let l = q.len() as int;
    if l > m {
        assert(q[m] == ps[m]);
        assert(q[m] < p.len());
    }
    if l < m {
        assert(ps[l] < ps[m]);
        assert(ps[l] >= k);
    }
    assert(l == m);
    assert(prefix_paths(p) =~= prefix_paths(s).subrange(0, m)) by {
        assert forall|j: int| 0 <= j < m implies #[trigger] prefix_paths(p)[j] == prefix_paths(s).subrange(0, m)[j] by {
            assert(q[j] == ps[j]);
            assert(ps[j] < ps[m]);
            assert(p.subrange(0, q[j]) =~= s.subrange(0, ps[j]));
        }
    }
}

/// The parent paths of a dataset name, handed out one at a time.
pub struct PrefixPaths<'a> {
    source: &'a str,
    positions: Vec<usize>,
    next: usize,
}

impl<'a> View for PrefixPaths<'a> {
    type V = Seq<Seq<char>>;

    /// The parent paths still to be handed out.
    closed spec fn view(&self) -> Seq<Seq<char>> {
        self.positions@.skip(self.next as int).map_values(
            |i: usize| self.source@.subrange(0, i as int),
        )
    }
}

impl<'a> PrefixPaths<'a> {
    #[verifier::type_invariant]
    closed spec fn well_formed(&self) -> bool {
        &&& self.next <= self.positions@.len()
        &&& forall|k: int|
            0 <= k < self.positions@.len() ==> #[trigger] self.positions@[k] <= self.source@.len()
    }

    /// The parent paths of `string`.
    pub fn new(string: &'a str) -> (r: PrefixPaths<'a>)
        ensures
            r@ == prefix_paths(string@),
    {
        let n = string.unicode_len();
        let mut positions: Vec<usize> = Vec::new();
        let mut i: usize = 0;
        while i < n
            invariant
                n == string@.len(),
                i <= n,
                positions@.map_values(|p: usize| p as int) =~= slash_positions(
                    string@.subrange(0, i as int),
                ),
                forall|k: int| 0 <= k < positions@.len() ==> #[trigger] positions@[k] < i,
            decreases n - i,
        {
            proof {
                lemma_slash_positions_step(string@, i as int);
            }
            if string.get_char(i) == '/' {
                positions.push(i);
            }
            i = i + 1;
        }
        assert(string@.subrange(0, n as int) =~= string@);
        let r = PrefixPaths { source: string, positions, next: 0 };
        assert(r@ =~= prefix_paths(string@)) by {
            assert(r.positions@.skip(0) =~= r.positions@);
            let m = r.positions@.map_values(|p: usize| p as int);
            assert forall|k: int| 0 <= k < r@.len() implies #[trigger] r@[k] == prefix_paths(
                string@,
            )[k] by {
                assert(m[k] == r.positions@[k] as int);
            }
        }
        r
    }

    /// The next parent path, shortest first.
    pub fn next(&mut self) -> (r: Option<&'a str>)
        ensures
            old(self)@.len() == 0 ==> r is None && final(self)@ == old(self)@,
            old(self)@.len() > 0 ==> (r matches Some(p) && p@ == old(self)@[0] && final(self)@
                == old(self)@.drop_first()),
    {
        proof {
            use_type_invariant(&*self);
        }
        if self.next < self.positions.len() {
            let end = self.positions[self.next];
            let p = self.source.substring_char(0, end);
            let ghost before = self@;
            self.next = self.next + 1;
            assert(self@ =~= before.drop_first());
            Some(p)
        } else {
            None
        }
    }
}

} // verus!
