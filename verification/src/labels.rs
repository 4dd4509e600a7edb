//! The label table: a mapping from a label's name to the word index its
//! declaration stands at. A later declaration of the same name shadows
//! an earlier one, so lookup scans the recorded bindings from the most
//! recent backwards. Label names are matched exactly, with no case
//! folding.
use vstd::prelude::*;

use crate::text::str_eq;

verus! {

/// The most recent binding of `name` among `entries`, if any.
pub open spec fn lookup_entries(entries: Seq<(Seq<char>, nat)>, name: Seq<char>) -> Option<nat>
    decreases entries.len(),
{
    if entries.len() == 0 {
        None
    } else if entries.last().0 == name {
        Some(entries.last().1)
    } else {
        lookup_entries(entries.drop_last(), name)
    }
}

pub struct LabelTable {
    entries: Vec<(String, usize)>,
}

impl View for LabelTable {
    type V = Seq<(Seq<char>, nat)>;

    closed spec fn view(&self) -> Seq<(Seq<char>, nat)> {
        self.entries.deep_view().map_values(|p: (Seq<char>, usize)| (p.0, p.1 as nat))
    }
}

impl LabelTable {
    /// An empty table.
    pub fn new() -> (r: LabelTable)
        ensures
            r@ == Seq::<(Seq<char>, nat)>::empty(),
    {
        let r = LabelTable { entries: Vec::new() };
        proof {
            assert(r@ =~= Seq::<(Seq<char>, nat)>::empty());
        }
        r
    }

    /// Records `name` as declared at word index `index`, shadowing any
    /// earlier binding of the same name.
    pub fn insert(&mut self, name: String, index: usize)
        ensures
            final(self)@ == old(self)@.push((name@, index as nat)),
    {
        let ghost before = self@;
        let ghost n = name@;
        self.entries.push((name, index));
        proof {
            assert(self@ =~= before.push((n, index as nat)));
        }
    }

    /// The word index `name` is bound to, if it was declared.
    pub fn lookup(&self, name: &str) -> (r: Option<usize>)
        ensures
            match r {
                Some(ix) => lookup_entries(self@, name@) == Some(ix as nat),
                None => lookup_entries(self@, name@) is None,
            },
    {
        let n: usize = self.entries.len();
        proof {
            assert(self@.take(n as int) =~= self@);
        }
        let mut i: usize = n;
        while i > 0
            invariant
                i <= n,
                n == self.entries.len(),
                n == self@.len(),
                lookup_entries(self@, name@) == lookup_entries(
                    self@.take(i as int),
                    name@,
                ),
            decreases i,
        {
            i = i - 1;
            if str_eq(self.entries[i].0.as_str(), name) {
                proof {
                    let t = self@.take(i as int + 1);
                    assert(t.last() == (self@[i as int].0, self@[i as int].1));
                    assert(t.last().0 == name@);
                }
                return Some(self.entries[i].1);
            }
            proof {
                let t = self@.take(i as int + 1);
                assert(t.last().0 != name@);
                assert(t.drop_last() =~= self@.take(i as int));
            }
        }
        proof {
            assert(self@.take(0) =~= Seq::<(Seq<char>, nat)>::empty());
        }
        None
    }
}

} // verus!
