//! The host inventory: which hosts each access pattern selects.
use vstd::prelude::*;
use crate::text::{copy_strings, views};

verus! {

/// A pattern and the hosts it selects.
pub type EntryView = (Seq<char>, Seq<Seq<char>>);

pub open spec fn entry_views(v: Seq<(String, Vec<String>)>) -> Seq<EntryView> {
    v.map_values(|e: (String, Vec<String>)| (e.0@, views(e.1@)))
}

/// The hosts of the first entry whose pattern is `p`; none where no entry
/// has that pattern.
pub open spec fn pattern_hosts(entries: Seq<EntryView>, p: Seq<char>) -> Seq<Seq<char>>
    decreases entries.len(),
{
    if entries.len() == 0 {
        Seq::empty()
    } else if entries[0].0 == p {
        entries[0].1
    } else {
        pattern_hosts(entries.drop_first(), p)
    }
}

/// The resolved access patterns of a host inventory, in the order they were
/// added.
pub struct Inventory {
    entries: Vec<(String, Vec<String>)>,
}

impl View for Inventory {
    type V = Seq<EntryView>;

    closed spec fn view(&self) -> Seq<EntryView> {
        entry_views(self.entries@)
    }
}

impl Inventory {
    /// An inventory that selects no host for any pattern.
    pub fn new() -> (r: Inventory)
        ensures
            r@ == Seq::<EntryView>::empty(),
    {
        let r = Inventory { entries: Vec::new() };
        assert(r@ =~= Seq::<EntryView>::empty());
        r
    }

    /// Records the hosts that `pattern` selects.
    pub fn add_pattern(&mut self, pattern: String, hosts: Vec<String>)
        ensures
            final(self)@ == old(self)@.push((pattern@, views(hosts@))),
    {
        let ghost prev = self.entries@;
        self.entries.push((pattern, hosts));
        assert(entry_views(self.entries@) =~= entry_views(prev).push(
            (self.entries@.last().0@, views(self.entries@.last().1@)),
        ));
    }

    /// The hosts that `pattern` selects, in inventory order.
    pub fn get_pattern_hosts(&self, pattern: &String) -> (r: Vec<String>)
        ensures
            views(r@) == pattern_hosts(self@, pattern@),
    {
        let ghost e = entry_views(self.entries@);
        let mut i: usize = 0;
        assert(e.skip(0) =~= e);
        while i < self.entries.len()
            invariant
                i <= self.entries.len(),
                e == entry_views(self.entries@),
                pattern_hosts(e, pattern@) == pattern_hosts(e.skip(i as int), pattern@),
            decreases self.entries.len() - i,
        {
            assert(e.skip(i as int).drop_first() =~= e.skip(i + 1));
            assert(e[i as int].0 == self.entries@[i as int].0@);
            if self.entries[i].0 == *pattern {
                return copy_strings(&self.entries[i].1);
            }
            i = i + 1;
        }
        Vec::new()
    }
}

} // verus!
