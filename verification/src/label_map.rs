//! Which recipients each label has: a map from label names to lists of
//! recipients, in which no name stands twice.

use vstd::prelude::*;
use crate::text::{copy_strings, same_text, texts};

verus! {

/// A label's name with the recipients that are notified for it.
#[derive(Debug, Clone, PartialEq, Eq)]
pub struct LabelEntry {
    pub name: String,
    pub recipients: Vec<String>,
}

/// The map that a sequence of entries stands for. Where a name stands
/// twice, the later entry counts.
pub open spec fn entries_map(entries: Seq<LabelEntry>) -> Map<Seq<char>, Seq<Seq<char>>>
    decreases entries.len(),
{
    if entries.len() == 0 {
        Map::empty()
    } else {
        entries_map(entries.drop_last()).insert(
            entries.last().name@,
            texts(entries.last().recipients@),
        )
    }
}

/// No two entries have the same name.
pub open spec fn distinct_names(entries: Seq<LabelEntry>) -> bool {
    forall|i: int, j: int|
        0 <= i < j < entries.len() ==> (#[trigger] entries[i]).name@ != (#[trigger] entries[j]).name@
}

/// The names in the map are the names of the entries.
pub proof fn lemma_entries_map_names(entries: Seq<LabelEntry>, name: Seq<char>)
    ensures
        entries_map(entries).contains_key(name) <==> exists|i: int|
            0 <= i < entries.len() && (#[trigger] entries[i]).name@ == name,
    decreases entries.len(),
{
    if entries.len() > 0 {
        let rest = entries.drop_last();
        lemma_entries_map_names(rest, name);
        if entries_map(entries).contains_key(name) {
            if entries.last().name@ == name {
                assert(entries[entries.len() - 1].name@ == name);
            } else {
                let i = choose|i: int| 0 <= i < rest.len() && (#[trigger] rest[i]).name@ == name;
                assert(entries[i].name@ == name);
            }
        }
        if exists|i: int| 0 <= i < entries.len() && (#[trigger] entries[i]).name@ == name {
            let i = choose|i: int| 0 <= i < entries.len() && (#[trigger] entries[i]).name@ == name;
            if i < entries.len() - 1 {
                assert(rest[i].name@ == name);
            }
        }
    }
}

/// Where no name stands twice, every entry's name maps to that entry's
/// recipients.
pub proof fn lemma_entries_map_at(entries: Seq<LabelEntry>, i: int)
    requires
        distinct_names(entries),
        0 <= i < entries.len(),
    ensures
        entries_map(entries).contains_key(entries[i].name@),
        entries_map(entries)[entries[i].name@] == texts(entries[i].recipients@),
    decreases entries.len(),
{
    if i < entries.len() - 1 {
        let rest = entries.drop_last();
        assert(distinct_names(rest)) by {
            assert forall|a: int, b: int| 0 <= a < b < rest.len() implies (#[trigger] rest[a]).name@
                != (#[trigger] rest[b]).name@ by {
                assert(entries[a].name@ != entries[b].name@);
            }
        }
        lemma_entries_map_at(rest, i);
        assert(rest[i] == entries[i]);
        assert(entries[i].name@ != entries[entries.len() - 1].name@);
    }
}

/// Where no name stands twice, replacing an entry by one of the same name
/// is an `insert` on the map.
pub proof fn lemma_entries_map_replace(entries: Seq<LabelEntry>, i: int, entry: LabelEntry)
    requires
        distinct_names(entries),
        0 <= i < entries.len(),
        entry.name@ == entries[i].name@,
    ensures
        distinct_names(entries.update(i, entry)),
        entries_map(entries.update(i, entry)) == entries_map(entries).insert(
            entry.name@,
            texts(entry.recipients@),
        ),
    decreases entries.len(),
{
    let changed = entries.update(i, entry);
    assert(distinct_names(changed)) by {
        assert forall|a: int, b: int| 0 <= a < b < changed.len() implies (
        #[trigger] changed[a]).name@ != (#[trigger] changed[b]).name@ by {
            assert(entries[a].name@ != entries[b].name@);
        }
    }
    let rest = entries.drop_last();
    if i == entries.len() - 1 {
        assert(changed.drop_last() =~= rest);
        assert(entries_map(changed) =~= entries_map(entries).insert(
            entry.name@,
            texts(entry.recipients@),
        ));
    } else {
        assert(distinct_names(rest)) by {
            assert forall|a: int, b: int| 0 <= a < b < rest.len() implies (#[trigger] rest[a]).name@
                != (#[trigger] rest[b]).name@ by {
                assert(entries[a].name@ != entries[b].name@);
            }
        }
        lemma_entries_map_replace(rest, i, entry);
        assert(changed.drop_last() =~= rest.update(i, entry));
        assert(changed.last() == entries.last());
        assert(entries[i].name@ != entries[entries.len() - 1].name@);
        assert(entries_map(changed) =~= entries_map(entries).insert(
            entry.name@,
            texts(entry.recipients@),
        ));
    }
}

/// Two sequences of entries that agree, place by place, on the names and on
/// the recipients.
pub open spec fn same_entries(a: Seq<LabelEntry>, b: Seq<LabelEntry>) -> bool {
    &&& a.len() == b.len()
    &&& forall|k: int|
        0 <= k < a.len() ==> (#[trigger] a[k]).name@ == b[k].name@ && texts(a[k].recipients@)
            == texts(b[k].recipients@)
}

/// Sequences of entries that agree on names and recipients stand for the
/// same map.
pub proof fn lemma_same_entries_same_map(a: Seq<LabelEntry>, b: Seq<LabelEntry>)
    requires
        same_entries(a, b),
    ensures
        entries_map(a) == entries_map(b),
        distinct_names(a) ==> distinct_names(b),
    decreases a.len(),
{
    if a.len() > 0 {
        assert(same_entries(a.drop_last(), b.drop_last())) by {
            assert forall|k: int| 0 <= k < a.drop_last().len() implies (
            #[trigger] a.drop_last()[k]).name@ == b.drop_last()[k].name@ && texts(
                a.drop_last()[k].recipients@,
            ) == texts(b.drop_last()[k].recipients@) by {
                assert(a[k].name@ == b[k].name@);
            }
        }
        lemma_same_entries_same_map(a.drop_last(), b.drop_last());
        assert(a[a.len() - 1].name@ == b[a.len() - 1].name@);
    }
    if distinct_names(a) {
        assert forall|i: int, j: int| 0 <= i < j < b.len() implies (#[trigger] b[i]).name@ != (
        #[trigger] b[j]).name@ by {
            assert(a[i].name@ == b[i].name@);
            assert(a[j].name@ == b[j].name@);
        }
    }
}

/// A map from label names to the recipients of each label.
#[derive(Debug, PartialEq, Eq)]
pub struct LabelMap {
    entries: Vec<LabelEntry>,
}

impl LabelMap {
    /// The map from each label's name to its recipients, in the order in
    /// which the configuration gives them.
    pub closed spec fn view(&self) -> Map<Seq<char>, Seq<Seq<char>>> {
        entries_map(self.entries@)
    }

    #[verifier::type_invariant]
    spec fn well_formed(self) -> bool {
        distinct_names(self.entries@)
    }

    /// The map without any label.
    pub fn new() -> (map: Self)
        ensures
            map@ == Map::<Seq<char>, Seq<Seq<char>>>::empty(),
    {
        LabelMap { entries: Vec::new() }
    }

    /// The position of the entry with this name, if there is one.
    fn position(&self, name: &str) -> (at: Option<usize>)
        ensures
            match at {
                Some(i) => i < self.entries.len() && self.entries[i as int].name@ == name@,
                None => forall|k: int|
                    0 <= k < self.entries.len() ==> (#[trigger] self.entries[k]).name@ != name@,
            },
    {
        let mut i: usize = 0;
        while i < self.entries.len()
            invariant
                i <= self.entries.len(),
                forall|k: int| 0 <= k < i ==> (#[trigger] self.entries[k]).name@ != name@,
            decreases self.entries.len() - i,
        {
            if same_text(self.entries[i].name.as_str(), name) {
                return Some(i);
            }
            i += 1;
        }
        None
    }

    /// The recipients of the label with this name, if the map has it.
    pub fn get(&self, name: &str) -> (found: Option<&Vec<String>>)
        ensures
            match found {
                Some(recipients) => self@.contains_key(name@) && texts(recipients@) == self@[name@],
                None => !self@.contains_key(name@),
            },
    {
        proof {
            use_type_invariant(self);
            lemma_entries_map_names(self.entries@, name@);
        }
        match self.position(name) {
            Some(i) => {
                proof {
                    lemma_entries_map_at(self.entries@, i as int);
                }
                Some(&self.entries[i].recipients)
            },
            None => None,
        }
    }

    /// Gives the label with this name these recipients. Where the map had
    /// the name already, the earlier recipients are handed back.
    pub fn insert(&mut self, name: String, recipients: Vec<String>) -> (earlier: Option<Vec<String>>)
        ensures
            final(self)@ == old(self)@.insert(name@, texts(recipients@)),
            match earlier {
                Some(list) => old(self)@.contains_key(name@) && texts(list@) == old(self)@[name@],
                None => !old(self)@.contains_key(name@),
            },
    {
        proof {
            use_type_invariant(&*self);
            lemma_entries_map_names(self.entries@, name@);
        }
        let at = self.position(name.as_str());
        let ghost before = self.entries@;
        let entry = LabelEntry { name, recipients };
        let mut entries: Vec<LabelEntry> = Vec::new();
        std::mem::swap(&mut entries, &mut self.entries);
        match at {
            Some(i) => {
                proof {
                    lemma_entries_map_at(before, i as int);
                    lemma_entries_map_replace(before, i as int, entry);
                }
                let replaced = entries.remove(i);
                entries.insert(i, entry);
                assert(entries@ =~= before.update(i as int, entry));
                self.entries = entries;
                Some(replaced.recipients)
            },
            None => {
                entries.push(entry);
                assert(entries@.drop_last() =~= before);
                assert(distinct_names(entries@));
                self.entries = entries;
                None
            },
        }
    }

    /// The entries of the map, of which no two have the same name.
    pub fn entries(&self) -> (entries: &Vec<LabelEntry>)
        ensures
            entries_map(entries@) == self@,
            distinct_names(entries@),
    {
        proof {
            use_type_invariant(self);
        }
        &self.entries
    }
}

impl Clone for LabelMap {
    fn clone(&self) -> (copy: Self)
        ensures
            copy@ == self@,
    {
        proof {
            use_type_invariant(self);
        }
        let mut entries: Vec<LabelEntry> = Vec::new();
        let mut i: usize = 0;
        while i < self.entries.len()
            invariant
                i <= self.entries.len(),
                same_entries(self.entries@.take(i as int), entries@),
            decreases self.entries.len() - i,
        {
            let entry = &self.entries[i];
            let ghost before = entries@;
            entries.push(
                LabelEntry { name: entry.name.clone(), recipients: copy_strings(&entry.recipients) },
            );
            assert(same_entries(self.entries@.take(i + 1), entries@)) by {
                assert forall|k: int| 0 <= k < i + 1 implies (#[trigger] self.entries@.take(
                    i + 1,
                )[k]).name@ == entries@[k].name@ && texts(
                    self.entries@.take(i + 1)[k].recipients@,
                ) == texts(entries@[k].recipients@) by {
                    if k < i {
                        assert(self.entries@.take(i as int)[k].name@ == before[k].name@);
                    }
                }
            }
            i += 1;
        }
        proof {
            assert(self.entries@.take(i as int) =~= self.entries@);
            lemma_same_entries_same_map(self.entries@, entries@);
        }
        LabelMap { entries }
    }
}

} // verus!
