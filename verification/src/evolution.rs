//! Git history facts per file, as the clone analysis reads them.
use crate::text::{text_eq, Text};
use vstd::prelude::*;

verus! {

/// Commit activity recorded for one file.
#[derive(Debug, Clone, Copy)]
pub struct FileChurn {
    pub commit_count: u32,
    pub lines_added: u32,
    pub lines_removed: u32,
    pub total_churn: u32,
}

/// History facts keyed by file path; the first entry for a path is the one
/// that counts.
#[derive(Debug, Clone)]
pub struct EvolutionReport {
    pub churn: Vec<(String, FileChurn)>,
    pub code_age: Vec<(String, u32)>,
    pub last_modified_epoch: Vec<(String, i64)>,
    pub hotspots: Vec<(String, u64)>,
}

/// The value of the first entry whose key is `key`.
pub open spec fn lookup<V>(entries: Seq<(String, V)>, key: Text) -> Option<V>
    decreases entries.len(),
{
    if entries.len() == 0 {
        None
    } else if entries[0].0@ == key {
        Some(entries[0].1)
    } else {
        lookup(entries.drop_first(), key)
    }
}

/// The value of the first entry of `entries` whose key is `key`.
pub fn lookup_entry<V: Copy>(entries: &Vec<(String, V)>, key: &str) -> (r: Option<V>)
    ensures
        r == lookup(entries@, key@),
{
    let mut i: usize = 0;
    assert(entries@.skip(0) =~= entries@);
    while i < entries.len()
        invariant
            i <= entries@.len(),
            lookup(entries@, key@) == lookup(entries@.skip(i as int), key@),
        decreases entries@.len() - i,
    {
        assert(entries@.skip(i as int).drop_first() =~= entries@.skip(i + 1));
        assert(entries@.skip(i as int)[0] == entries@[i as int]);
        if text_eq(entries[i].0.as_str(), key) {
            return Some(entries[i].1);
        }
        i = i + 1;
    }
    assert(entries@.skip(i as int).len() == 0);
    None
}

/// Sets the value for `key`: replaces the first entry with that key, or adds one.
pub fn set_entry<V: Copy>(entries: &mut Vec<(String, V)>, key: &str, value: V)
    ensures
        lookup(final(entries)@, key@) == Some(value),
        forall|k: Text| k != key@ ==> lookup(final(entries)@, k) == lookup(old(entries)@, k),
{
    let ghost before = entries@;
    let mut i: usize = 0;
    while i < entries.len()
        invariant
            entries@ == before,
            before == old(entries)@,
            i <= entries@.len(),
            forall|j: int| 0 <= j < i ==> entries@[j].0@ != key@,
        decreases entries@.len() - i,
    {
        if text_eq(entries[i].0.as_str(), key) {
            let name = entries[i].0.clone();
            let e = (name, value);
            entries.set(i, e);
            proof {
                assert(entries@ == before.update(i as int, e));
                assert forall|k: Text| k != key@ implies #[trigger] lookup(entries@, k) == lookup(before, k) by {
                    lemma_lookup_set(before, i as int, e, k);
                }
                lemma_lookup_set(before, i as int, e, key@);
                assert(before == old(entries)@);
                assert(forall|k: Text| k != key@ ==> lookup(entries@, k) == lookup(old(entries)@, k));
            }
            return;
        }
        i = i + 1;
    }
    let entry = (key.to_string(), value);
    entries.push(entry);
    proof {
        assert forall|k: Text| k != key@ implies #[trigger] lookup(entries@, k) == lookup(before, k) by {
            lemma_lookup_push(before, entry, k);
        }
        lemma_lookup_push(before, entry, key@);
    }
}

proof fn lemma_lookup_set<V>(s: Seq<(String, V)>, i: int, e: (String, V), k: Text)
    requires
        0 <= i < s.len(),
        s[i].0@ == e.0@,
        forall|j: int| 0 <= j < i ==> s[j].0@ != e.0@,
    ensures
        k == e.0@ ==> lookup(s.update(i, e), k) == Some(e.1),
        k != e.0@ ==> lookup(s.update(i, e), k) == lookup(s, k),
    decreases i,
{
    let t = s.update(i, e);
    if i > 0 {
        assert(t.drop_first() =~= s.drop_first().update(i - 1, e));
        lemma_lookup_set(s.drop_first(), i - 1, e, k);
        assert(t[0] == s[0]);
    } else {
        assert(t.drop_first() =~= s.drop_first());
    }
}

proof fn lemma_lookup_push<V>(s: Seq<(String, V)>, e: (String, V), k: Text)
    requires
        forall|j: int| 0 <= j < s.len() ==> s[j].0@ != e.0@,
    ensures
        k == e.0@ ==> lookup(s.push(e), k) == Some(e.1),
        k != e.0@ ==> lookup(s.push(e), k) == lookup(s, k),
    decreases s.len(),
{
    if s.len() > 0 {
        assert(s.push(e).drop_first() =~= s.drop_first().push(e));
        lemma_lookup_push(s.drop_first(), e, k);
        assert(s.push(e)[0] == s[0]);
    } else {
        assert(s.push(e).drop_first() =~= Seq::<(String, V)>::empty());
        assert(lookup(s.push(e).drop_first(), k) is None);
        assert(lookup(s, k) is None);
    }
}

} // verus!
