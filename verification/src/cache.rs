//! Cache of resolved resources keyed by logical asset name. Within one
//! loading session a key resolves at most once: a hit returns the stored
//! handle untouched, a miss is filled by the caller after it has done the
//! one backend load. Failures are never stored, so a failed key may be
//! retried with a fresh request.
use vstd::prelude::*;

verus! {

/// The handle stored for the first matching entry of `entries` at or after
/// position `i`, if any.
pub open spec fn spec_find_from<V>(entries: Seq<(String, V)>, key: Seq<char>, i: int) -> Option<V>
    decreases entries.len() - i,
{
    if i < 0 || i >= entries.len() {
        None
    } else if entries[i].0@ == key {
        Some(entries[i].1)
    } else {
        spec_find_from(entries, key, i + 1)
    }
}

/// The handle stored under `key`, if any.
pub open spec fn spec_find<V>(entries: Seq<(String, V)>, key: Seq<char>) -> Option<V> {
    spec_find_from(entries, key, 0)
}

/// After storing a fresh key, looking it up yields exactly the stored
/// handle.
pub proof fn lemma_find_after_store<V>(entries: Seq<(String, V)>, key: String, v: V)
    requires
        spec_find(entries, key@) is None,
    ensures
        spec_find(entries.push((key, v)), key@) == Some(v),
{
    lemma_find_from_push(entries, key, v, key@, 0);
}

/// Storing one key leaves every other key's resolution unchanged.
pub proof fn lemma_find_other_key<V>(entries: Seq<(String, V)>, key: String, v: V, other: Seq<char>)
    requires
        other != key@,
    ensures
        spec_find(entries.push((key, v)), other) == spec_find(entries, other),
{
    lemma_find_from_push(entries, key, v, other, 0);
}

proof fn lemma_find_from_push<V>(
    entries: Seq<(String, V)>,
    key: String,
    v: V,
    probe: Seq<char>,
    i: int,
)
    requires
        0 <= i <= entries.len(),
        probe == key@ ==> spec_find_from(entries, probe, i) is None,
    ensures
        spec_find_from(entries.push((key, v)), probe, i) == if probe == key@ {
            Some(v)
        } else {
            spec_find_from(entries, probe, i)
        },
    decreases entries.len() - i,
{
    let pushed = entries.push((key, v));
    assert(pushed.len() == entries.len() + 1);
    if i < entries.len() {
        assert(pushed[i] == entries[i]);
        if entries[i].0@ == probe {
            assert(spec_find_from(entries, probe, i) == Some(entries[i].1));
            assert(spec_find_from(pushed, probe, i) == Some(pushed[i].1));
        } else {
            lemma_find_from_push(entries, key, v, probe, i + 1);
            assert(spec_find_from(entries, probe, i) == spec_find_from(entries, probe, i + 1));
            assert(spec_find_from(pushed, probe, i) == spec_find_from(pushed, probe, i + 1));
        }
    } else {
        assert(pushed[i] == (key, v));
        assert(spec_find_from(entries, probe, i) is None);
        if probe == key@ {
            assert(pushed[i].0@ == probe);
            assert(spec_find_from(pushed, probe, i) == Some(v));
        } else {
            assert(pushed[i].0@ != probe);
            assert(spec_find_from(pushed, probe, i) == spec_find_from(pushed, probe, i + 1));
            assert(spec_find_from(pushed, probe, i + 1) is None);
        }
    }
}

/// A resolved key is backed by an actual entry carrying it.
pub proof fn lemma_find_is_entry<V>(entries: Seq<(String, V)>, key: Seq<char>)
    requires
        spec_find(entries, key) is Some,
    ensures
        exists|k: int|
            0 <= k < entries.len() && (#[trigger] entries[k]).0@ == key && Some(entries[k].1)
                == spec_find(entries, key),
{
    lemma_find_from_is_entry(entries, key, 0);
}

proof fn lemma_find_from_is_entry<V>(entries: Seq<(String, V)>, key: Seq<char>, i: int)
    requires
        0 <= i <= entries.len(),
        spec_find_from(entries, key, i) is Some,
    ensures
        exists|k: int|
            i <= k < entries.len() && (#[trigger] entries[k]).0@ == key && Some(entries[k].1)
                == spec_find_from(entries, key, i),
    decreases entries.len() - i,
{
    if entries[i].0@ == key {
        assert(entries[i].0@ == key && Some(entries[i].1) == spec_find_from(entries, key, i));
    } else {
        lemma_find_from_is_entry(entries, key, i + 1);
    }
}

/// The position of the first entry of `entries` whose name equals `key`,
/// or `None` if no entry has that name.
pub fn assoc_find_index<V>(entries: &Vec<(String, V)>, key: &String) -> (r: Option<usize>)
    ensures
        match r {
            Some(i) => {
                &&& i < entries@.len()
                &&& entries@[i as int].0@ == key@
                &&& forall|j: int| 0 <= j < i ==> entries@[j].0@ != key@
                &&& spec_find(entries@, key@) == Some(entries@[i as int].1)
            },
            None => spec_find(entries@, key@) is None,
        },
{
    let n = entries.len();
    let mut i: usize = 0;
    while i < n
        invariant
            n == entries@.len(),
            i <= n,
            forall|j: int| 0 <= j < i ==> entries@[j].0@ != key@,
            spec_find(entries@, key@) == spec_find_from(entries@, key@, i as int),
        decreases n - i,
    {
        if entries[i].0 == *key {
            return Some(i);
        }
        i += 1;
    }
    None
}

/// Maps a logical asset key to its resolved handle for one loading
/// session; entries are never evicted and keys are never duplicated.
pub struct ResourceCache<V> {
    pub entries: Vec<(String, V)>,
}

impl<V: Copy> ResourceCache<V> {
    pub fn new() -> (c: ResourceCache<V>)
        ensures
            c.entries@.len() == 0,
    {
        ResourceCache { entries: Vec::new() }
    }

    /// The handle cached under `key`, or `None` if this session has not
    /// resolved `key` yet.
    pub fn lookup(&self, key: &String) -> (r: Option<V>)
        ensures
            r == spec_find(self.entries@, key@),
    {
        let n = self.entries.len();
        let mut i: usize = 0;
        while i < n
            invariant
                n == self.entries@.len(),
                i <= n,
                spec_find(self.entries@, key@) == spec_find_from(self.entries@, key@, i as int),
            decreases n - i,
        {
            if self.entries[i].0 == *key {
                return Some(self.entries[i].1);
            }
            i += 1;
        }
        None
    }

    /// Records the handle the backend resolved for a key that had none.
    pub fn store(&mut self, key: String, v: V)
        requires
            spec_find(old(self).entries@, key@) is None,
        ensures
            final(self).entries@ == old(self).entries@.push((key, v)),
            spec_find(final(self).entries@, key@) == Some(v),
            forall|other: Seq<char>|
                other != key@ ==> #[trigger] spec_find(final(self).entries@, other) == spec_find(
                    old(self).entries@,
                    other,
                ),
    {
        let ghost oe = self.entries@;
        self.entries.push((key, v));
        proof {
            lemma_find_after_store(oe, key, v);
            assert forall|other: Seq<char>| other != key@ implies #[trigger] spec_find(
                self.entries@,
                other,
            ) == spec_find(oe, other) by {
                lemma_find_other_key(oe, key, v, other);
            }
        }
    }
}

} // verus!
