//! A small map keyed by identity, kept as a list without repeated keys.

use crate::identity::Identity;
use vstd::prelude::*;

verus! {

/// True when no identity keys two entries of `s`.
pub open spec fn keys_distinct<V>(s: Seq<(Identity, V)>) -> bool {
    forall|i: int, j: int| 0 <= i < j < s.len() ==> (#[trigger] s[i]).0@ != (#[trigger] s[j]).0@
}

/// True when some entry of `s` is keyed by `k`.
pub open spec fn holds<V>(s: Seq<(Identity, V)>, k: Seq<u8>) -> bool {
    exists|i: int| 0 <= i < s.len() && (#[trigger] s[i]).0@ == k
}

/// The place of an entry of `s` keyed by `k`.
pub open spec fn index_of<V>(s: Seq<(Identity, V)>, k: Seq<u8>) -> int {
    choose|i: int| 0 <= i < s.len() && (#[trigger] s[i]).0@ == k
}

/// The map that a list of entries stands for.
pub open spec fn entries_map<V>(s: Seq<(Identity, V)>) -> Map<Seq<u8>, V> {
    Map::new(|k: Seq<u8>| holds(s, k), |k: Seq<u8>| s[index_of(s, k)].1)
}

/// A map from identities to values.
pub struct IdentityMap<V> {
    entries: Vec<(Identity, V)>,
}

impl<V> View for IdentityMap<V> {
    type V = Map<Seq<u8>, V>;

    closed spec fn view(&self) -> Map<Seq<u8>, V> {
        entries_map(self.entries@)
    }
}

/// In a list without repeated keys, the entry at `i` is what the map holds
/// under its key.
proof fn lemma_entry_at<V>(s: Seq<(Identity, V)>, i: int)
    requires
        keys_distinct(s),
        0 <= i < s.len(),
    ensures
        entries_map(s).contains_key(s[i].0@),
        entries_map(s)[s[i].0@] == s[i].1,
{
    let k = s[i].0@;
    assert(holds(s, k));
    let j = index_of(s, k);
    assert(0 <= j < s.len() && s[j].0@ == k);
    if j != i {
        if j < i {
            assert(s[j].0@ != s[i].0@);
        } else {
            assert(s[i].0@ != s[j].0@);
        }
    }
}

impl<V> IdentityMap<V> {
    #[verifier::type_invariant]
    spec fn inv(self) -> bool {
        keys_distinct(self.entries@)
    }
}

impl<V: Copy> IdentityMap<V> {
    /// A map without entries.
    pub fn new() -> (m: Self)
        ensures
            m@ == Map::<Seq<u8>, V>::empty(),
    {
        let m = IdentityMap { entries: Vec::new() };
        proof {
            assert(m@ =~= Map::<Seq<u8>, V>::empty());
        }
        m
    }

    /// Number of entries.
    pub fn len(&self) -> (n: usize)
        ensures
            n == self@.dom().len(),
            self@.dom().finite(),
    {
        proof {
            use_type_invariant(self);
            lemma_domain(self.entries@);
        }
        self.entries.len()
    }

    fn position(entries: &Vec<(Identity, V)>, key: &Identity) -> (r: Option<usize>)
        ensures
            match r {
                Some(i) => i < entries@.len() && entries@[i as int].0@ == key@,
                None => !holds(entries@, key@),
            },
    {
        let mut i: usize = 0;
        while i < entries.len()
            invariant
                i <= entries@.len(),
                forall|j: int| 0 <= j < i ==> (#[trigger] entries@[j]).0@ != key@,
            decreases entries@.len() - i,
        {
            if entries[i].0.same(key) {
                return Some(i);
            }
            i += 1;
        }
        None
    }

    /// The value stored for `key`.
    pub fn get(&self, key: &Identity) -> (r: Option<V>)
        ensures
            r == (if self@.contains_key(key@) {
                Some(self@[key@])
            } else {
                None
            }),
    {
        proof {
            use_type_invariant(self);
        }
        match Self::position(&self.entries, key) {
            Some(i) => {
                proof {
                    lemma_entry_at(self.entries@, i as int);
                }
                Some(self.entries[i].1)
            },
            None => None,
        }
    }

    /// Stores `value` for `key`, replacing what was stored.
    pub fn insert(&mut self, key: &Identity, value: V)
        ensures
            final(self)@ == old(self)@.insert(key@, value),
    {
        proof {
            use_type_invariant(&*self);
        }
        let mut entries: Vec<(Identity, V)> = Vec::new();
        std::mem::swap(&mut self.entries, &mut entries);
        let ghost before = entries@;
        match Self::position(&entries, key) {
            Some(i) => {
                entries[i] = (key.clone(), value);
                proof {
                    let after = entries@;
                    assert(keys_distinct(after)) by {
                        assert forall|a: int, b: int| 0 <= a < b < after.len() implies (
                        #[trigger] after[a]).0@ != (#[trigger] after[b]).0@ by {
                            assert(before[a].0@ != before[b].0@);
                        }
                    }
                    assert forall|k: Seq<u8>| entries_map(after).contains_key(k) == entries_map(
                        before,
                    ).insert(key@, value).contains_key(k) by {
                        if holds(after, k) {
                            let j = index_of(after, k);
                            assert(before[j].0@ == k);
                        }
                        if holds(before, k) {
                            let j = index_of(before, k);
                            assert(after[j].0@ == k);
                        }
                        if k == key@ {
                            assert(after[i as int].0@ == k);
                        }
                    }
                    assert forall|k: Seq<u8>| entries_map(after).contains_key(k) implies entries_map(
                        after,
                    )[k] == entries_map(before).insert(key@, value)[k] by {
                        let j = index_of(after, k);
                        lemma_entry_at(after, j);
                        if k != key@ {
                            assert(before[j].0@ == k);
                            lemma_entry_at(before, j);
                        } else {
                            lemma_entry_at(after, i as int);
                        }
                    }
                    assert(entries_map(after) =~= entries_map(before).insert(key@, value));
                }
            },
            None => {
                entries.push((key.clone(), value));
                proof {
                    let after = entries@;
                    assert(keys_distinct(after)) by {
                        assert forall|a: int, b: int| 0 <= a < b < after.len() implies (
                        #[trigger] after[a]).0@ != (#[trigger] after[b]).0@ by {
                            if b < before.len() {
                                assert(before[a].0@ != before[b].0@);
                            } else {
                                assert(before[a].0@ != key@);
                            }
                        }
                    }
                    assert forall|k: Seq<u8>| entries_map(after).contains_key(k) == entries_map(
                        before,
                    ).insert(key@, value).contains_key(k) by {
                        if holds(after, k) {
                            let j = index_of(after, k);
                            if j < before.len() {
                                assert(before[j].0@ == k);
                            }
                        }
                        if holds(before, k) {
                            let j = index_of(before, k);
                            assert(after[j].0@ == k);
                        }
                        if k == key@ {
                            assert(after[before.len() as int].0@ == k);
                        }
                    }
                    assert forall|k: Seq<u8>| entries_map(after).contains_key(k) implies entries_map(
                        after,
                    )[k] == entries_map(before).insert(key@, value)[k] by {
                        let j = index_of(after, k);
                        lemma_entry_at(after, j);
                        if j < before.len() {
                            assert(before[j].0@ == k);
                            lemma_entry_at(before, j);
                        }
                    }
                    assert(entries_map(after) =~= entries_map(before).insert(key@, value));
                }
            },
        }
        self.entries = entries;
    }

    /// Removes the entry of `key`, if there is one.
    pub fn remove(&mut self, key: &Identity)
        ensures
            final(self)@ == old(self)@.remove(key@),
    {
        proof {
            use_type_invariant(&*self);
        }
        let mut entries: Vec<(Identity, V)> = Vec::new();
        std::mem::swap(&mut self.entries, &mut entries);
        let ghost before = entries@;
        match Self::position(&entries, key) {
            Some(i) => {
                entries.remove(i);
                proof {
                    let after = entries@;
                    assert forall|a: int| 0 <= a < after.len() implies #[trigger] after[a]
                        == before[if a < i { a } else { a + 1 }] by {}
                    assert(keys_distinct(after)) by {
                        assert forall|a: int, b: int| 0 <= a < b < after.len() implies (
                        #[trigger] after[a]).0@ != (#[trigger] after[b]).0@ by {
                            let a2 = if a < i { a } else { a + 1 };
                            let b2 = if b < i { b } else { b + 1 };
                            assert(before[a2].0@ != before[b2].0@);
                        }
                    }
                    assert forall|k: Seq<u8>| entries_map(after).contains_key(k) == entries_map(
                        before,
                    ).remove(key@).contains_key(k) by {
                        if holds(after, k) {
                            let j = index_of(after, k);
                            let j2 = if j < i { j } else { j + 1 };
                            assert(before[j2].0@ == k);
                            if j2 < i {
                                assert(before[j2].0@ != before[i as int].0@);
                            } else {
                                assert(before[i as int].0@ != before[j2].0@);
                            }
                        }
                        if holds(before, k) && k != key@ {
                            let j = index_of(before, k);
                            let j2 = if j < i { j } else { j - 1 };
                            assert(after[j2].0@ == k);
                        }
                    }
                    assert forall|k: Seq<u8>| entries_map(after).contains_key(k) implies entries_map(
                        after,
                    )[k] == entries_map(before).remove(key@)[k] by {
                        let j = index_of(after, k);
                        let j2 = if j < i { j } else { j + 1 };
                        lemma_entry_at(after, j);
                        assert(before[j2].0@ == k);
                        lemma_entry_at(before, j2);
                    }
                    assert(entries_map(after) =~= entries_map(before).remove(key@));
                }
            },
            None => {
                proof {
                    assert(entries_map(before) =~= entries_map(before).remove(key@));
                }
            },
        }
        self.entries = entries;
    }
}

/// The domain of the map of a list without repeated keys is finite and as
/// large as the list is long.
proof fn lemma_domain<V>(s: Seq<(Identity, V)>)
    requires
        keys_distinct(s),
    ensures
        entries_map(s).dom().finite(),
        entries_map(s).dom().len() == s.len(),
    decreases s.len(),
{
    if s.len() == 0 {
        assert(entries_map(s).dom() =~= Set::<Seq<u8>>::empty());
    } else {
        let rest = s.drop_last();
        let k = s.last().0@;
        assert(keys_distinct(rest)) by {
            assert forall|a: int, b: int| 0 <= a < b < rest.len() implies (#[trigger] rest[a]).0@ != (
            #[trigger] rest[b]).0@ by {
                assert(s[a].0@ != s[b].0@);
            }
        }
        lemma_domain(rest);
        assert(!holds(rest, k)) by {
            if holds(rest, k) {
                let j = index_of(rest, k);
                assert(s[j].0@ != s[s.len() - 1].0@);
            }
        }
        assert(entries_map(s).dom() =~= entries_map(rest).dom().insert(k)) by {
            assert forall|q: Seq<u8>| entries_map(s).dom().contains(q) == entries_map(
                rest,
            ).dom().insert(k).contains(q) by {
                if holds(s, q) {
                    let j = index_of(s, q);
                    if j < rest.len() {
                        assert(rest[j].0@ == q);
                    }
                }
                if holds(rest, q) {
                    let j = index_of(rest, q);
                    assert(s[j].0@ == q);
                }
                if q == k {
                    assert(s[s.len() - 1].0@ == q);
                }
            }
        }
    }
}

impl IdentityMap<u64> {
    /// Removes every entry whose value is at most `now`.
    pub fn retain_after(&mut self, now: u64)
        ensures
            final(self)@ == old(self)@.restrict(
                Set::new(|k: Seq<u8>| old(self)@.contains_key(k) && old(self)@[k] > now),
            ),
    {
        proof {
            use_type_invariant(&*self);
        }
        let mut entries: Vec<(Identity, u64)> = Vec::new();
        std::mem::swap(&mut self.entries, &mut entries);
        let ghost before = entries@;
        let mut kept: Vec<(Identity, u64)> = Vec::new();
        let ghost mut origin: Seq<int> = Seq::empty();
        let mut i: usize = 0;
        while i < entries.len()
            invariant
                i <= entries@.len(),
                entries@ == before,
                keys_distinct(before),
                origin.len() == kept@.len(),
                forall|a: int|
                    0 <= a < kept@.len() ==> 0 <= #[trigger] origin[a] < i && kept@[a].0@
                        == before[origin[a]].0@ && kept@[a].1 == before[origin[a]].1
                        && kept@[a].1 > now,
                forall|a: int, b: int| 0 <= a < b < kept@.len() ==> origin[a] < origin[b],
                forall|j: int|
                    0 <= j < i && (#[trigger] before[j]).1 > now ==> exists|a: int|
                        0 <= a < kept@.len() && #[trigger] origin[a] == j,
            decreases entries@.len() - i,
        {
            if entries[i].1 > now {
                let ghost old_origin = origin;
                let ghost old_kept = kept@;
                kept.push((entries[i].0.clone(), entries[i].1));
                proof {
                    origin = origin.push(i as int);
                    assert forall|j: int|
                        0 <= j < i + 1 && (#[trigger] before[j]).1 > now implies exists|a: int|
                        0 <= a < kept@.len() && #[trigger] origin[a] == j by {
                        if j < i {
                            let a = choose|a: int|
                                0 <= a < old_kept.len() && #[trigger] old_origin[a] == j;
                            assert(origin[a] == j);
                        } else {
                            assert(origin[old_kept.len() as int] == j);
                        }
                    }
                }
            }
            i += 1;
        }
        proof {
            let after = kept@;
            let target = entries_map(before).restrict(
                Set::new(
                    |k: Seq<u8>| entries_map(before).contains_key(k) && entries_map(before)[k] > now,
                ),
            );
            assert(keys_distinct(after)) by {
                assert forall|a: int, b: int| 0 <= a < b < after.len() implies (
                #[trigger] after[a]).0@ != (#[trigger] after[b]).0@ by {
                    assert(origin[a] < origin[b]);
                    assert(before[origin[a]].0@ != before[origin[b]].0@);
                }
            }
            assert forall|k: Seq<u8>| entries_map(after).contains_key(k) == target.contains_key(
                k,
            ) by {
                if holds(after, k) {
                    let a = index_of(after, k);
                    let j = origin[a];
                    lemma_entry_at(before, j);
                }
                if target.contains_key(k) {
                    let j = index_of(before, k);
                    lemma_entry_at(before, j);
                    let a = choose|a: int| 0 <= a < after.len() && #[trigger] origin[a] == j;
                    assert(after[a].0@ == k);
                }
            }
            assert forall|k: Seq<u8>| entries_map(after).contains_key(k) implies entries_map(
                after,
            )[k] == target[k] by {
                let a = index_of(after, k);
                lemma_entry_at(after, a);
                lemma_entry_at(before, origin[a]);
            }
            assert(entries_map(after) =~= target);
        }
        self.entries = kept;
    }
}

} // verus!
