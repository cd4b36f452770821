//! A small map keyed by event ID.
//!
//! The entries are kept in a vector in which no key occurs twice; seen from
//! outside a [`StreamMap`] is a mathematical map, and the order in which its
//! entries come out is left open.
use vstd::prelude::*;

verus! {

/// Some entry of `entries` has the key `key`.
spec fn holds<V>(entries: Seq<(String, V)>, key: Seq<char>) -> bool {
    exists|i: int| 0 <= i < entries.len() && (#[trigger] entries[i]).0@ == key
}

/// Where the entry with the key `key` stands.
spec fn position<V>(entries: Seq<(String, V)>, key: Seq<char>) -> int {
    choose|i: int| 0 <= i < entries.len() && (#[trigger] entries[i]).0@ == key
}

/// No key occurs twice in `entries`.
spec fn distinct<V>(entries: Seq<(String, V)>) -> bool {
    forall|i: int, j: int|
        0 <= i < j < entries.len() ==> (#[trigger] entries[i]).0@ != (#[trigger] entries[j]).0@
}

/// The map that `entries` stands for.
spec fn contents<V>(entries: Seq<(String, V)>) -> Map<Seq<char>, V> {
    Map::new(|key: Seq<char>| holds(entries, key), |key: Seq<char>| entries[position(entries, key)].1)
}

/// The entries of a vector, with each key taken by its characters.
pub open spec fn keyed<V>(entries: Seq<(String, V)>) -> Seq<(Seq<char>, V)> {
    Seq::new(entries.len(), |i: int| (entries[i].0@, entries[i].1))
}

/// No key occurs twice in `list`.
pub open spec fn distinct_keys<V>(list: Seq<(Seq<char>, V)>) -> bool {
    forall|i: int, j: int|
        0 <= i < j < list.len() ==> (#[trigger] list[i]).0 != (#[trigger] list[j]).0
}

/// `list` names every entry of `map` exactly once, and nothing else.
pub open spec fn lists<V>(list: Seq<(Seq<char>, V)>, map: Map<Seq<char>, V>) -> bool {
    &&& forall|i: int|
        0 <= i < list.len() ==> map.contains_key((#[trigger] list[i]).0) && map[list[i].0]
            == list[i].1
    &&& forall|key: Seq<char>| #[trigger]
        map.contains_key(key) ==> exists|i: int| 0 <= i < list.len() && (#[trigger] list[i]).0 == key
    &&& distinct_keys(list)
}

/// The keys that occur in `list`.
pub open spec fn keys<V>(list: Seq<(Seq<char>, V)>) -> Set<Seq<char>> {
    Set::new(|key: Seq<char>| exists|i: int| 0 <= i < list.len() && (#[trigger] list[i]).0 == key)
}

/// The keys of entries are the characters of their first parts.
proof fn lemma_keyed_keys<V>(entries: Seq<(String, V)>)
    ensures
        forall|key: Seq<char>| #[trigger]
            keys(keyed(entries)).contains(key) <==> exists|i: int|
                0 <= i < entries.len() && (#[trigger] entries[i]).0@ == key,
{
    assert forall|key: Seq<char>| #[trigger] keys(keyed(entries)).contains(key) <==> exists|i: int|
        0 <= i < entries.len() && (#[trigger] entries[i]).0@ == key by {
        if exists|i: int| 0 <= i < entries.len() && (#[trigger] entries[i]).0@ == key {
            let i = choose|i: int| 0 <= i < entries.len() && (#[trigger] entries[i]).0@ == key;
            assert(keyed(entries)[i].0 == key);
        }
        if keys(keyed(entries)).contains(key) {
            let i = choose|i: int|
                0 <= i < keyed(entries).len() && (#[trigger] keyed(entries)[i]).0 == key;
            assert(entries[i].0@ == key);
        }
    }
}

/// Whether some entry of `entries` has the key `key`.
fn has_key<V>(entries: &Vec<(String, V)>, key: &String) -> (found: bool)
    ensures
        found == keys(keyed(entries@)).contains(key@),
{
    let ghost list = keyed(entries@);
    let mut i: usize = 0;
    while i < entries.len()
        invariant
            i <= entries@.len(),
            list == keyed(entries@),
            forall|j: int| 0 <= j < i ==> (#[trigger] list[j]).0 != key@,
        decreases entries@.len() - i,
    {
        if entries[i].0 == *key {
            assert(list[i as int].0 == key@);
            return true;
        }
        i += 1;
    }
    false
}

/// The map that distinct entries stand for takes the key of each to its value.
proof fn lemma_contents_at<V>(entries: Seq<(String, V)>, i: int)
    requires
        distinct(entries),
        0 <= i < entries.len(),
    ensures
        contents(entries).contains_key(entries[i].0@),
        contents(entries)[entries[i].0@] == entries[i].1,
{
    let p = position(entries, entries[i].0@);
    assert(holds(entries, entries[i].0@));
    assert(0 <= p < entries.len() && entries[p].0@ == entries[i].0@);
    assert(p == i);
}

/// The entries list the map that they stand for.
proof fn lemma_entries_list_contents<V>(entries: Seq<(String, V)>)
    requires
        distinct(entries),
    ensures
        lists(keyed(entries), contents(entries)),
{
    let list = keyed(entries);
    let map = contents(entries);
    assert forall|i: int| 0 <= i < list.len() implies map.contains_key((#[trigger] list[i]).0)
        && map[list[i].0] == list[i].1 by {
        lemma_contents_at(entries, i);
    }
    assert forall|key: Seq<char>| #[trigger] map.contains_key(key) implies exists|i: int|
        0 <= i < list.len() && (#[trigger] list[i]).0 == key by {
        let p = position(entries, key);
        assert(list[p].0 == key);
    }
}

/// A map from event IDs to values.
#[derive(Debug)]
pub struct StreamMap<V> {
    entries: Vec<(String, V)>,
}

impl<V> View for StreamMap<V> {
    type V = Map<Seq<char>, V>;

    closed spec fn view(&self) -> Map<Seq<char>, V> {
        contents(self.entries@)
    }
}

impl<V> StreamMap<V> {
    #[verifier::type_invariant]
    spec fn inv(self) -> bool {
        distinct(self.entries@)
    }

    /// The empty map.
    pub fn new() -> (map: Self)
        ensures
            map@ == Map::<Seq<char>, V>::empty(),
    {
        let map = StreamMap { entries: Vec::new() };
        assert(map@ =~= Map::<Seq<char>, V>::empty());
        map
    }

    /// Where the entry with the key `key` stands, if there is one.
    fn find(&self, key: &String) -> (found: Option<usize>)
        ensures
            match found {
                Some(i) => i < self.entries@.len() && self.entries@[i as int].0@ == key@,
                None => !self@.contains_key(key@),
            },
    {
        let mut i: usize = 0;
        while i < self.entries.len()
            invariant
                i <= self.entries@.len(),
                forall|j: int| 0 <= j < i ==> (#[trigger] self.entries@[j]).0@ != key@,
            decreases self.entries@.len() - i,
        {
            if self.entries[i].0 == *key {
                return Some(i);
            }
            i += 1;
        }
        None
    }

    /// Whether the map has an entry with the key `key`.
    pub fn contains_key(&self, key: &String) -> (found: bool)
        ensures
            found == self@.contains_key(key@),
    {
        proof {
            use_type_invariant(self);
        }
        match self.find(key) {
            Some(i) => {
                proof {
                    lemma_contents_at(self.entries@, i as int);
                }
                true
            },
            None => false,
        }
    }

    /// Maps `key` to `value`, in place of what it was mapped to before.
    pub fn insert(&mut self, key: String, value: V)
        ensures
            final(self)@ == old(self)@.insert(key@, value),
    {
        let _replaced = self.remove(&key);
        proof {
            use_type_invariant(&*self);
        }
        let ghost rest = self.entries@;
        let mut entries: Vec<(String, V)> = Vec::new();
        std::mem::swap(&mut entries, &mut self.entries);
        entries.push((key, value));
        proof {
            assert forall|i: int| 0 <= i < rest.len() implies (#[trigger] rest[i]).0@ != key@ by {
                lemma_contents_at(rest, i);
            }
            assert(distinct(entries@));
            assert forall|k: Seq<char>| holds(entries@, k) == (k == key@ || holds(rest, k)) by {
                if holds(rest, k) {
                    let p = position(rest, k);
                    assert(entries@[p].0@ == k);
                }
                assert(entries@[rest.len() as int].0@ == key@);
            }
            assert forall|k: Seq<char>| #[trigger] contents(entries@).contains_key(k) implies contents(
                entries@,
            )[k] == contents(rest).insert(key@, value)[k] by {
                if k == key@ {
                    lemma_contents_at(entries@, rest.len() as int);
                } else {
                    let p = position(rest, k);
                    assert(entries@[p] == rest[p]);
                    lemma_contents_at(entries@, p);
                }
            }
            assert(contents(entries@) =~= contents(rest).insert(key@, value));
            assert(contents(rest).insert(key@, value) =~= old(self)@.insert(key@, value));
        }
        self.entries = entries;
    }

    /// Takes the entry with the key `key` out of the map and returns its value.
    pub fn remove(&mut self, key: &String) -> (removed: Option<V>)
        ensures
            final(self)@ == old(self)@.remove(key@),
            removed == old(self)@.get(key@),
    {
        proof {
            use_type_invariant(&*self);
        }
        match self.find(key) {
            Some(i) => {
                let ghost before = self.entries@;
                let mut entries: Vec<(String, V)> = Vec::new();
                std::mem::swap(&mut entries, &mut self.entries);
                let (_key, value) = entries.swap_remove(i);
                proof {
                    lemma_contents_at(before, i as int);
                    assert forall|k: Seq<char>|
                        holds(entries@, k) == (k != key@ && holds(before, k)) by {
                        if holds(before, k) && k != key@ {
                            let p = position(before, k);
                            if p == before.len() - 1 {
                                assert(entries@[i as int].0@ == k);
                            } else {
                                assert(entries@[p].0@ == k);
                            }
                        }
                        if holds(entries@, k) {
                            let p = position(entries@, k);
                            if p == i {
                                assert(before[before.len() - 1].0@ == k);
                            } else {
                                assert(before[p].0@ == k);
                            }
                        }
                    }
                    assert forall|k: Seq<char>| #[trigger]
                        contents(entries@).contains_key(k) implies contents(entries@)[k] == contents(
                        before,
                    )[k] by {
                        let p = position(entries@, k);
                        if p == i {
                            lemma_contents_at(before, before.len() - 1);
                        } else {
                            lemma_contents_at(before, p);
                        }
                    }
                    assert(contents(entries@) =~= contents(before).remove(key@));
                }
                self.entries = entries;
                Some(value)
            },
            None => {
                assert(self@ =~= old(self)@.remove(key@));
                None
            },
        }
    }

    /// Keeps the entries whose key occurs in `kept`, and hands out the others.
    pub fn split_off<W>(&mut self, kept: &Vec<(String, W)>) -> (others: Vec<(String, V)>)
        ensures
            final(self)@ == old(self)@.restrict(keys(keyed(kept@))),
            lists(keyed(others@), old(self)@.remove_keys(keys(keyed(kept@)))),
            forall|key: Seq<char>| #[trigger]
                final(self)@.contains_key(key) <==> old(self)@.contains_key(key) && exists|i: int|
                    0 <= i < kept@.len() && (#[trigger] kept@[i]).0@ == key,
            forall|key: Seq<char>| #[trigger]
                final(self)@.contains_key(key) ==> final(self)@[key] == old(self)@[key],
            forall|i: int|
                0 <= i < others@.len() ==> {
                    &&& old(self)@.contains_pair((#[trigger] others@[i]).0@, others@[i].1)
                    &&& !final(self)@.contains_key(others@[i].0@)
                },
            forall|key: Seq<char>| #[trigger]
                old(self)@.contains_key(key) && !final(self)@.contains_key(key) ==> exists|i: int|
                    0 <= i < others@.len() && (#[trigger] others@[i]).0@ == key,
            forall|i: int, j: int|
                0 <= i < j < others@.len() ==> (#[trigger] others@[i]).0@ != (
                #[trigger] others@[j]).0@,
    {
        let mut others: Vec<(String, V)> = Vec::new();
        let mut rest: Vec<(String, V)> = Vec::new();
        let mut entries: Vec<(String, V)> = Vec::new();
        proof {
            use_type_invariant(&*self);
        }
        std::mem::swap(&mut entries, &mut self.entries);
        let ghost before = entries@;
        let ghost wanted = keys(keyed(kept@));
        while entries.len() > 0
            invariant
                distinct(before),
                wanted == keys(keyed(kept@)),
                entries@ == before.take(entries@.len() as int),
                entries@.len() <= before.len(),
                distinct(rest@),
                distinct(others@),
                forall|i: int|
                    0 <= i < rest@.len() ==> wanted.contains((#[trigger] rest@[i]).0@)
                        && before.skip(entries@.len() as int).contains(rest@[i]),
                forall|i: int|
                    0 <= i < others@.len() ==> !wanted.contains((#[trigger] others@[i]).0@)
                        && before.skip(entries@.len() as int).contains(others@[i]),
                forall|i: int|
                    entries@.len() <= i < before.len() ==> if wanted.contains(
                        (#[trigger] before[i]).0@,
                    ) {
                        rest@.contains(before[i])
                    } else {
                        others@.contains(before[i])
                    },
            decreases entries@.len(),
        {
            let ghost n = entries@.len() as int;
            let ghost rest0 = rest@;
            let ghost others0 = others@;
            match entries.pop() {
                Some(entry) => {
                    proof {
                        lemma_skip_grows(before, n);
                        assert(entry == before[n - 1]);
                        assert forall|i: int| 0 <= i < rest0.len() implies (#[trigger] rest0[i]).0@
                            != entry.0@ by {
                            lemma_skip_index(before, n, rest0[i]);
                        }
                        assert forall|i: int| 0 <= i < others0.len() implies (
                        #[trigger] others0[i]).0@ != entry.0@ by {
                            lemma_skip_index(before, n, others0[i]);
                        }
                    }
                    if has_key(kept, &entry.0) {
                        rest.push(entry);
                        proof {
                            lemma_push_contains(rest0, entry);
                        }
                    } else {
                        others.push(entry);
                        proof {
                            lemma_push_contains(others0, entry);
                        }
                    }
                },
                None => {},
            }
        }
        proof {
            assert(before.skip(0) =~= before);
            lemma_entries_list_contents(others@);
            lemma_same_entries(before, rest@, |k: Seq<char>| wanted.contains(k));
            lemma_same_entries(before, others@, |k: Seq<char>| !wanted.contains(k));
            assert(contents(rest@) =~= contents(before).restrict(wanted));
            assert(contents(others@) =~= contents(before).remove_keys(wanted));
            lemma_keyed_keys(kept@);
        }
        self.entries = rest;
        others
    }

    /// Leaves the map empty and hands out what it held.
    pub fn take(&mut self) -> (entries: Vec<(String, V)>)
        ensures
            final(self)@ == Map::<Seq<char>, V>::empty(),
            lists(keyed(entries@), old(self)@),
            forall|i: int|
                0 <= i < entries@.len() ==> old(self)@.contains_pair(
                    (#[trigger] entries@[i]).0@,
                    entries@[i].1,
                ),
            forall|key: Seq<char>| #[trigger]
                old(self)@.contains_key(key) ==> exists|i: int|
                    0 <= i < entries@.len() && (#[trigger] entries@[i]).0@ == key,
            forall|i: int, j: int|
                0 <= i < j < entries@.len() ==> (#[trigger] entries@[i]).0@ != (
                #[trigger] entries@[j]).0@,
    {
        proof {
            use_type_invariant(&*self);
        }
        let mut entries: Vec<(String, V)> = Vec::new();
        std::mem::swap(&mut entries, &mut self.entries);
        proof {
            lemma_entries_list_contents(entries@);
            assert(self@ =~= Map::<Seq<char>, V>::empty());
        }
        entries
    }
}

/// The keys of a list are those of the map that it lists.
pub(crate) proof fn lemma_lists_keys<V>(list: Seq<(Seq<char>, V)>, map: Map<Seq<char>, V>)
    requires
        lists(list, map),
    ensures
        keys(list) == map.dom(),
{
    assert forall|key: Seq<char>| keys(list).contains(key) == map.dom().contains(key) by {
        if map.contains_key(key) {
            let i = choose|i: int| 0 <= i < list.len() && (#[trigger] list[i]).0 == key;
        }
    }
    assert(keys(list) =~= map.dom());
}

/// Taking the last entry off a list of distinct keys takes off its key, and no
/// other.
pub(crate) proof fn lemma_drop_last_keys<V>(list: Seq<(Seq<char>, V)>)
    requires
        list.len() > 0,
        distinct_keys(list),
    ensures
        keys(list).contains(list.last().0),
        !keys(list.drop_last()).contains(list.last().0),
        keys(list.drop_last()) == keys(list).remove(list.last().0),
{
    let rest = list.drop_last();
    let n = rest.len() as int;
    assert(list[n] == list.last());
    assert forall|key: Seq<char>| keys(rest).contains(key) == keys(list).remove(
        list.last().0,
    ).contains(key) by {
        if keys(rest).contains(key) {
            let i = choose|i: int| 0 <= i < rest.len() && (#[trigger] rest[i]).0 == key;
            assert(list[i].0 == key);
        }
        if keys(list).remove(list.last().0).contains(key) {
            let i = choose|i: int| 0 <= i < list.len() && (#[trigger] list[i]).0 == key;
            assert(rest[i].0 == key);
        }
    }
    assert(keys(rest) =~= keys(list).remove(list.last().0));
}

/// Moving the cut of `skip` one place down adds one element.
proof fn lemma_skip_grows<T>(s: Seq<T>, n: int)
    requires
        0 < n <= s.len(),
    ensures
        s.skip(n - 1).contains(s[n - 1]),
        forall|x: T| #[trigger] s.skip(n).contains(x) ==> s.skip(n - 1).contains(x),
{
    assert(s.skip(n - 1)[0] == s[n - 1]);
    assert forall|x: T| #[trigger] s.skip(n).contains(x) implies s.skip(n - 1).contains(x) by {
        let i = choose|i: int| 0 <= i < s.skip(n).len() && s.skip(n)[i] == x;
        assert(s.skip(n - 1)[i + 1] == x);
    }
}

/// What stands behind the cut of a list of distinct keys does not have the key
/// that stands before it.
proof fn lemma_skip_index<V>(s: Seq<(String, V)>, n: int, x: (String, V))
    requires
        distinct(s),
        0 < n <= s.len(),
        s.skip(n).contains(x),
    ensures
        x.0@ != s[n - 1].0@,
{
    let i = choose|i: int| 0 <= i < s.skip(n).len() && s.skip(n)[i] == x;
    assert(s[n + i] == x);
}

/// A pushed element is contained, and so is all that was there before.
proof fn lemma_push_contains<T>(s: Seq<T>, x: T)
    ensures
        s.push(x).contains(x),
        forall|y: T| #[trigger] s.contains(y) ==> s.push(x).contains(y),
{
    assert(s.push(x)[s.len() as int] == x);
    assert forall|y: T| #[trigger] s.contains(y) implies s.push(x).contains(y) by {
        let i = choose|i: int| 0 <= i < s.len() && s[i] == y;
        assert(s.push(x)[i] == y);
    }
}

/// A selection of the entries of `all`, made by key, stands for the map that
/// the same selection makes of what `all` stands for.
proof fn lemma_same_entries<V>(
    all: Seq<(String, V)>,
    part: Seq<(String, V)>,
    chosen: spec_fn(Seq<char>) -> bool,
)
    requires
        distinct(all),
        distinct(part),
        forall|i: int| 0 <= i < part.len() ==> chosen((#[trigger] part[i]).0@) && all.contains(part[i]),
        forall|i: int|
            0 <= i < all.len() && chosen((#[trigger] all[i]).0@) ==> part.contains(all[i]),
    ensures
        forall|k: Seq<char>| #[trigger]
            contents(part).contains_key(k) <==> contents(all).contains_key(k) && chosen(k),
        forall|k: Seq<char>| #[trigger]
            contents(part).contains_key(k) ==> contents(part)[k] == contents(all)[k],
{
    assert forall|k: Seq<char>| #[trigger] contents(part).contains_key(k) implies contents(
        all,
    ).contains_key(k) && chosen(k) && contents(part)[k] == contents(all)[k] by {
        let p = position(part, k);
        let i = choose|i: int| 0 <= i < all.len() && all[i] == part[p];
        lemma_contents_at(all, i);
    }
    assert forall|k: Seq<char>|
        contents(all).contains_key(k) && chosen(k) implies #[trigger] contents(part).contains_key(
        k,
    ) by {
        let i = position(all, k);
        assert(part.contains(all[i]));
        let p = choose|p: int| 0 <= p < part.len() && part[p] == all[i];
        lemma_contents_at(part, p);
    }
}

} // verus!
