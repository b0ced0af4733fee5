//! Collections keyed by an address.
//!
//! They hold no key twice. The order in which they are walked carries no meaning.
//!
//! They are lists: nothing can be proved of the maps and sets of std with an address as the key,
//! since their specifications speak only of keys whose hash or order is a known one, such as that
//! of an integer.

use vstd::prelude::*;

use crate::pubkey::Pubkey;

verus! {

// ── Map ──────────────────────────────────────────────────────────────────────

/// A map from addresses.
#[derive(Debug)]
pub struct KeyMap<V> {
    entries: Vec<(Pubkey, V)>,
}

/// The map that a list of entries stands for.
pub open spec fn map_of<V>(entries: Seq<(Pubkey, V)>) -> Map<Pubkey, V>
    decreases entries.len(),
{
    if entries.len() == 0 {
        Map::empty()
    } else {
        map_of(entries.drop_last()).insert(entries.last().0, entries.last().1)
    }
}

/// The map with each of some keys given the same value.
pub open spec fn with_all<V>(map: Map<Pubkey, V>, keys: Seq<Pubkey>, value: V) -> Map<Pubkey, V> {
    Map::new(
        |k: Pubkey| keys.contains(k) || map.contains_key(k),
        |k: Pubkey|
            if keys.contains(k) {
                value
            } else {
                map[k]
            },
    )
}

/// No two entries have the same key.
pub open spec fn distinct_keys<V>(entries: Seq<(Pubkey, V)>) -> bool {
    forall|i: int, j: int|
        0 <= i < j < entries.len() ==> (#[trigger] entries[i]).0 != (#[trigger] entries[j]).0
}

/// An entry of a list with distinct keys is an entry of the map.
proof fn lemma_entry_in_map<V>(entries: Seq<(Pubkey, V)>, i: int)
    requires
        distinct_keys(entries),
        0 <= i < entries.len(),
    ensures
        map_of(entries).contains_key(entries[i].0),
        map_of(entries)[entries[i].0] == entries[i].1,
    decreases entries.len(),
{
    if i < entries.len() - 1 {
        lemma_entry_in_map(entries.drop_last(), i);
        assert(entries.drop_last()[i] == entries[i]);
        assert(entries[i].0 != entries[entries.len() - 1].0);
    }
}

/// A key of the map is that of an entry.
proof fn lemma_key_has_entry<V>(entries: Seq<(Pubkey, V)>, key: Pubkey)
    requires
        map_of(entries).contains_key(key),
    ensures
        exists|i: int| 0 <= i < entries.len() && (#[trigger] entries[i]).0 == key,
    decreases entries.len(),
{
    if entries.last().0 == key {
        assert(entries[entries.len() - 1].0 == key);
    } else {
        lemma_key_has_entry(entries.drop_last(), key);
        let i = choose|i: int|
            0 <= i < entries.drop_last().len() && (#[trigger] entries.drop_last()[i]).0 == key;
        assert(entries[i].0 == key);
    }
}

/// The map has as many keys as there are entries.
proof fn lemma_map_len<V>(entries: Seq<(Pubkey, V)>)
    requires
        distinct_keys(entries),
    ensures
        map_of(entries).dom().finite(),
        map_of(entries).len() == entries.len(),
    decreases entries.len(),
{
    if entries.len() > 0 {
        let front = entries.drop_last();
        lemma_map_len(front);
        if map_of(front).contains_key(entries.last().0) {
            lemma_key_has_entry(front, entries.last().0);
            let i = choose|i: int|
                0 <= i < front.len() && (#[trigger] front[i]).0 == entries.last().0;
            assert(entries[i].0 == entries[entries.len() - 1].0);
            assert(false);
        }
    }
}

/// Two lists with distinct keys that hold the same entries stand for the same map.
proof fn lemma_map_determined<V>(entries: Seq<(Pubkey, V)>, m: Map<Pubkey, V>)
    requires
        distinct_keys(entries),
        forall|i: int|
            0 <= i < entries.len() ==> m.contains_key((#[trigger] entries[i]).0) && m[entries[i].0]
                == entries[i].1,
        forall|k: Pubkey|
            m.contains_key(k) ==> exists|i: int|
                0 <= i < entries.len() && (#[trigger] entries[i]).0 == k,
    ensures
        map_of(entries) == m,
{
    assert forall|k: Pubkey| map_of(entries).contains_key(k) <==> m.contains_key(k) by {
        if map_of(entries).contains_key(k) {
            lemma_key_has_entry(entries, k);
        }
        if m.contains_key(k) {
            let i = choose|i: int| 0 <= i < entries.len() && (#[trigger] entries[i]).0 == k;
            lemma_entry_in_map(entries, i);
        }
    }
    assert forall|k: Pubkey| m.contains_key(k) implies map_of(entries)[k] == m[k] by {
        let i = choose|i: int| 0 <= i < entries.len() && (#[trigger] entries[i]).0 == k;
        lemma_entry_in_map(entries, i);
    }
    assert(map_of(entries) =~= m);
}

impl<V> View for KeyMap<V> {
    type V = Map<Pubkey, V>;

    closed spec fn view(&self) -> Map<Pubkey, V> {
        map_of(self.entries@)
    }
}

impl<V> KeyMap<V> {
    /// No key stands in the map twice.
    pub closed spec fn wf(&self) -> bool {
        distinct_keys(self.entries@)
    }

    /// The entries in the order in which the map is walked.
    pub closed spec fn pairs(&self) -> Seq<(Pubkey, V)> {
        self.entries@
    }

    /// The walk meets each entry of the map, and each once.
    pub proof fn lemma_pairs(&self)
        requires
            self.wf(),
        ensures
            self@.dom().finite(),
            self.pairs().len() == self@.len(),
            distinct_keys(self.pairs()),
            forall|i: int|
                0 <= i < self.pairs().len() ==> self@.contains_key((#[trigger] self.pairs()[i]).0)
                    && self@[self.pairs()[i].0] == self.pairs()[i].1,
            forall|k: Pubkey| #[trigger]
                self@.contains_key(k) ==> exists|i: int|
                    0 <= i < self.pairs().len() && (#[trigger] self.pairs()[i]).0 == k,
    {
        lemma_map_len(self.entries@);
        assert forall|i: int| 0 <= i < self.pairs().len() implies self@.contains_key(
            (#[trigger] self.pairs()[i]).0,
        ) && self@[self.pairs()[i].0] == self.pairs()[i].1 by {
            lemma_entry_in_map(self.entries@, i);
        }
        assert forall|k: Pubkey| #[trigger] self@.contains_key(k) implies exists|i: int|
            0 <= i < self.pairs().len() && (#[trigger] self.pairs()[i]).0 == k by {
            lemma_key_has_entry(self.entries@, k);
            let i = choose|i: int|
                0 <= i < self.entries@.len() && (#[trigger] self.entries@[i]).0 == k;
            assert(self.pairs()[i].0 == k);
        }
    }

    /// An empty map.
    pub fn new() -> (m: KeyMap<V>)
        ensures
            m.wf(),
            m@ == Map::<Pubkey, V>::empty(),
    {
        KeyMap { entries: Vec::new() }
    }

    /// How many keys the map has.
    pub fn len(&self) -> (n: usize)
        requires
            self.wf(),
        ensures
            n == self@.len(),
            n == self.pairs().len(),
    {
        proof {
            self.lemma_pairs();
        }
        self.entries.len()
    }

    /// The `i`-th entry of the walk.
    pub fn entry(&self, i: usize) -> (e: (&Pubkey, &V))
        requires
            i < self.pairs().len(),
        ensures
            *e.0 == self.pairs()[i as int].0,
            *e.1 == self.pairs()[i as int].1,
    {
        (&self.entries[i].0, &self.entries[i].1)
    }

    fn position(&self, key: &Pubkey) -> (p: Option<usize>)
        requires
            self.wf(),
        ensures
            match p {
                Some(i) => i < self.entries@.len() && self.entries@[i as int].0 == *key
                    && self@.contains_key(*key) && self@[*key] == self.entries@[i as int].1,
                None => !self@.contains_key(*key),
            },
    {
        let mut i: usize = 0;
        while i < self.entries.len()
            invariant
                self.wf(),
                i <= self.entries@.len(),
                forall|j: int| 0 <= j < i ==> (#[trigger] self.entries@[j]).0 != *key,
            decreases self.entries@.len() - i,
        {
            if self.entries[i].0 == *key {
                proof {
                    lemma_entry_in_map(self.entries@, i as int);
                }
                return Some(i);
            }
            i += 1;
        }
        proof {
            if self@.contains_key(*key) {
                lemma_key_has_entry(self.entries@, *key);
            }
        }
        None
    }

    /// The value of a key.
    pub fn get(&self, key: &Pubkey) -> (v: Option<&V>)
        requires
            self.wf(),
        ensures
            match v {
                Some(v) => self@.contains_key(*key) && *v == self@[*key],
                None => !self@.contains_key(*key),
            },
    {
        match self.position(key) {
            Some(i) => Some(&self.entries[i].1),
            None => None,
        }
    }

    /// Whether the map has a key.
    pub fn contains_key(&self, key: &Pubkey) -> (found: bool)
        requires
            self.wf(),
        ensures
            found == self@.contains_key(*key),
    {
        self.position(key).is_some()
    }

    /// Gives a key a value, in place of the one that it had.
    pub fn insert(&mut self, key: Pubkey, value: V)
        requires
            old(self).wf(),
        ensures
            final(self).wf(),
            final(self)@ == old(self)@.insert(key, value),
    {
        self.remove(&key);
        proof {
            if exists|i: int| 0 <= i < self.entries@.len() && (#[trigger] self.entries@[i]).0 == key {
                let i = choose|i: int|
                    0 <= i < self.entries@.len() && (#[trigger] self.entries@[i]).0 == key;
                lemma_entry_in_map(self.entries@, i);
            }
        }
        let ghost before = self.entries@;
        self.entries.push((key, value));
        proof {
            assert(self.entries@.drop_last() =~= before);
            assert(self@ =~= old(self)@.insert(key, value));
        }
    }

    /// Gives each of some keys the same value, in place of the one that it had.
    pub fn insert_all(&mut self, keys: &Vec<Pubkey>, value: V) where V: Copy
        requires
            old(self).wf(),
        ensures
            final(self).wf(),
            final(self)@ == with_all(old(self)@, keys@, value),
    {
        let mut i: usize = 0;
        assert(self@ =~= with_all(old(self)@, keys@.take(0), value));
        while i < keys.len()
            invariant
                self.wf(),
                i <= keys@.len(),
                self@ == with_all(old(self)@, keys@.take(i as int), value),
            decreases keys@.len() - i,
        {
            self.insert(keys[i], value);
            proof {
                let done = keys@.take(i as int);
                let next = keys@.take(i + 1);
                assert(next[i as int] == keys@[i as int]);
                assert forall|k: Pubkey| next.contains(k) <==> done.contains(k) || k
                    == keys@[i as int] by {
                    if done.contains(k) {
                        let j = choose|j: int| 0 <= j < done.len() && done[j] == k;
                        assert(next[j] == k);
                    }
                    if next.contains(k) && k != keys@[i as int] {
                        let j = choose|j: int| 0 <= j < next.len() && next[j] == k;
                        assert(done[j] == k);
                    }
                }
                assert(self@ =~= with_all(old(self)@, next, value));
            }
            i += 1;
        }
        assert(keys@.take(i as int) =~= keys@);
    }

    /// Takes a key out of the map, and gives back the value that it had.
    pub fn take(&mut self, key: &Pubkey) -> (v: Option<V>)
        requires
            old(self).wf(),
        ensures
            final(self).wf(),
            final(self)@ == old(self)@.remove(*key),
            match v {
                Some(v) => old(self)@.contains_key(*key) && v == old(self)@[*key],
                None => !old(self)@.contains_key(*key),
            },
    {
        match self.position(key) {
            Some(i) => {
                let ghost before = self.entries@;
                let (_, value) = self.entries.remove(i);
                proof {
                    let after = self.entries@;
                    assert(after =~= before.remove(i as int));
                    let m = map_of(before).remove(*key);
                    assert forall|j: int| 0 <= j < after.len() implies m.contains_key(
                        (#[trigger] after[j]).0,
                    ) && m[after[j].0] == after[j].1 by {
                        let b = if j < i {
                            j
                        } else {
                            j + 1
                        };
                        assert(after[j] == before[b]);
                        assert(before[b].0 != before[i as int].0);
                        lemma_entry_in_map(before, b);
                    }
                    assert forall|k: Pubkey| m.contains_key(k) implies exists|j: int|
                        0 <= j < after.len() && (#[trigger] after[j]).0 == k by {
                        lemma_key_has_entry(before, k);
                        let b = choose|b: int|
                            0 <= b < before.len() && (#[trigger] before[b]).0 == k;
                        let j = if b < i {
                            b
                        } else {
                            b - 1
                        };
                        assert(after[j] == before[b]);
                    }
                    assert(distinct_keys(after)) by {
                        assert forall|a: int, b: int| 0 <= a < b < after.len() implies (
                        #[trigger] after[a]).0 != (#[trigger] after[b]).0 by {
                            let a0 = if a < i {
                                a
                            } else {
                                a + 1
                            };
                            let b0 = if b < i {
                                b
                            } else {
                                b + 1
                            };
                            assert(after[a] == before[a0] && after[b] == before[b0]);
                            assert(before[a0].0 != before[b0].0);
                        }
                    }
                    lemma_map_determined(after, m);
                }
                Some(value)
            },
            None => {
                assert(self@.remove(*key) =~= self@);
                None
            },
        }
    }

    /// Takes a key out of the map.
    pub fn remove(&mut self, key: &Pubkey)
        requires
            old(self).wf(),
        ensures
            final(self).wf(),
            final(self)@ == old(self)@.remove(*key),
    {
        let _ = self.take(key);
    }

    /// Keeps the entries whose value `keep` accepts.
    pub fn retain<F: Fn(&V) -> bool>(&mut self, keep: F)
        requires
            old(self).wf(),
            forall|v: &V| keep.requires((v,)),
        ensures
            final(self).wf(),
            forall|k: Pubkey| #[trigger]
                final(self)@.contains_key(k) ==> old(self)@.contains_key(k) && final(self)@[k] == old(
                    self,
                )@[k] && keep.ensures((&old(self)@[k],), true),
            forall|k: Pubkey| #[trigger]
                old(self)@.contains_key(k) && !final(self)@.contains_key(k) ==> keep.ensures(
                    (&old(self)@[k],),
                    false,
                ),
    {
        let ghost before = self.entries@;
        let ghost mut origin: Seq<int> = Seq::empty();
        let mut kept: Vec<(Pubkey, V)> = Vec::new();
        let mut rest: Vec<(Pubkey, V)> = Vec::new();
        std::mem::swap(&mut rest, &mut self.entries);
        assert(rest@ =~= before.take(rest@.len() as int));
        while rest.len() > 0
            invariant
                rest@.len() <= before.len(),
                rest@ == before.take(rest@.len() as int),
                forall|v: &V| keep.requires((v,)),
                kept@.len() == origin.len(),
                forall|j: int|
                    0 <= j < kept@.len() ==> rest@.len() <= #[trigger] origin[j] < before.len()
                        && kept@[j] == before[origin[j]] && keep.ensures(
                        (&before[origin[j]].1,),
                        true,
                    ),
                forall|a: int, b: int|
                    0 <= a < b < origin.len() ==> #[trigger] origin[a] > #[trigger] origin[b],
                forall|b: int|
                    rest@.len() <= b < before.len() ==> origin.contains(b)
                        || #[trigger] keep.ensures((&before[b].1,), false),
            decreases rest@.len(),
        {
            let ghost at = rest@.len() - 1;
            let ghost old_origin = origin;
            if let Some(e) = rest.pop() {
                assert(e == before[at]);
                assert(rest@ =~= before.take(at));
                if keep(&e.1) {
                    kept.push(e);
                    proof {
                        origin = origin.push(at);
                        assert(origin[origin.len() - 1] == at);
                        assert forall|b: int| at <= b < before.len() implies origin.contains(b)
                            || #[trigger] keep.ensures((&before[b].1,), false) by {
                            if b > at && old_origin.contains(b) {
                                let a = choose|a: int|
                                    0 <= a < old_origin.len() && old_origin[a] == b;
                                assert(origin[a] == b);
                            }
                        }
                    }
                }
            }
        }
        self.entries = kept;
        proof {
            let after = self.entries@;
            assert(distinct_keys(after)) by {
                assert forall|a: int, b: int| 0 <= a < b < after.len() implies (
                #[trigger] after[a]).0 != (#[trigger] after[b]).0 by {
                    assert(origin[a] > origin[b]);
                    assert(before[origin[b]].0 != before[origin[a]].0);
                }
            }
            assert forall|k: Pubkey| #[trigger] self@.contains_key(k) implies old(
                self,
            )@.contains_key(k) && self@[k] == old(self)@[k] && keep.ensures(
                (&old(self)@[k],),
                true,
            ) by {
                lemma_key_has_entry(after, k);
                let j = choose|j: int| 0 <= j < after.len() && (#[trigger] after[j]).0 == k;
                lemma_entry_in_map(after, j);
                lemma_entry_in_map(before, origin[j]);
            }
            assert forall|k: Pubkey| #[trigger] old(self)@.contains_key(k) && !self@.contains_key(
                k,
            ) implies keep.ensures((&old(self)@[k],), false) by {
                lemma_key_has_entry(before, k);
                let b = choose|b: int| 0 <= b < before.len() && (#[trigger] before[b]).0 == k;
                lemma_entry_in_map(before, b);
                if origin.contains(b) {
                    let a = choose|a: int| 0 <= a < origin.len() && origin[a] == b;
                    lemma_entry_in_map(after, a);
                    assert(after[a].0 == k);
                }
                assert(keep.ensures((&before[b].1,), false));
            }
        }
    }
}

// ── Set ──────────────────────────────────────────────────────────────────────

/// A set of addresses.
#[derive(Debug)]
pub struct KeySet {
    keys: Vec<Pubkey>,
}

impl View for KeySet {
    type V = Set<Pubkey>;

    closed spec fn view(&self) -> Set<Pubkey> {
        self.keys@.to_set()
    }
}

impl KeySet {
    /// No key stands in the set twice.
    pub closed spec fn wf(&self) -> bool {
        self.keys@.no_duplicates()
    }

    /// An empty set.
    pub fn new() -> (s: KeySet)
        ensures
            s.wf(),
            s@ == Set::<Pubkey>::empty(),
    {
        let s = KeySet { keys: Vec::new() };
        assert(s@ =~= Set::<Pubkey>::empty());
        s
    }

    /// Whether the set holds a key.
    pub fn contains(&self, key: &Pubkey) -> (found: bool)
        ensures
            found == self@.contains(*key),
    {
        holds(&self.keys, key)
    }

    /// Adds a key, unless the set holds it already.
    pub fn insert(&mut self, key: Pubkey)
        requires
            old(self).wf(),
        ensures
            final(self).wf(),
            final(self)@ == old(self)@.insert(key),
    {
        if !holds(&self.keys, &key) {
            let ghost before = self.keys@;
            self.keys.push(key);
            proof {
                before.lemma_push_to_set_commute(key);
            }
        }
        assert(self@ =~= old(self)@.insert(key));
    }

    /// Adds each key of a list.
    pub fn insert_all(&mut self, keys: &Vec<Pubkey>)
        requires
            old(self).wf(),
        ensures
            final(self).wf(),
            final(self)@ == old(self)@.union(keys@.to_set()),
    {
        let mut i: usize = 0;
        assert(self@ =~= old(self)@.union(keys@.take(0).to_set()));
        while i < keys.len()
            invariant
                self.wf(),
                i <= keys@.len(),
                self@ == old(self)@.union(keys@.take(i as int).to_set()),
            decreases keys@.len() - i,
        {
            self.insert(keys[i]);
            proof {
                assert(keys@.take(i + 1) =~= keys@.take(i as int).push(keys@[i as int]));
                keys@.take(i as int).lemma_push_to_set_commute(keys@[i as int]);
            }
            i += 1;
            assert(self@ =~= old(self)@.union(keys@.take(i as int).to_set()));
        }
        assert(keys@.take(i as int) =~= keys@);
    }

    /// How many keys the set holds.
    pub fn len(&self) -> (n: usize)
        requires
            self.wf(),
        ensures
            self@.finite(),
            n == self@.len(),
    {
        proof {
            self.keys@.unique_seq_to_set();
        }
        self.keys.len()
    }

    /// The keys as a list, each once.
    pub fn to_vec(&self) -> (keys: Vec<Pubkey>)
        requires
            self.wf(),
        ensures
            keys@.no_duplicates(),
            keys@.to_set() == self@,
    {
        copy_keys(&self.keys)
    }
}

// ── Lists ────────────────────────────────────────────────────────────────────

/// Whether a list holds a key.
pub fn holds(keys: &Vec<Pubkey>, key: &Pubkey) -> (found: bool)
    ensures
        found == keys@.contains(*key),
{
    let mut i: usize = 0;
    while i < keys.len()
        invariant
            i <= keys@.len(),
            forall|j: int| 0 <= j < i ==> keys@[j] != *key,
        decreases keys@.len() - i,
    {
        if keys[i] == *key {
            assert(keys@[i as int] == *key);
            return true;
        }
        i += 1;
    }
    false
}

/// A copy of a list of keys.
pub fn copy_keys(keys: &Vec<Pubkey>) -> (r: Vec<Pubkey>)
    ensures
        r@ == keys@,
{
    copy_range(keys, 0, keys.len())
}

/// A copy of the keys from `from` to `to`.
pub fn copy_range(keys: &Vec<Pubkey>, from: usize, to: usize) -> (r: Vec<Pubkey>)
    requires
        from <= to <= keys@.len(),
    ensures
        r@ == keys@.subrange(from as int, to as int),
{
    let mut r: Vec<Pubkey> = Vec::new();
    let mut i: usize = from;
    while i < to
        invariant
            from <= i <= to <= keys@.len(),
            r@ == keys@.subrange(from as int, i as int),
        decreases to - i,
    {
        r.push(keys[i]);
        i += 1;
        assert(r@ =~= keys@.subrange(from as int, i as int));
    }
    r
}

// ── Chunks ───────────────────────────────────────────────────────────────────

/// The list, cut into chunks of `n`; the last one may be shorter.
pub open spec fn chunked<A>(s: Seq<A>, n: nat) -> Seq<Seq<A>>
    decreases s.len(),
{
    if s.len() == 0 || n == 0 {
        Seq::empty()
    } else if s.len() <= n {
        seq![s]
    } else {
        seq![s.take(n as int)] + chunked(s.skip(n as int), n)
    }
}

/// The keys that each list of a list of lists holds.
pub open spec fn key_views(lists: Seq<Vec<Pubkey>>) -> Seq<Seq<Pubkey>> {
    lists.map_values(|keys: Vec<Pubkey>| keys@)
}

/// The list, cut into chunks of `n`.
pub fn chunks(keys: &Vec<Pubkey>, n: usize) -> (r: Vec<Vec<Pubkey>>)
    requires
        n > 0,
    ensures
        key_views(r@) == chunked(keys@, n as nat),
{
    let mut r: Vec<Vec<Pubkey>> = Vec::new();
    let mut at: usize = 0;
    assert(keys@.skip(0) =~= keys@);
    assert(key_views(r@) + chunked(keys@.skip(0), n as nat) =~= chunked(keys@, n as nat));
    while at < keys.len()
        invariant
            n > 0,
            at <= keys@.len(),
            key_views(r@) + chunked(keys@.skip(at as int), n as nat) == chunked(
                keys@,
                n as nat,
            ),
        decreases keys@.len() - at,
    {
        let ghost before = r@;
        let ghost rest = keys@.skip(at as int);
        let left: usize = keys.len() - at;
        let len: usize = if left < n {
            left
        } else {
            n
        };
        let chunk = copy_range(keys, at, at + len);
        proof {
            assert(chunk@ =~= rest.take(len as int));
            if left <= n {
                assert(rest.take(len as int) =~= rest);
                assert(chunked(keys@.skip(at + len), n as nat) =~= Seq::empty());
            } else {
                assert(rest.skip(n as int) =~= keys@.skip(at + len));
            }
        }
        r.push(chunk);
        at += len;
        assert(key_views(r@) =~= key_views(before).push(chunk@));
        assert(key_views(r@) + chunked(keys@.skip(at as int), n as nat) =~= chunked(
            keys@,
            n as nat,
        ));
    }
    assert(keys@.skip(at as int) =~= Seq::empty());
    assert(key_views(r@) =~= chunked(keys@, n as nat));
    r
}

/// The chunks, one after the other, make the list again; none is empty, none is longer than `n`, and
/// only the last one is shorter.
pub proof fn law_chunks_cover_the_list<A>(s: Seq<A>, n: nat)
    requires
        n > 0,
    ensures
        chunked(s, n).flatten() == s,
        forall|i: int|
            0 <= i < chunked(s, n).len() ==> 0 < (#[trigger] chunked(s, n)[i]).len() <= n,
        forall|i: int|
            0 <= i < chunked(s, n).len() - 1 ==> (#[trigger] chunked(s, n)[i]).len() == n,
    decreases s.len(),
{
    if s.len() == 0 {
        assert(chunked(s, n).flatten() =~= s);
    } else if s.len() <= n {
        assert(chunked(s, n).drop_first() =~= Seq::empty());
        assert(chunked(s, n).drop_first().flatten() =~= Seq::empty());
        assert(chunked(s, n).flatten() =~= s);
    } else {
        let rest = s.skip(n as int);
        law_chunks_cover_the_list(rest, n);
        assert(chunked(s, n).drop_first() =~= chunked(rest, n));
        assert(chunked(s, n).first() == s.take(n as int));
        assert(chunked(s, n).flatten() =~= s);
        assert forall|i: int| 0 <= i < chunked(s, n).len() implies 0 < (#[trigger] chunked(
            s,
            n,
        )[i]).len() <= n && (i < chunked(s, n).len() - 1 ==> chunked(s, n)[i].len() == n) by {
            if i > 0 {
                assert(chunked(s, n)[i] == chunked(rest, n)[i - 1]);
            }
        }
    }
}

/// Each of the keys has the value, and every other key what it had.
pub proof fn law_all_keys_are_given_the_value<V>(
    map: Map<Pubkey, V>,
    keys: Seq<Pubkey>,
    value: V,
    k: Pubkey,
)
    ensures
        with_all(map, keys, value).get(k) == if keys.contains(k) {
            Some(value)
        } else {
            map.get(k)
        },
{
}

}
