//! An ordered map keyed by strings.
//!
//! Entries are kept in ascending order of their keys' UTF-8 bytes, which is
//! the order in which `str` values compare, so walking a map visits its keys
//! in sorted order and no key occurs twice.

use crate::text::lemma_encoding_injective;
use vstd::prelude::*;
use vstd::utf8::encode_utf8;

verus! {

/// How two byte strings compare from position `i` on, given that they agree
/// before it: negative, zero or positive as `a` sorts before, with or after
/// `b`.
pub open spec fn bytes_order_from(a: Seq<u8>, b: Seq<u8>, i: int) -> int
    decreases a.len() - i + 1,
{
    if i >= a.len() || i >= b.len() {
        a.len() - b.len()
    } else if a[i] != b[i] {
        a[i] - b[i]
    } else {
        bytes_order_from(a, b, i + 1)
    }
}

/// Whether key `a` sorts strictly before key `b`.
pub open spec fn key_before(a: Seq<char>, b: Seq<char>) -> bool {
    bytes_order_from(encode_utf8(a), encode_utf8(b), 0) < 0
}

/// Whether the keys of `entries` are in strictly ascending order.
pub open spec fn strictly_ordered<V>(entries: Seq<(Seq<char>, V)>) -> bool {
    forall|i: int, j: int|
        0 <= i < j < entries.len() ==> key_before(#[trigger] entries[i].0, #[trigger] entries[j].0)
}

/// The position of the first entry at or after `from` whose key is `key`.
pub open spec fn position_from<V>(entries: Seq<(Seq<char>, V)>, key: Seq<char>, from: int) -> Option<
    int,
>
    decreases entries.len() - from,
{
    if from < 0 || from >= entries.len() {
        None
    } else if entries[from].0 == key {
        Some(from)
    } else {
        position_from(entries, key, from + 1)
    }
}

/// The value that `entries` holds for `key`, if any.
pub open spec fn lookup<V>(entries: Seq<(Seq<char>, V)>, key: Seq<char>) -> Option<V> {
    match position_from(entries, key, 0) {
        Some(i) => Some(entries[i].1),
        None => None,
    }
}

/// The first position at or after `from` whose key does not sort before
/// `key`, or the number of entries if there is none.
pub open spec fn rank_from<V>(entries: Seq<(Seq<char>, V)>, key: Seq<char>, from: int) -> int
    decreases entries.len() - from,
{
    if from < 0 || from >= entries.len() {
        entries.len() as int
    } else if key_before(entries[from].0, key) {
        rank_from(entries, key, from + 1)
    } else {
        from
    }
}

/// The entries once `value` is stored under `key`: in place of the value
/// that was there, or else at the key's place in key order.
pub open spec fn with_entry<V>(entries: Seq<(Seq<char>, V)>, key: Seq<char>, value: V) -> Seq<
    (Seq<char>, V),
> {
    match position_from(entries, key, 0) {
        Some(i) => entries.update(i, (key, value)),
        None => entries.insert(rank_from(entries, key, 0), (key, value)),
    }
}

/// What `position_from` finds holds the key, and nothing before it does.
pub proof fn lemma_position_from<V>(entries: Seq<(Seq<char>, V)>, key: Seq<char>, from: int)
    requires
        0 <= from,
    ensures
        match position_from(entries, key, from) {
            Some(i) => from <= i < entries.len() && entries[i].0 == key && forall|j: int|
                from <= j < i ==> entries[j].0 != key,
            None => forall|j: int| from <= j < entries.len() ==> entries[j].0 != key,
        },
    decreases entries.len() - from,
{
    if from < entries.len() && entries[from].0 != key {
        lemma_position_from(entries, key, from + 1);
    }
}

/// Two byte strings that compare as equal from `i` on, and agree before `i`,
/// are the same.
proof fn lemma_order_zero(a: Seq<u8>, b: Seq<u8>, i: int)
    requires
        0 <= i,
        i <= a.len(),
        i <= b.len(),
        a.take(i) == b.take(i),
        bytes_order_from(a, b, i) == 0,
    ensures
        a == b,
    decreases a.len() - i + 1,
{
    if i >= a.len() || i >= b.len() {
        assert(a.take(i) =~= a);
        assert(b.take(i) =~= b);
    } else {
        assert(a.take(i + 1) =~= a.take(i).push(a[i]));
        assert(b.take(i + 1) =~= b.take(i).push(b[i]));
        lemma_order_zero(a, b, i + 1);
    }
}

/// A byte string compares as equal with itself.
proof fn lemma_order_reflexive(a: Seq<u8>, i: int)
    requires
        0 <= i,
    ensures
        bytes_order_from(a, a, i) == 0,
    decreases a.len() - i + 1,
{
    if i < a.len() {
        lemma_order_reflexive(a, i + 1);
    }
}

/// Swapping the operands flips the sign of the comparison.
proof fn lemma_order_antisymmetric(a: Seq<u8>, b: Seq<u8>, i: int)
    requires
        0 <= i,
    ensures
        bytes_order_from(a, b, i) == -bytes_order_from(b, a, i),
    decreases a.len() - i + 1,
{
    if i < a.len() && i < b.len() && a[i] == b[i] {
        lemma_order_antisymmetric(a, b, i + 1);
    }
}

/// The comparison is transitive.
proof fn lemma_order_transitive(a: Seq<u8>, b: Seq<u8>, c: Seq<u8>, i: int)
    requires
        0 <= i,
        bytes_order_from(a, b, i) < 0,
        bytes_order_from(b, c, i) < 0,
    ensures
        bytes_order_from(a, c, i) < 0,
    decreases a.len() - i + 1,
{
    if i < a.len() && i < b.len() && i < c.len() && a[i] == b[i] && b[i] == c[i] {
        lemma_order_transitive(a, b, c, i + 1);
    }
}

/// The key order is a strict total order: irreflexive, transitive, and any
/// two different keys are ordered one way or the other.
pub proof fn lemma_key_order(a: Seq<char>, b: Seq<char>, c: Seq<char>)
    ensures
        !key_before(a, a),
        key_before(a, b) && key_before(b, c) ==> key_before(a, c),
        a != b ==> (key_before(a, b) <==> !key_before(b, a)),
        a == b ==> !key_before(a, b),
{
    let x = encode_utf8(a);
    let y = encode_utf8(b);
    let z = encode_utf8(c);
    lemma_order_reflexive(x, 0);
    lemma_order_antisymmetric(x, y, 0);
    if key_before(a, b) && key_before(b, c) {
        lemma_order_transitive(x, y, z, 0);
    }
    if a != b && bytes_order_from(x, y, 0) == 0 {
        assert(x.take(0) =~= y.take(0));
        lemma_order_zero(x, y, 0);
        lemma_encoding_injective(a, b);
    }
}

/// Compares two keys: negative, zero or positive as `a` sorts before, is, or
/// sorts after `b`.
pub fn key_order(a: &str, b: &str) -> (r: i8)
    ensures
        r < 0 <==> key_before(a@, b@),
        r == 0 <==> a@ == b@,
        r > 0 <==> key_before(b@, a@),
{
    let x = a.as_bytes();
    let y = b.as_bytes();
    let mut i: usize = 0;
    while i < x.len() && i < y.len()
        invariant
            i <= x@.len(),
            i <= y@.len(),
            x@ == encode_utf8(a@),
            y@ == encode_utf8(b@),
            bytes_order_from(x@, y@, 0) == bytes_order_from(x@, y@, i as int),
        decreases x@.len() - i,
    {
        if x[i] < y[i] {
            proof {
                lemma_order_antisymmetric(x@, y@, 0);
                lemma_key_order(a@, b@, a@);
            }
            return -1;
        }
        if x[i] > y[i] {
            proof {
                lemma_order_antisymmetric(x@, y@, 0);
                lemma_key_order(a@, b@, a@);
            }
            return 1;
        }
        i += 1;
    }
    proof {
        lemma_order_antisymmetric(x@, y@, 0);
        lemma_key_order(a@, b@, a@);
    }
    if x.len() < y.len() {
        -1
    } else if x.len() > y.len() {
        1
    } else {
        0
    }
}

/// A map from string keys to values of type `V`, walked in key order.
#[derive(Debug)]
pub struct StrMap<V> {
    entries: Vec<(String, V)>,
}

impl<V> View for StrMap<V> {
    type V = Seq<(Seq<char>, V)>;

    /// The entries in the order in which the map is walked, each key by its
    /// characters.
    closed spec fn view(&self) -> Seq<(Seq<char>, V)> {
        keyed(self.entries@)
    }
}

/// Stored entries, each key by its characters.
spec fn keyed<V>(entries: Seq<(String, V)>) -> Seq<(Seq<char>, V)> {
    Seq::new(entries.len(), |i: int| (entries[i].0@, entries[i].1))
}

impl<V: DeepView> DeepView for StrMap<V> {
    type V = Seq<(Seq<char>, V::V)>;

    open spec fn deep_view(&self) -> Seq<(Seq<char>, V::V)> {
        let s = self@;
        Seq::new(s.len(), |i: int| (s[i].0, s[i].1.deep_view()))
    }
}

impl<V: Clone> Clone for StrMap<V> {
    /// A map with the same keys, each value cloned.
    fn clone(&self) -> (r: Self)
        ensures
            r@.len() == self@.len(),
            forall|i: int|
                0 <= i < self@.len() ==> r@[i].0 == self@[i].0 && cloned(
                    #[trigger] self@[i].1,
                    r@[i].1,
                ),
    {
        let mut entries: Vec<(String, V)> = Vec::new();
        let mut i: usize = 0;
        while i < self.entries.len()
            invariant
                i <= self.entries@.len(),
                entries@.len() == i,
                forall|j: int|
                    0 <= j < i ==> (#[trigger] entries@[j]).0@ == self.entries@[j].0@ && cloned(
                        self.entries@[j].1,
                        entries@[j].1,
                    ),
            decreases self.entries@.len() - i,
        {
            let key = self.entries[i].0.clone();
            let value = self.entries[i].1.clone();
            entries.push((key, value));
            i += 1;
        }
        proof {
            use_type_invariant(self);
            assert forall|a: int, b: int| 0 <= a < b < entries@.len() implies key_before(
                #[trigger] keyed(entries@)[a].0,
                #[trigger] keyed(entries@)[b].0,
            ) by {
                assert(key_before(self@[a].0, self@[b].0));
            }
        }
        StrMap { entries }
    }
}

impl<V> StrMap<V> {
    #[verifier::type_invariant]
    spec fn well_formed(self) -> bool {
        strictly_ordered(self@)
    }

    /// An empty map.
    pub fn new() -> (r: Self)
        ensures
            r@ == Seq::<(Seq<char>, V)>::empty(),
    {
        let r = StrMap { entries: Vec::new() };
        assert(r@ =~= Seq::<(Seq<char>, V)>::empty());
        r
    }

    /// The number of entries.
    pub fn len(&self) -> (n: usize)
        ensures
            n == self@.len(),
    {
        self.entries.len()
    }

    /// Whether the map holds no entry.
    pub fn is_empty(&self) -> (b: bool)
        ensures
            b == (self@.len() == 0),
    {
        self.entries.len() == 0
    }

    /// The `i`-th entry in key order, if there are that many.
    pub fn entry(&self, i: usize) -> (r: Option<(&String, &V)>)
        ensures
            strictly_ordered(self@),
            match r {
                Some((k, v)) => i < self@.len() && k@ == self@[i as int].0 && *v == self@[i as int].1,
                None => i >= self@.len(),
            },
    {
        proof {
            use_type_invariant(self);
        }
        if i < self.entries.len() {
            let e = &self.entries[i];
            Some((&e.0, &e.1))
        } else {
            None
        }
    }

    /// The value stored under `key`, if any.
    pub fn get(&self, key: &str) -> (r: Option<&V>)
        ensures
            match r {
                Some(v) => lookup(self@, key@) == Some(*v),
                None => lookup(self@, key@) is None,
            },
    {
        let mut i: usize = 0;
        while i < self.entries.len()
            invariant
                i <= self.entries@.len(),
                self@.len() == self.entries@.len(),
                position_from(self@, key@, 0) == position_from(self@, key@, i as int),
            decreases self.entries@.len() - i,
        {
            if key_order(self.entries[i].0.as_str(), key) == 0 {
                return Some(&self.entries[i].1);
            }
            i += 1;
        }
        None
    }

    /// Whether some value is stored under `key`.
    pub fn contains_key(&self, key: &str) -> (b: bool)
        ensures
            b == lookup(self@, key@).is_some(),
    {
        self.get(key).is_some()
    }
}

impl<V> StrMap<V> {
    /// Stores `value` under `key`. A value already stored under that key is
    /// replaced and handed back; otherwise the new entry takes its place in
    /// key order.
    pub fn insert(&mut self, key: String, value: V) -> (r: Option<V>)
        ensures
            strictly_ordered(final(self)@),
            final(self)@ == with_entry(old(self)@, key@, value),
            r == lookup(old(self)@, key@),
    {
        proof {
            use_type_invariant(&*self);
        }
        let ghost before = self@;
        let n: usize = self.entries.len();
        let mut i: usize = 0;
        let mut found: bool = false;
        while i < n
            invariant_except_break
                !found,
                position_from(before, key@, 0) == position_from(before, key@, i as int),
                rank_from(before, key@, 0) == rank_from(before, key@, i as int),
            invariant
                i <= n,
                n == self.entries@.len(),
                self@ == before,
                before.len() == n,
                strictly_ordered(before),
            ensures
                i <= n,
                n == self.entries@.len(),
                self@ == before,
                before.len() == n,
                found ==> i < n && position_from(before, key@, 0) == Some(i as int),
                !found ==> position_from(before, key@, 0) is None && rank_from(before, key@, 0)
                    == i,
            decreases n - i,
        {
            let o: i8 = key_order(self.entries[i].0.as_str(), key.as_str());
            assert(before[i as int].0 == self.entries@[i as int].0@);
            if o == 0 {
                found = true;
                break ;
            }
            if o > 0 {
                proof {
                    assert forall|j: int| i <= j < n implies before[j].0 != key@ by {
                        lemma_key_order(key@, before[i as int].0, before[j].0);
                        lemma_key_order(key@, before[j].0, key@);
                    }
                    lemma_position_from(before, key@, i as int);
                }
                break ;
            }
            proof {
                lemma_key_order(before[i as int].0, key@, key@);
            }
            i += 1;
        }
        let mut entries: Vec<(String, V)> = Vec::new();
        assert(keyed(entries@) =~= Seq::<(Seq<char>, V)>::empty());
        core::mem::swap(&mut self.entries, &mut entries);
        assert(keyed(entries@) == before);
        if found {
            let old_entry = entries.remove(i);
            entries.insert(i, (key, value));
            proof {
                lemma_position_from(before, key@, 0);
                lemma_with_entry_ordered(before, key@, value);
                assert(keyed(entries@) =~= before.update(i as int, (key@, value)));
            }
            core::mem::swap(&mut self.entries, &mut entries);
            Some(old_entry.1)
        } else {
            entries.insert(i, (key, value));
            proof {
                lemma_with_entry_ordered(before, key@, value);
                assert(keyed(entries@) =~= before.insert(i as int, (key@, value)));
            }
            core::mem::swap(&mut self.entries, &mut entries);
            None
        }
    }
}

/// Looking a key up among the views of the values finds the view of what
/// looking it up among the values finds.
pub proof fn lemma_lookup_deep<V: DeepView>(m: StrMap<V>, key: Seq<char>)
    ensures
        lookup(m.deep_view(), key) == match lookup(m@, key) {
            Some(v) => Some(v.deep_view()),
            None => None,
        },
{
    lemma_position_deep(m, key, 0);
    lemma_position_from(m@, key, 0);
}

proof fn lemma_position_deep<V: DeepView>(m: StrMap<V>, key: Seq<char>, from: int)
    requires
        0 <= from,
    ensures
        position_from(m.deep_view(), key, from) == position_from(m@, key, from),
    decreases m@.len() - from,
{
    if from < m@.len() {
        lemma_position_deep(m, key, from + 1);
    }
}

proof fn lemma_rank_from<V>(entries: Seq<(Seq<char>, V)>, key: Seq<char>, from: int)
    requires
        0 <= from <= entries.len(),
    ensures
        from <= rank_from(entries, key, from) <= entries.len(),
        forall|j: int|
            from <= j < rank_from(entries, key, from) ==> key_before(#[trigger] entries[j].0, key),
    decreases entries.len() - from,
{
    if from < entries.len() && key_before(entries[from].0, key) {
        lemma_rank_from(entries, key, from + 1);
    }
}

proof fn lemma_rank_deep<V: DeepView>(m: StrMap<V>, key: Seq<char>, from: int)
    requires
        0 <= from,
    ensures
        rank_from(m.deep_view(), key, from) == rank_from(m@, key, from),
    decreases m@.len() - from,
{
    if from < m@.len() {
        lemma_rank_deep(m, key, from + 1);
    }
}

/// Storing a value and then taking views gives what taking views and then
/// storing the value's view gives.
pub proof fn lemma_with_entry_deep<V: DeepView>(
    before: StrMap<V>,
    after: StrMap<V>,
    key: Seq<char>,
    value: V,
)
    requires
        after@ == with_entry(before@, key, value),
    ensures
        after.deep_view() == with_entry(before.deep_view(), key, value.deep_view()),
{
    lemma_position_deep(before, key, 0);
    lemma_rank_deep(before, key, 0);
    lemma_position_from(before@, key, 0);
    lemma_rank_from(before@, key, 0);
    assert(after.deep_view() =~= with_entry(before.deep_view(), key, value.deep_view()));
}

/// After a value is stored under a key, looking that key up finds the
/// value, and looking any other key up finds what it found before.
pub proof fn lemma_lookup_with_entry<V>(
    entries: Seq<(Seq<char>, V)>,
    key: Seq<char>,
    value: V,
    other: Seq<char>,
)
    ensures
        lookup(with_entry(entries, key, value), key) == Some(value),
        other != key ==> lookup(with_entry(entries, key, value), other) == lookup(entries, other),
{
    let after = with_entry(entries, key, value);
    lemma_position_from(entries, key, 0);
    lemma_position_from(entries, other, 0);
    lemma_position_from(after, key, 0);
    lemma_position_from(after, other, 0);
    lemma_rank_from(entries, key, 0);
    match position_from(entries, key, 0) {
        Some(i) => {
            assert(after[i].0 == key);
            assert forall|j: int| 0 <= j < after.len() implies (#[trigger] after[j]).0
                == entries[j].0 by {}
            if other != key {
                match position_from(entries, other, 0) {
                    Some(p) => {
                        assert(after[p].0 == other);
                        assert(after[p] == entries[p]);
                    },
                    None => {},
                }
            }
        },
        None => {
            let p = rank_from(entries, key, 0);
            assert(after[p] == (key, value));
            assert forall|j: int| 0 <= j < after.len() && j != p implies (#[trigger] after[j])
                == entries[if j < p {
                j
            } else {
                j - 1
            }] by {}
            if other != key {
                match position_from(entries, other, 0) {
                    Some(q) => {
                        let moved = if q < p {
                            q
                        } else {
                            q + 1
                        };
                        assert(after[moved] == entries[q]);
                    },
                    None => {},
                }
            }
        },
    }
}

/// Storing a value keeps the keys in strictly ascending order.
pub proof fn lemma_with_entry_ordered<V>(entries: Seq<(Seq<char>, V)>, key: Seq<char>, value: V)
    requires
        strictly_ordered(entries),
    ensures
        strictly_ordered(with_entry(entries, key, value)),
{
    let after = with_entry(entries, key, value);
    lemma_position_from(entries, key, 0);
    lemma_rank_from(entries, key, 0);
    match position_from(entries, key, 0) {
        Some(i) => {
            assert forall|a: int, b: int| 0 <= a < b < after.len() implies key_before(
                #[trigger] after[a].0,
                #[trigger] after[b].0,
            ) by {
                assert(after[a].0 == entries[a].0);
                assert(after[b].0 == entries[b].0);
            }
        },
        None => {
            let p = rank_from(entries, key, 0);
            if p < entries.len() {
                assert(!key_before(entries[p].0, key)) by {
                    lemma_rank_stops(entries, key, 0);
                }
                lemma_key_order(key, entries[p].0, key);
            }
            assert forall|a: int, b: int| 0 <= a < b < after.len() implies key_before(
                #[trigger] after[a].0,
                #[trigger] after[b].0,
            ) by {
                if b == p {
                    assert(after[a].0 == entries[a].0);
                } else if a == p {
                    assert(after[b].0 == entries[b - 1].0);
                    if b - 1 > p {
                        lemma_key_order(key, entries[p].0, entries[b - 1].0);
                    }
                } else {
                    let a0 = if a < p {
                        a
                    } else {
                        a - 1
                    };
                    let b0 = if b < p {
                        b
                    } else {
                        b - 1
                    };
                    assert(after[a].0 == entries[a0].0);
                    assert(after[b].0 == entries[b0].0);
                }
            }
        },
    }
}

proof fn lemma_rank_stops<V>(entries: Seq<(Seq<char>, V)>, key: Seq<char>, from: int)
    requires
        0 <= from <= entries.len(),
        rank_from(entries, key, from) < entries.len(),
    ensures
        !key_before(entries[rank_from(entries, key, from)].0, key),
    decreases entries.len() - from,
{
    if from < entries.len() && key_before(entries[from].0, key) {
        lemma_rank_from(entries, key, from + 1);
        lemma_rank_stops(entries, key, from + 1);
    }
}

} // verus!
