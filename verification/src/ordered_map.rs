//! A map from text keys to values, kept in ascending key order.
//!
//! Keys are ordered by their UTF-8 bytes, as `str` is. Lookups are binary
//! searches over a sorted vector.

use vstd::prelude::*;
use vstd::utf8::*;

verus! {

/// Lexicographic order on byte strings.
pub open spec fn bytes_less(a: Seq<u8>, b: Seq<u8>) -> bool
    decreases a.len(),
{
    if b.len() == 0 {
        false
    } else if a.len() == 0 {
        true
    } else if a[0] != b[0] {
        a[0] < b[0]
    } else {
        bytes_less(a.drop_first(), b.drop_first())
    }
}

/// The order of `str`: lexicographic on UTF-8 bytes.
pub open spec fn text_less(a: Seq<char>, b: Seq<char>) -> bool {
    bytes_less(encode_utf8(a), encode_utf8(b))
}

/// Whether the keys of `entries` are strictly ascending; no key occurs twice.
pub open spec fn ascending<V>(entries: Seq<(Seq<char>, V)>) -> bool {
    forall|i: int, j: int|
        0 <= i < j < entries.len() ==> text_less(#[trigger] entries[i].0, #[trigger] entries[j].0)
}

/// The map that holds exactly `entries`.
pub open spec fn map_of<V>(entries: Seq<(Seq<char>, V)>) -> Map<Seq<char>, V>
    decreases entries.len(),
{
    if entries.len() == 0 {
        Map::empty()
    } else {
        map_of(entries.drop_last()).insert(entries.last().0, entries.last().1)
    }
}

proof fn lemma_bytes_less_irreflexive(a: Seq<u8>)
    ensures
        !bytes_less(a, a),
    decreases a.len(),
{
    if a.len() > 0 {
        lemma_bytes_less_irreflexive(a.drop_first());
    }
}

proof fn lemma_bytes_less_transitive(a: Seq<u8>, b: Seq<u8>, c: Seq<u8>)
    requires
        bytes_less(a, b),
        bytes_less(b, c),
    ensures
        bytes_less(a, c),
    decreases a.len(),
{
    if a.len() > 0 && b.len() > 0 && c.len() > 0 && a[0] == b[0] && b[0] == c[0] {
        lemma_bytes_less_transitive(a.drop_first(), b.drop_first(), c.drop_first());
    }
}

proof fn lemma_bytes_less_total(a: Seq<u8>, b: Seq<u8>)
    ensures
        bytes_less(a, b) || bytes_less(b, a) || a == b,
    decreases a.len(),
{
    if a.len() > 0 && b.len() > 0 && a[0] == b[0] {
        lemma_bytes_less_total(a.drop_first(), b.drop_first());
        if a.drop_first() == b.drop_first() {
            assert(a =~= seq![a[0]] + a.drop_first());
            assert(b =~= seq![b[0]] + b.drop_first());
        }
    } else if a.len() == 0 && b.len() == 0 {
        assert(a =~= b);
    }
}

/// The order of keys is a strict total order.
pub proof fn law_text_order_is_total(a: Seq<char>, b: Seq<char>, c: Seq<char>)
    ensures
        !text_less(a, a),
        text_less(a, b) && text_less(b, c) ==> text_less(a, c),
        text_less(a, b) || text_less(b, a) || a == b,
{
    lemma_bytes_less_irreflexive(encode_utf8(a));
    if text_less(a, b) && text_less(b, c) {
        lemma_bytes_less_transitive(encode_utf8(a), encode_utf8(b), encode_utf8(c));
    }
    lemma_bytes_less_total(encode_utf8(a), encode_utf8(b));
    encode_utf8_decode_utf8(a);
    encode_utf8_decode_utf8(b);
}

pub(crate) proof fn lemma_map_of<V>(entries: Seq<(Seq<char>, V)>)
    requires
        ascending(entries),
    ensures
        map_of(entries).dom().finite(),
        map_of(entries).len() == entries.len(),
        forall|k: Seq<char>| #[trigger]
            map_of(entries).contains_key(k) <==> exists|i: int|
                0 <= i < entries.len() && #[trigger] entries[i].0 == k,
        forall|i: int|
            0 <= i < entries.len() ==> map_of(entries).contains_key(#[trigger] entries[i].0)
                && map_of(entries)[entries[i].0] == entries[i].1,
    decreases entries.len(),
{
    if entries.len() > 0 {
        let front = entries.drop_last();
        let last = entries.last();
        assert(ascending(front)) by {
            assert forall|i: int, j: int| 0 <= i < j < front.len() implies text_less(
                #[trigger] front[i].0,
                #[trigger] front[j].0,
            ) by {
                assert(front[i] == entries[i] && front[j] == entries[j]);
            }
        }
        lemma_map_of(front);
        assert forall|i: int| 0 <= i < front.len() implies #[trigger] front[i].0 != last.0 by {
            assert(front[i] == entries[i]);
            assert(text_less(entries[i].0, entries[entries.len() - 1].0));
            law_text_order_is_total(last.0, last.0, last.0);
        }
        assert forall|k: Seq<char>| #[trigger] map_of(entries).contains_key(k) implies exists|i: int|
            0 <= i < entries.len() && #[trigger] entries[i].0 == k by {
            if k == last.0 {
                assert(entries[entries.len() - 1].0 == k);
            } else {
                assert(map_of(front).contains_key(k));
                let i = choose|i: int| 0 <= i < front.len() && #[trigger] front[i].0 == k;
                assert(entries[i].0 == k);
            }
        }
        assert forall|i: int| 0 <= i < entries.len() implies map_of(entries).contains_key(
            #[trigger] entries[i].0,
        ) && map_of(entries)[entries[i].0] == entries[i].1 by {
            if i < front.len() {
                assert(front[i] == entries[i]);
            }
        }
        assert(!map_of(front).contains_key(last.0));
    }
}

/// The entries of an ordered map are determined by what it maps to what.
pub proof fn law_entries_are_determined<V>(a: Seq<(Seq<char>, V)>, b: Seq<(Seq<char>, V)>)
    requires
        ascending(a),
        ascending(b),
        map_of(a) == map_of(b),
    ensures
        a == b,
    decreases a.len(),
{
    lemma_map_of(a);
    lemma_map_of(b);
    if a.len() > 0 {
        let last_a = a.last();
        let last_b = b.last();
        assert(a[a.len() - 1] == last_a && b[b.len() - 1] == last_b);
        assert(map_of(b).contains_key(last_a.0));
        let i = choose|i: int| 0 <= i < b.len() && #[trigger] b[i].0 == last_a.0;
        assert(map_of(a).contains_key(last_b.0));
        let j = choose|j: int| 0 <= j < a.len() && #[trigger] a[j].0 == last_b.0;
        if i < b.len() - 1 && j < a.len() - 1 {
            assert(text_less(b[i].0, b[b.len() - 1].0));
            assert(text_less(a[j].0, a[a.len() - 1].0));
            law_text_order_is_total(last_a.0, last_b.0, last_a.0);
        }
        assert(last_a.0 == last_b.0);
        assert(last_a == last_b);
        assert(map_of(a.drop_last()) =~= map_of(a).remove(last_a.0)) by {
            lemma_last_key_is_new(a);
        }
        assert(map_of(b.drop_last()) =~= map_of(b).remove(last_b.0)) by {
            lemma_last_key_is_new(b);
        }
        lemma_last_key_is_new(a);
        lemma_last_key_is_new(b);
        law_entries_are_determined(a.drop_last(), b.drop_last());
        assert(a =~= a.drop_last().push(last_a));
        assert(b =~= b.drop_last().push(last_b));
    } else {
        assert(a =~= b);
    }
}

proof fn lemma_last_key_is_new<V>(entries: Seq<(Seq<char>, V)>)
    requires
        ascending(entries),
        entries.len() > 0,
    ensures
        ascending(entries.drop_last()),
        !map_of(entries.drop_last()).contains_key(entries.last().0),
{
    let front = entries.drop_last();
    assert forall|i: int, j: int| 0 <= i < j < front.len() implies text_less(
        #[trigger] front[i].0,
        #[trigger] front[j].0,
    ) by {
        assert(front[i] == entries[i] && front[j] == entries[j]);
    }
    lemma_map_of(front);
    if map_of(front).contains_key(entries.last().0) {
        let i = choose|i: int| 0 <= i < front.len() && #[trigger] front[i].0 == entries.last().0;
        assert(text_less(entries[i].0, entries[entries.len() - 1].0));
        law_text_order_is_total(entries.last().0, entries.last().0, entries.last().0);
    }
}

/// Whether `a` and `b` first differ at `n`, where `a` has ended or has the lesser
/// byte.
pub open spec fn parts_below(a: Seq<u8>, b: Seq<u8>, n: int) -> bool {
    &&& 0 <= n <= a.len()
    &&& n < b.len()
    &&& forall|i: int| 0 <= i < n ==> #[trigger] a[i] == b[i]
    &&& n == a.len() || a[n] < b[n]
}

/// Keys are ordered by their UTF-8 bytes: one comes before another exactly when
/// it is the lesser at the first byte in which they differ, or ends there.
pub proof fn law_text_order_is_lexicographic(a: Seq<char>, b: Seq<char>)
    ensures
        text_less(a, b) <==> exists|n: int| parts_below(encode_utf8(a), encode_utf8(b), n),
{
    lemma_bytes_less_is_lexicographic(encode_utf8(a), encode_utf8(b));
}

proof fn lemma_bytes_less_is_lexicographic(a: Seq<u8>, b: Seq<u8>)
    ensures
        bytes_less(a, b) <==> exists|n: int| parts_below(a, b, n),
    decreases a.len(),
{
    if a.len() > 0 && b.len() > 0 && a[0] == b[0] {
        let a_rest = a.drop_first();
        let b_rest = b.drop_first();
        lemma_bytes_less_is_lexicographic(a_rest, b_rest);
        if bytes_less(a, b) {
            let n = choose|n: int| parts_below(a_rest, b_rest, n);
            assert forall|i: int| 0 <= i < n + 1 implies #[trigger] a[i] == b[i] by {
                if i > 0 {
                    assert(a_rest[i - 1] == b_rest[i - 1]);
                }
            }
            assert(parts_below(a, b, n + 1));
        }
        if exists|n: int| parts_below(a, b, n) {
            let n = choose|n: int| parts_below(a, b, n);
            assert forall|i: int| 0 <= i < n - 1 implies #[trigger] a_rest[i] == b_rest[i] by {
                assert(a[i + 1] == b[i + 1]);
            }
            assert(parts_below(a_rest, b_rest, n - 1));
        }
    } else if bytes_less(a, b) {
        assert(parts_below(a, b, 0));
    } else if exists|n: int| parts_below(a, b, n) {
        let n = choose|n: int| parts_below(a, b, n);
        assert(n > 0 ==> a[0] == b[0]);
    }
}

/// A map holds exactly its entries: every key of an entry with the entry's value,
/// and no other key.
pub proof fn law_map_holds_exactly_its_entries<V>(entries: Seq<(Seq<char>, V)>, key: Seq<char>)
    requires
        ascending(entries),
    ensures
        map_of(entries).len() == entries.len(),
        map_of(entries).contains_key(key) <==> exists|i: int|
            0 <= i < entries.len() && #[trigger] entries[i].0 == key,
        forall|i: int|
            0 <= i < entries.len() && #[trigger] entries[i].0 == key ==> map_of(entries)[key]
                == entries[i].1,
{
    lemma_map_of(entries);
}

/// Whether `a` comes before `b` in the order of `str`.
fn less(a: &str, b: &str) -> (before: bool)
    ensures
        before == text_less(a@, b@),
{
    let a_bytes = a.as_bytes();
    let b_bytes = b.as_bytes();
    let mut i: usize = 0;
    assert(a_bytes@.skip(0) =~= a_bytes@);
    assert(b_bytes@.skip(0) =~= b_bytes@);
    while i < a_bytes.len() && i < b_bytes.len() && a_bytes[i] == b_bytes[i]
        invariant
            i <= a_bytes@.len(),
            i <= b_bytes@.len(),
            bytes_less(a_bytes@, b_bytes@) == bytes_less(
                a_bytes@.skip(i as int),
                b_bytes@.skip(i as int),
            ),
        decreases a_bytes@.len() - i,
    {
        assert(a_bytes@.skip(i as int).drop_first() =~= a_bytes@.skip(i + 1));
        assert(b_bytes@.skip(i as int).drop_first() =~= b_bytes@.skip(i + 1));
        i = i + 1;
    }
    i < b_bytes.len() && (i == a_bytes.len() || a_bytes[i] < b_bytes[i])
}

/// A map from text keys to values of type `V`, in ascending key order.
#[derive(Debug)]
pub struct OrderedMap<V> {
    /// The entries, sorted by key.
    slots: Vec<(String, V)>,
}

/// The key and value of a stored entry.
spec fn entry_of<V>(slot: (String, V)) -> (Seq<char>, V) {
    (slot.0@, slot.1)
}

spec fn entries_of<V>(slots: Seq<(String, V)>) -> Seq<(Seq<char>, V)> {
    Seq::new(slots.len(), |i: int| entry_of(slots[i]))
}

impl<V> View for OrderedMap<V> {
    type V = Map<Seq<char>, V>;

    open spec fn view(&self) -> Map<Seq<char>, V> {
        map_of(self.entries())
    }
}

impl<V> OrderedMap<V> {
    /// The entries in ascending key order.
    pub closed spec fn entries(&self) -> Seq<(Seq<char>, V)> {
        entries_of(self.slots@)
    }

    #[verifier::type_invariant]
    spec fn is_ascending(&self) -> bool {
        ascending(entries_of(self.slots@))
    }

    /// Creates an empty map.
    pub fn new() -> (map: Self)
        ensures
            map@ == Map::<Seq<char>, V>::empty(),
            map.entries() == Seq::<(Seq<char>, V)>::empty(),
    {
        let map = OrderedMap { slots: Vec::new() };
        assert(map.entries() =~= Seq::<(Seq<char>, V)>::empty());
        map
    }

    /// Number of keys in the map.
    pub fn len(&self) -> (len: usize)
        ensures
            len == self@.len(),
            len == self.entries().len(),
            ascending(self.entries()),
            self@.dom().finite(),
    {
        proof {
            use_type_invariant(self);
            lemma_map_of(self.entries());
        }
        self.slots.len()
    }

    /// Whether the map has no keys.
    pub fn is_empty(&self) -> (empty: bool)
        ensures
            empty == (self.entries().len() == 0),
            empty == (self@ == Map::<Seq<char>, V>::empty()),
            ascending(self.entries()),
    {
        proof {
            use_type_invariant(self);
            lemma_map_of(self.entries());
            if self.entries().len() == 0 {
                assert(self@ =~= Map::<Seq<char>, V>::empty());
            }
        }
        self.slots.len() == 0
    }

    /// The key at position `index` of the ascending order.
    pub fn key_at(&self, index: usize) -> (key: &str)
        requires
            index < self.entries().len(),
        ensures
            key@ == self.entries()[index as int].0,
    {
        self.slots[index].0.as_str()
    }

    /// The value at position `index` of the ascending key order.
    pub fn value_at(&self, index: usize) -> (value: &V)
        requires
            index < self.entries().len(),
        ensures
            *value == self.entries()[index as int].1,
    {
        &self.slots[index].1
    }

    /// The position of the first key that does not come before `key`.
    fn position(&self, key: &str) -> (at: usize)
        ensures
            at <= self.slots@.len(),
            forall|i: int| 0 <= i < at ==> text_less(#[trigger] self.entries()[i].0, key@),
            forall|i: int|
                at <= i < self.slots@.len() ==> !text_less(#[trigger] self.entries()[i].0, key@),
            self@.contains_key(key@) <==> at < self.slots@.len() && self.entries()[at as int].0
                == key@,
    {
        proof {
            use_type_invariant(self);
        }
        let mut low: usize = 0;
        let mut high: usize = self.slots.len();
        while low < high
            invariant
                low <= high <= self.slots@.len(),
                ascending(self.entries()),
                forall|i: int| 0 <= i < low ==> text_less(#[trigger] self.entries()[i].0, key@),
                forall|i: int|
                    high <= i < self.slots@.len() ==> !text_less(
                        #[trigger] self.entries()[i].0,
                        key@,
                    ),
            decreases high - low,
        {
            let middle: usize = low + (high - low) / 2;
            let ghost pivot = self.entries()[middle as int].0;
            if less(self.slots[middle].0.as_str(), key) {
                assert forall|i: int| 0 <= i <= middle implies text_less(
                    #[trigger] self.entries()[i].0,
                    key@,
                ) by {
                    law_text_order_is_total(self.entries()[i].0, pivot, key@);
                }
                low = middle + 1;
            } else {
                assert forall|i: int| middle <= i < self.slots@.len() implies !text_less(
                    #[trigger] self.entries()[i].0,
                    key@,
                ) by {
                    law_text_order_is_total(pivot, self.entries()[i].0, key@);
                }
                high = middle;
            }
        }
        proof {
            lemma_map_of(self.entries());
            let entries = self.entries();
            if entries.len() > low && entries[low as int].0 == key@ {
                assert(self@.contains_key(key@));
            }
            if self@.contains_key(key@) {
                let i = choose|i: int| 0 <= i < entries.len() && #[trigger] entries[i].0 == key@;
                law_text_order_is_total(key@, key@, key@);
                if low < i {
                    assert(text_less(entries[low as int].0, entries[i].0));
                }
                assert(i == low);
            }
        }
        low
    }

    /// Looks `key` up.
    pub fn get(&self, key: &str) -> (value: Option<&V>)
        ensures
            match value {
                Some(found) => self@.contains_key(key@) && *found == self@[key@],
                None => !self@.contains_key(key@),
            },
    {
        proof {
            use_type_invariant(self);
            lemma_map_of(self.entries());
        }
        let at: usize = self.position(key);
        if at < self.slots.len() && !less(key, self.slots[at].0.as_str()) {
            proof {
                law_text_order_is_total(key@, self.entries()[at as int].0, key@);
            }
            Some(&self.slots[at].1)
        } else {
            proof {
                law_text_order_is_total(key@, key@, key@);
            }
            None
        }
    }

    /// Maps `key` to `value`, replacing any value it had.
    pub fn insert(&mut self, key: &str, value: V)
        ensures
            final(self)@ == old(self)@.insert(key@, value),
            ascending(final(self).entries()),
    {
        proof {
            use_type_invariant(&*self);
        }
        let at: usize = self.position(key);
        let found = at < self.slots.len() && !less(key, self.slots[at].0.as_str());
        let ghost before = self.entries();
        proof {
            if at < before.len() {
                law_text_order_is_total(key@, before[at as int].0, key@);
            }
            law_text_order_is_total(key@, key@, key@);
        }
        let mut slots: Vec<(String, V)> = Vec::new();
        core::mem::swap(&mut self.slots, &mut slots);
        if found {
            slots[at].1 = value;
        } else {
            slots.insert(at, (key.to_owned(), value));
        }
        let ghost after = entries_of(slots@);
        proof {
            if found {
                assert(after =~= before.update(at as int, (key@, value)));
            } else {
                assert(after =~= before.insert(at as int, (key@, value)));
            }
            lemma_insert(before, after, at as int, found, key@, value);
        }
        self.slots = slots;
    }

    /// Drops every entry whose value `keep` refuses; `kept` is what `keep`
    /// computes.
    pub(crate) fn retain<F: Fn(&V) -> bool>(&mut self, keep: F, Ghost(kept): Ghost<spec_fn(V) -> bool>)
        requires
            forall|value: V| call_requires(keep, (&value,)),
            forall|value: V, verdict: bool|
                call_ensures(keep, (&value,), verdict) ==> verdict == kept(value),
        ensures
            final(self)@ == retained(old(self)@, kept),
            ascending(final(self).entries()),
    {
        proof {
            use_type_invariant(&*self);
        }
        let ghost before = self.entries();
        let mut slots: Vec<(String, V)> = Vec::new();
        core::mem::swap(&mut self.slots, &mut slots);
        let mut reversed: Vec<(String, V)> = Vec::new();
        assert(entries_of(slots@) =~= before);
        assert(before.skip(before.len() as int) =~= Seq::<(Seq<char>, V)>::empty());
        assert(entries_of(reversed@).reverse() =~= filtered(
            before.skip(before.len() as int),
            kept,
        ));
        while slots.len() > 0
            invariant
                slots@.len() <= before.len(),
                entries_of(slots@) == before.take(slots@.len() as int),
                entries_of(reversed@).reverse() == filtered(
                    before.skip(slots@.len() as int),
                    kept,
                ),
                forall|value: V| call_requires(keep, (&value,)),
                forall|value: V, verdict: bool|
                    call_ensures(keep, (&value,), verdict) ==> verdict == kept(value),
            decreases slots@.len(),
        {
            let ghost slots_before = slots@;
            let ghost reversed_before = entries_of(reversed@);
            if let Some(slot) = slots.pop() {
                let ghost n = slots@.len() as int;
                assert(entry_of(slot) == entries_of(slots_before)[n]);
                assert(entries_of(slots@) =~= before.take(n));
                assert(before.skip(n).drop_first() =~= before.skip(n + 1));
                if keep(&slot.1) {
                    reversed.push(slot);
                    assert(entries_of(reversed@) =~= reversed_before.push(before[n]));
                    assert(entries_of(reversed@).reverse() =~= seq![before[n]]
                        + reversed_before.reverse());
                }
            }
        }
        assert(before.skip(0) =~= before);
        let ghost after = filtered(before, kept);
        while reversed.len() > 0
            invariant
                reversed@.len() <= after.len(),
                entries_of(reversed@).reverse() == after.skip(slots@.len() as int),
                entries_of(slots@) == after.take(slots@.len() as int),
                slots@.len() + reversed@.len() == after.len(),
            decreases reversed@.len(),
        {
            let ghost reversed_before = entries_of(reversed@);
            let ghost n = slots@.len() as int;
            if let Some(slot) = reversed.pop() {
                assert(reversed_before =~= entries_of(reversed@).push(entry_of(slot)));
                assert(reversed_before.reverse() =~= seq![entry_of(slot)] + entries_of(
                    reversed@,
                ).reverse());
                assert(after.skip(n)[0] == entry_of(slot));
                assert(after.skip(n + 1) =~= after.skip(n).drop_first());
                assert(entries_of(reversed@).reverse() =~= reversed_before.reverse().drop_first());
                slots.push(slot);
                assert(entries_of(slots@) =~= after.take(n + 1));
            }
        }
        assert(after.take(after.len() as int) =~= after);
        proof {
            lemma_filtered(before, kept);
        }
        self.slots = slots;
    }
}

/// The part of `map` whose values satisfy `kept`.
pub open spec fn retained<V>(map: Map<Seq<char>, V>, kept: spec_fn(V) -> bool) -> Map<
    Seq<char>,
    V,
> {
    Map::new(|key: Seq<char>| map.contains_key(key) && kept(map[key]), |key: Seq<char>| map[key])
}

/// The entries whose values satisfy `kept`, in their order.
spec fn filtered<V>(entries: Seq<(Seq<char>, V)>, kept: spec_fn(V) -> bool) -> Seq<(Seq<char>, V)>
    decreases entries.len(),
{
    if entries.len() == 0 {
        Seq::empty()
    } else {
        let rest = filtered(entries.drop_first(), kept);
        if kept(entries[0].1) {
            seq![entries[0]] + rest
        } else {
            rest
        }
    }
}

proof fn lemma_filtered_entries<V>(entries: Seq<(Seq<char>, V)>, kept: spec_fn(V) -> bool)
    requires
        ascending(entries),
    ensures
        ascending(filtered(entries, kept)),
        forall|i: int|
            0 <= i < filtered(entries, kept).len() ==> kept(
                (#[trigger] filtered(entries, kept)[i]).1,
            ) && entries.contains(filtered(entries, kept)[i]),
        forall|i: int|
            0 <= i < entries.len() && kept(entries[i].1) ==> filtered(entries, kept).contains(
                #[trigger] entries[i],
            ),
    decreases entries.len(),
{
    if entries.len() > 0 {
        let tail = entries.drop_first();
        let rest = filtered(tail, kept);
        let all = filtered(entries, kept);
        assert forall|i: int, j: int| 0 <= i < j < tail.len() implies text_less(
            #[trigger] tail[i].0,
            #[trigger] tail[j].0,
        ) by {
            assert(tail[i] == entries[i + 1] && tail[j] == entries[j + 1]);
        }
        lemma_filtered_entries(tail, kept);
        assert forall|i: int| 0 <= i < rest.len() implies entries.contains(#[trigger] rest[i])
            && text_less(entries[0].0, rest[i].0) by {
            let t = choose|t: int| 0 <= t < tail.len() && tail[t] == rest[i];
            assert(tail[t] == entries[t + 1]);
        }
        if kept(entries[0].1) {
            assert(all[0] == entries[0]);
            assert forall|i: int| 0 <= i < all.len() implies kept((#[trigger] all[i]).1)
                && entries.contains(all[i]) by {
                if i > 0 {
                    assert(all[i] == rest[i - 1]);
                }
            }
            assert forall|i: int, j: int| 0 <= i < j < all.len() implies text_less(
                #[trigger] all[i].0,
                #[trigger] all[j].0,
            ) by {
                assert(all[j] == rest[j - 1]);
                if i > 0 {
                    assert(all[i] == rest[i - 1]);
                }
            }
        }
        assert forall|i: int| 0 <= i < entries.len() && kept(entries[i].1) implies all.contains(
            #[trigger] entries[i],
        ) by {
            if i == 0 {
                assert(all[0] == entries[0]);
            } else {
                assert(tail[i - 1] == entries[i]);
                let r = choose|r: int| 0 <= r < rest.len() && rest[r] == entries[i];
                if kept(entries[0].1) {
                    assert(all[r + 1] == rest[r]);
                }
            }
        }
    }
}

proof fn lemma_filtered<V>(entries: Seq<(Seq<char>, V)>, kept: spec_fn(V) -> bool)
    requires
        ascending(entries),
    ensures
        ascending(filtered(entries, kept)),
        map_of(filtered(entries, kept)) == retained(map_of(entries), kept),
{
    let all = filtered(entries, kept);
    lemma_filtered_entries(entries, kept);
    lemma_map_of(entries);
    lemma_map_of(all);
    assert forall|k: Seq<char>| #[trigger] map_of(all).contains_key(k) implies retained(
        map_of(entries),
        kept,
    ).contains_key(k) && map_of(all)[k] == map_of(entries)[k] by {
        let i = choose|i: int| 0 <= i < all.len() && #[trigger] all[i].0 == k;
        let origin = choose|j: int| 0 <= j < entries.len() && entries[j] == all[i];
        assert(map_of(entries)[entries[origin].0] == entries[origin].1);
        assert(map_of(all)[all[i].0] == all[i].1);
    }
    assert forall|k: Seq<char>| retained(map_of(entries), kept).contains_key(
        k,
    ) implies #[trigger] map_of(all).contains_key(k) by {
        let i = choose|i: int| 0 <= i < entries.len() && #[trigger] entries[i].0 == k;
        assert(map_of(entries)[entries[i].0] == entries[i].1);
        let target = choose|j: int| 0 <= j < all.len() && all[j] == entries[i];
        assert(all[target].0 == k);
    }
    assert(map_of(all) =~= retained(map_of(entries), kept));
}

proof fn lemma_insert<V>(
    before: Seq<(Seq<char>, V)>,
    after: Seq<(Seq<char>, V)>,
    at: int,
    found: bool,
    key: Seq<char>,
    value: V,
)
    requires
        ascending(before),
        0 <= at <= before.len(),
        forall|i: int| 0 <= i < at ==> text_less(#[trigger] before[i].0, key),
        forall|i: int| at <= i < before.len() ==> !text_less(#[trigger] before[i].0, key),
        found ==> at < before.len() && before[at].0 == key && after == before.update(
            at,
            (key, value),
        ),
        !found ==> !map_of(before).contains_key(key) && after == before.insert(at, (key, value)),
    ensures
        ascending(after),
        map_of(after) == map_of(before).insert(key, value),
{
    lemma_map_of(before);
    if found {
        assert forall|i: int, j: int| 0 <= i < j < after.len() implies text_less(
            #[trigger] after[i].0,
            #[trigger] after[j].0,
        ) by {
            assert(after[i].0 == before[i].0 && after[j].0 == before[j].0);
        }
    } else {
        assert forall|i: int, j: int| 0 <= i < j < after.len() implies text_less(
            #[trigger] after[i].0,
            #[trigger] after[j].0,
        ) by {
            if i >= at {
                assert(after[j] == before[j - 1]);
                law_text_order_is_total(before[j - 1].0, key, key);
                law_text_order_is_total(key, before[j - 1].0, key);
                assert(map_of(before).contains_key(before[j - 1].0));
                if i > at {
                    assert(after[i] == before[i - 1]);
                }
            } else {
                assert(after[i] == before[i]);
                if j < at {
                    assert(after[j] == before[j]);
                } else if j > at {
                    assert(after[j] == before[j - 1]);
                }
            }
        }
    }
    lemma_map_of(after);
    assert forall|k: Seq<char>| #[trigger]
        map_of(after).contains_key(k) <==> map_of(before).insert(key, value).contains_key(k) by {
        if map_of(after).contains_key(k) {
            let i = choose|i: int| 0 <= i < after.len() && #[trigger] after[i].0 == k;
            if i != at {
                let origin = if found || i < at { i } else { i - 1 };
                assert(before[origin] == after[i]);
            }
        }
        if k == key {
            assert(after[at].0 == k);
        } else if map_of(before).contains_key(k) {
            let i = choose|i: int| 0 <= i < before.len() && #[trigger] before[i].0 == k;
            let target = if found || i < at { i } else { i + 1 };
            assert(after[target] == before[i]);
        }
    }
    assert forall|k: Seq<char>| #[trigger] map_of(after).contains_key(k) implies map_of(after)[k]
        == map_of(before).insert(key, value)[k] by {
        let i = choose|i: int| 0 <= i < after.len() && #[trigger] after[i].0 == k;
        assert(map_of(after)[after[i].0] == after[i].1);
        if i == at {
            assert(after[at] == (key, value));
        } else {
            let origin = if found || i < at { i } else { i - 1 };
            assert(before[origin] == after[i]);
            assert(map_of(before)[before[origin].0] == before[origin].1);
            if k == key {
                assert(after[at].0 == k);
                assert(map_of(after)[after[at].0] == after[at].1);
            }
        }
    }
    assert(map_of(after) =~= map_of(before).insert(key, value));
}

} // verus!
