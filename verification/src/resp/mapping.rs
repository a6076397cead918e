//! Maps: `%<number-of-entries>\r\n<key-1><value-1>...<key-n><value-n>`.
//!
//! The keys are text, each written as a simple string, and the entries stand
//! in ascending order of their keys' bytes.

use crate::resp::encode::{copy_entries, entries_len, measures, write_entries};
use crate::resp::frame::{entries_view, wire_entries, Frame, RespFrame};
use vstd::prelude::*;
use vstd::utf8::{encode_utf8, encode_utf8_decode_utf8};

verus! {

/// The prefix byte of a map.
pub const PREFIX: u8 = 37;

/// Whether `a` stands before `b` when byte runs are ordered by their first
/// difference, and a run before those that it starts.
pub open spec fn bytes_lt(a: Seq<u8>, b: Seq<u8>) -> bool
    decreases a.len(),
{
    if b.len() == 0 {
        false
    } else if a.len() == 0 {
        true
    } else if a[0] != b[0] {
        a[0] < b[0]
    } else {
        bytes_lt(a.drop_first(), b.drop_first())
    }
}

/// Whether the key `a` stands before the key `b`.
pub open spec fn key_lt(a: Seq<char>, b: Seq<char>) -> bool {
    bytes_lt(encode_utf8(a), encode_utf8(b))
}

/// Whether the keys of `entries` ascend strictly.
pub open spec fn sorted(entries: Seq<(Seq<char>, Frame)>) -> bool {
    forall|i: int, j: int|
        0 <= i < j < entries.len() ==> key_lt((#[trigger] entries[i]).0, (#[trigger] entries[j]).0)
}

/// A map from text to frames. Its entries stand in ascending order of their
/// keys, and each key stands once.
#[derive(Debug, PartialEq)]
pub struct RespMap {
    entries: Vec<(String, RespFrame)>,
}

/// The entries of `m`, in the order in which they are written.
pub closed spec fn map_view(m: RespMap) -> Seq<(Seq<char>, Frame)>
    decreases m,
{
    entries_view(m.entries@)
}

impl View for RespMap {
    type V = Seq<(Seq<char>, Frame)>;

    open spec fn view(&self) -> Seq<(Seq<char>, Frame)> {
        map_view(*self)
    }
}

/// No byte run stands before itself.
pub proof fn lemma_bytes_lt_irreflexive(a: Seq<u8>)
    ensures
        !bytes_lt(a, a),
    decreases a.len(),
{
    if a.len() > 0 {
        lemma_bytes_lt_irreflexive(a.drop_first());
    }
}

/// What stands before a run that stands before a third stands before the third.
pub proof fn lemma_bytes_lt_transitive(a: Seq<u8>, b: Seq<u8>, c: Seq<u8>)
    requires
        bytes_lt(a, b),
        bytes_lt(b, c),
    ensures
        bytes_lt(a, c),
    decreases a.len(),
{
    if a.len() > 0 && b.len() > 0 && c.len() > 0 {
        if a[0] == b[0] && b[0] == c[0] {
            lemma_bytes_lt_transitive(a.drop_first(), b.drop_first(), c.drop_first());
        }
    }
}

/// Of two byte runs that differ, one stands before the other.
pub proof fn lemma_bytes_lt_total(a: Seq<u8>, b: Seq<u8>)
    ensures
        a == b || bytes_lt(a, b) || bytes_lt(b, a),
    decreases a.len(),
{
    if a.len() == 0 || b.len() == 0 {
        if a.len() == 0 && b.len() == 0 {
            assert(a =~= b);
        }
    } else if a[0] == b[0] {
        lemma_bytes_lt_total(a.drop_first(), b.drop_first());
        if a.drop_first() == b.drop_first() {
            assert(a =~= seq![a[0]] + a.drop_first());
            assert(b =~= seq![b[0]] + b.drop_first());
        }
    }
}

/// No key stands before itself.
pub proof fn lemma_key_lt_irreflexive(a: Seq<char>)
    ensures
        !key_lt(a, a),
{
    lemma_bytes_lt_irreflexive(encode_utf8(a));
}

/// The order of keys is transitive.
pub proof fn lemma_key_lt_transitive(a: Seq<char>, b: Seq<char>, c: Seq<char>)
    requires
        key_lt(a, b),
        key_lt(b, c),
    ensures
        key_lt(a, c),
{
    lemma_bytes_lt_transitive(encode_utf8(a), encode_utf8(b), encode_utf8(c));
}

/// Of two keys that differ, one stands before the other.
pub proof fn lemma_key_lt_total(a: Seq<char>, b: Seq<char>)
    ensures
        a == b || key_lt(a, b) || key_lt(b, a),
{
    lemma_bytes_lt_total(encode_utf8(a), encode_utf8(b));
    encode_utf8_decode_utf8(a);
    encode_utf8_decode_utf8(b);
}

/// Of two keys, at most one stands before the other.
pub proof fn lemma_key_lt_asymmetric(a: Seq<char>, b: Seq<char>)
    requires
        key_lt(a, b),
    ensures
        !key_lt(b, a),
        a != b,
{
    if key_lt(b, a) {
        lemma_key_lt_transitive(a, b, a);
    }
    lemma_key_lt_irreflexive(a);
}

/// Whether the bytes `a` stand before the bytes `b`.
pub fn bytes_before(a: &[u8], b: &[u8]) -> (r: bool)
    ensures
        r == bytes_lt(a@, b@),
{
    let mut i: usize = 0;
    assert(a@.skip(0) =~= a@);
    assert(b@.skip(0) =~= b@);
    while i < a.len() && i < b.len()
        invariant
            0 <= i <= a@.len(),
            i <= b@.len(),
            bytes_lt(a@, b@) == bytes_lt(a@.skip(i as int), b@.skip(i as int)),
        decreases a@.len() - i,
    {
        if a[i] != b[i] {
            return a[i] < b[i];
        }
        proof {
            assert(a@.skip(i as int).drop_first() =~= a@.skip(i + 1));
            assert(b@.skip(i as int).drop_first() =~= b@.skip(i + 1));
        }
        i = i + 1;
    }
    i < b.len()
}

/// Whether the key `a` stands before the key `b`.
pub fn key_before(a: &str, b: &str) -> (r: bool)
    ensures
        r == key_lt(a@, b@),
{
    bytes_before(a.as_bytes(), b.as_bytes())
}

/// Whether the keys `a` and `b` are the same text.
pub fn same_key(a: &str, b: &str) -> (r: bool)
    ensures
        r == (a@ == b@),
{
    proof {
        lemma_key_lt_total(a@, b@);
        lemma_key_lt_irreflexive(a@);
    }
    !key_before(a, b) && !key_before(b, a)
}

/// The index of the first entry at or after `from` whose key does not stand
/// before `key`.
pub open spec fn first_not_below(
    entries: Seq<(Seq<char>, Frame)>,
    key: Seq<char>,
    from: int,
) -> int
    decreases entries.len() - from,
{
    if 0 <= from < entries.len() && key_lt(entries[from].0, key) {
        first_not_below(entries, key, from + 1)
    } else {
        from
    }
}

/// The entries after `value` is put under `key`: in place of the entry of
/// that key, if there is one, and else where the order of keys asks for it.
pub open spec fn insert_entry(
    entries: Seq<(Seq<char>, Frame)>,
    key: Seq<char>,
    value: Frame,
) -> Seq<(Seq<char>, Frame)> {
    let at = first_not_below(entries, key, 0);
    if at < entries.len() && entries[at].0 == key {
        entries.update(at, (key, value))
    } else {
        entries.insert(at, (key, value))
    }
}

/// Whether an entry of `entries` has the key `key`.
pub open spec fn has_key(entries: Seq<(Seq<char>, Frame)>, key: Seq<char>) -> bool {
    exists|i: int| 0 <= i < entries.len() && (#[trigger] entries[i]).0 == key
}

/// The index of an entry of `entries` that has the key `key`.
pub open spec fn index_of(entries: Seq<(Seq<char>, Frame)>, key: Seq<char>) -> int {
    choose|i: int| 0 <= i < entries.len() && (#[trigger] entries[i]).0 == key
}

/// What `entries` hold: each key with its value.
pub open spec fn content(entries: Seq<(Seq<char>, Frame)>) -> Map<Seq<char>, Frame> {
    Map::new(|k: Seq<char>| has_key(entries, k), |k: Seq<char>| entries[index_of(entries, k)].1)
}

/// Whether each key stands once in `entries`.
pub open spec fn distinct_keys(entries: Seq<(Seq<char>, Frame)>) -> bool {
    forall|i: int, j: int|
        0 <= i < j < entries.len() ==> (#[trigger] entries[i]).0 != (#[trigger] entries[j]).0
}

/// In ascending entries each key stands once.
pub proof fn lemma_sorted_is_distinct(entries: Seq<(Seq<char>, Frame)>)
    requires
        sorted(entries),
    ensures
        distinct_keys(entries),
{
    assert forall|i: int, j: int| 0 <= i < j < entries.len() implies (#[trigger] entries[i]).0 != (
    #[trigger] entries[j]).0 by {
        lemma_key_lt_asymmetric(entries[i].0, entries[j].0);
    }
}

/// What entries hold once an entry of a new key is put at their end.
pub proof fn lemma_content_push(entries: Seq<(Seq<char>, Frame)>, key: Seq<char>, value: Frame)
    requires
        distinct_keys(entries),
        !has_key(entries, key),
    ensures
        content(entries.push((key, value))) == content(entries).insert(key, value),
        distinct_keys(entries.push((key, value))),
{
    let after = entries.push((key, value));
    let want = content(entries).insert(key, value);
    let last = entries.len() as int;
    assert(after[last] == (key, value));
    assert forall|i: int, j: int| 0 <= i < j < after.len() implies (#[trigger] after[i]).0 != (
    #[trigger] after[j]).0 by {
        assert(after[i] == entries[i]);
        if j < last {
            assert(after[j] == entries[j]);
        }
    }
    assert forall|k: Seq<char>| #[trigger] content(after).dom().contains(k) == want.dom().contains(
        k,
    ) by {
        if has_key(after, k) {
            let i = index_of(after, k);
            if i < last {
                assert(entries[i].0 == k);
            }
        }
        if has_key(entries, k) {
            let i = index_of(entries, k);
            assert(after[i].0 == k);
        }
        if k == key {
            assert(after[last].0 == k);
        }
    }
    assert forall|k: Seq<char>| #[trigger] content(after).dom().contains(k) implies content(
        after,
    )[k] == want[k] by {
        let i = index_of(after, k);
        if k == key {
            if i < last {
                assert(entries[i].0 == key);
            }
        } else {
            assert(i < last);
            assert(entries[i] == after[i]);
            let j = index_of(entries, k);
            if i < j {
                assert(entries[i].0 != entries[j].0);
            } else if j < i {
                assert(entries[j].0 != entries[i].0);
            }
        }
    }
    assert(content(after) =~= want);
}

/// Where the search for a key ends: within the entries, after the keys that
/// stand before it and at one that does not.
pub proof fn lemma_first_not_below(entries: Seq<(Seq<char>, Frame)>, key: Seq<char>, from: int)
    requires
        0 <= from <= entries.len(),
    ensures
        from <= first_not_below(entries, key, from) <= entries.len(),
        forall|i: int|
            from <= i < first_not_below(entries, key, from) ==> key_lt(
                (#[trigger] entries[i]).0,
                key,
            ),
        first_not_below(entries, key, from) < entries.len() ==> !key_lt(
            entries[first_not_below(entries, key, from)].0,
            key,
        ),
    decreases entries.len() - from,
{
    if from < entries.len() && key_lt(entries[from].0, key) {
        lemma_first_not_below(entries, key, from + 1);
    }
}

/// In ascending entries each key stands once.
pub proof fn lemma_sorted_keys_differ(entries: Seq<(Seq<char>, Frame)>, i: int, j: int)
    requires
        sorted(entries),
        0 <= i < entries.len(),
        0 <= j < entries.len(),
        entries[i].0 == entries[j].0,
    ensures
        i == j,
{
    if i < j {
        lemma_key_lt_asymmetric(entries[i].0, entries[j].0);
    } else if j < i {
        lemma_key_lt_asymmetric(entries[j].0, entries[i].0);
    }
}

/// Putting a value under a key keeps the entries ascending.
pub proof fn lemma_insert_keeps_sorted(
    entries: Seq<(Seq<char>, Frame)>,
    key: Seq<char>,
    value: Frame,
)
    requires
        sorted(entries),
    ensures
        sorted(insert_entry(entries, key, value)),
{
    let at = first_not_below(entries, key, 0);
    lemma_first_not_below(entries, key, 0);
    let after = insert_entry(entries, key, value);
    if at < entries.len() && entries[at].0 == key {
        assert forall|i: int, j: int| 0 <= i < j < after.len() implies key_lt(
            (#[trigger] after[i]).0,
            (#[trigger] after[j]).0,
        ) by {
            assert(after[i].0 == entries[i].0);
            assert(after[j].0 == entries[j].0);
        }
    } else {
        if at < entries.len() {
            lemma_key_lt_total(entries[at].0, key);
        }
        assert forall|i: int, j: int| 0 <= i < j < after.len() implies key_lt(
            (#[trigger] after[i]).0,
            (#[trigger] after[j]).0,
        ) by {
            if j < at {
                assert(after[i] == entries[i] && after[j] == entries[j]);
            } else if j == at {
                assert(after[i] == entries[i]);
            } else if i < at {
                assert(after[i] == entries[i] && after[j] == entries[j - 1]);
            } else if i == at {
                assert(after[j] == entries[j - 1]);
                if j - 1 > at {
                    lemma_key_lt_transitive(key, entries[at].0, entries[j - 1].0);
                }
            } else {
                assert(after[i] == entries[i - 1] && after[j] == entries[j - 1]);
            }
        }
    }
}

/// A key that stands after every key of the entries goes to their end.
pub proof fn lemma_insert_at_end(entries: Seq<(Seq<char>, Frame)>, key: Seq<char>, value: Frame)
    requires
        forall|i: int| 0 <= i < entries.len() ==> key_lt((#[trigger] entries[i]).0, key),
    ensures
        insert_entry(entries, key, value) == entries.push((key, value)),
{
    lemma_first_not_below(entries, key, 0);
    let at = first_not_below(entries, key, 0);
    if at < entries.len() {
        assert(key_lt(entries[at].0, key));
    }
    assert(entries.insert(at, (key, value)) =~= entries.push((key, value)));
}

/// After a value is put under a key, the entries hold what they held, but
/// for that key, which has the value.
pub proof fn lemma_insert_content(entries: Seq<(Seq<char>, Frame)>, key: Seq<char>, value: Frame)
    requires
        sorted(entries),
    ensures
        content(insert_entry(entries, key, value)) == content(entries).insert(key, value),
{
    let at = first_not_below(entries, key, 0);
    lemma_first_not_below(entries, key, 0);
    let after = insert_entry(entries, key, value);
    lemma_insert_keeps_sorted(entries, key, value);
    let replaced = at < entries.len() && entries[at].0 == key;
    let want = content(entries).insert(key, value);
    assert(after[at] == (key, value));
    assert forall|k: Seq<char>| #[trigger] content(after).dom().contains(k) == want.dom().contains(
        k,
    ) by {
        if has_key(after, k) {
            let i = index_of(after, k);
            if i != at {
                if replaced {
                    assert(entries[i].0 == k);
                } else if i < at {
                    assert(entries[i].0 == k);
                } else {
                    assert(entries[i - 1].0 == k);
                }
            }
        }
        if k != key && has_key(entries, k) {
            let i = index_of(entries, k);
            if replaced {
                assert(after[i].0 == k);
            } else if i < at {
                assert(after[i].0 == k);
            } else {
                assert(after[i + 1].0 == k);
            }
        }
        if k == key {
            assert(after[at].0 == k);
        }
    }
    assert forall|k: Seq<char>| #[trigger] content(after).dom().contains(k) implies content(
        after,
    )[k] == want[k] by {
        let i = index_of(after, k);
        if k == key {
            lemma_sorted_keys_differ(after, i, at);
        } else {
            let old_i = if replaced || i < at {
                i
            } else {
                i - 1
            };
            assert(entries[old_i] == after[i]);
            lemma_sorted_keys_differ(entries, old_i, index_of(entries, k));
        }
    }
    assert(content(after) =~= want);
}

/// Ascending entries that hold the same are the same.
pub proof fn lemma_sorted_same_content(a: Seq<(Seq<char>, Frame)>, b: Seq<(Seq<char>, Frame)>)
    requires
        sorted(a),
        sorted(b),
        content(a) == content(b),
    ensures
        a == b,
    decreases a.len(),
{
    if a.len() == 0 {
        if b.len() > 0 {
            assert(has_key(b, b[0].0));
            assert(content(b).dom().contains(b[0].0));
            assert(content(a).dom().contains(b[0].0));
        }
        assert(a =~= b);
    } else {
        assert(has_key(a, a[0].0));
        assert(content(a).dom().contains(a[0].0));
        assert(content(b).dom().contains(a[0].0));
        assert(b.len() > 0);
        assert(has_key(b, b[0].0));
        assert(content(b).dom().contains(b[0].0));
        assert(content(a).dom().contains(b[0].0));
        let j = index_of(b, a[0].0);
        let k = index_of(a, b[0].0);
        // a[0].0 == b[j].0 and b[0].0 == a[k].0
        if j > 0 {
            // b[0] < b[j] == a[0] <= a[k] == b[0]
            assert(key_lt(b[0].0, b[j].0));
            if k > 0 {
                assert(key_lt(a[0].0, a[k].0));
                lemma_key_lt_asymmetric(b[0].0, b[j].0);
            } else {
                lemma_key_lt_irreflexive(a[0].0);
            }
        }
        assert(j == 0);
        lemma_sorted_keys_differ(a, 0, index_of(a, a[0].0));
        lemma_sorted_keys_differ(b, 0, index_of(b, a[0].0));
        assert(content(a)[a[0].0] == a[0].1);
        assert(content(b)[a[0].0] == b[0].1);
        assert(a[0] == b[0]);
        let a_rest = a.drop_first();
        let b_rest = b.drop_first();
        assert(sorted(a_rest)) by {
            assert forall|i: int, j: int| 0 <= i < j < a_rest.len() implies key_lt(
                (#[trigger] a_rest[i]).0,
                (#[trigger] a_rest[j]).0,
            ) by {
                assert(a_rest[i] == a[i + 1] && a_rest[j] == a[j + 1]);
            }
        }
        assert(sorted(b_rest)) by {
            assert forall|i: int, j: int| 0 <= i < j < b_rest.len() implies key_lt(
                (#[trigger] b_rest[i]).0,
                (#[trigger] b_rest[j]).0,
            ) by {
                assert(b_rest[i] == b[i + 1] && b_rest[j] == b[j + 1]);
            }
        }
        lemma_rest_content(a);
        lemma_rest_content(b);
        assert(content(a_rest) =~= content(b_rest));
        lemma_sorted_same_content(a_rest, b_rest);
        assert(a =~= seq![a[0]] + a_rest);
        assert(b =~= seq![b[0]] + b_rest);
    }
}

/// What ascending entries hold after their first: what they all hold, without
/// the first key.
pub proof fn lemma_rest_content(entries: Seq<(Seq<char>, Frame)>)
    requires
        sorted(entries),
        entries.len() > 0,
    ensures
        content(entries.drop_first()) == content(entries).remove(entries[0].0),
{
    let rest = entries.drop_first();
    let want = content(entries).remove(entries[0].0);
    assert forall|k: Seq<char>| #[trigger] content(rest).dom().contains(k) == want.dom().contains(
        k,
    ) by {
        if has_key(rest, k) {
            let i = index_of(rest, k);
            assert(entries[i + 1].0 == k);
            if k == entries[0].0 {
                lemma_sorted_keys_differ(entries, 0, i + 1);
            }
        }
        if k != entries[0].0 && has_key(entries, k) {
            let i = index_of(entries, k);
            assert(rest[i - 1].0 == k);
        }
    }
    assert forall|k: Seq<char>| #[trigger] content(rest).dom().contains(k) implies content(rest)[k]
        == want[k] by {
        let i = index_of(rest, k);
        assert(entries[i + 1] == rest[i]);
        lemma_sorted_keys_differ(entries, i + 1, index_of(entries, k));
    }
    assert(content(rest) =~= want);
}

/// Appends the entries of `m` to `buf`, one after the other.
pub fn write_map_entries(m: &RespMap, buf: &mut Vec<u8>)
    ensures
        final(buf)@ == old(buf)@ + wire_entries(m@),
    decreases m,
{
    write_entries(&m.entries, buf);
}

/// The number of bytes of the entries of `m`, if a machine word can hold it.
pub fn map_entries_len(m: &RespMap) -> (r: Option<usize>)
    ensures
        measures(r, wire_entries(m@).len()),
    decreases m,
{
    entries_len(&m.entries)
}

/// A copy of `m`.
pub fn copy_map(m: &RespMap) -> (r: RespMap)
    ensures
        r@ == m@,
    decreases m,
{
    proof {
        use_type_invariant(m);
    }
    RespMap { entries: copy_entries(&m.entries) }
}

impl Clone for RespMap {
    fn clone(&self) -> (r: Self)
        ensures
            r@ == self@,
    {
        copy_map(self)
    }
}

impl Default for RespMap {
    /// A map without entries.
    fn default() -> (r: Self)
        ensures
            r@ == Seq::<(Seq<char>, Frame)>::empty(),
            r.wf(),
    {
        RespMap::new()
    }
}

impl RespMap {
    /// The entries of a map stand in ascending order of their keys.
    #[verifier::type_invariant]
    spec fn ascending(self) -> bool {
        sorted(map_view(self))
    }

    /// Whether the entries stand in ascending order of their keys. They do in
    /// every map: see [`RespMap::in_order`].
    pub open spec fn wf(&self) -> bool {
        sorted(self@)
    }

    /// Tells that the entries stand in ascending order of their keys. There
    /// is nothing to run.
    pub fn in_order(&self)
        ensures
            self.wf(),
    {
        proof {
            use_type_invariant(self);
        }
    }

    /// What the map holds: each key with its value.
    pub open spec fn content(&self) -> Map<Seq<char>, Frame> {
        content(self@)
    }

    /// A map without entries.
    pub fn new() -> (r: Self)
        ensures
            r@ == Seq::<(Seq<char>, Frame)>::empty(),
            r.wf(),
    {
        let r = RespMap { entries: Vec::new() };
        assert(r@ =~= Seq::<(Seq<char>, Frame)>::empty());
        r
    }

    /// The number of entries.
    pub fn len(&self) -> (n: usize)
        ensures
            n == self@.len(),
    {
        self.entries.len()
    }

    /// Whether the map has no entry.
    pub fn is_empty(&self) -> (b: bool)
        ensures
            b == (self@.len() == 0),
    {
        self.entries.len() == 0
    }

    /// The entries, in ascending order of their keys.
    pub fn into_entries(self) -> (entries: Vec<(String, RespFrame)>)
        ensures
            entries_view(entries@) == self@,
    {
        self.entries
    }

    /// The index of the first entry whose key does not stand before `key`.
    fn position(&self, key: &str) -> (at: usize)
        ensures
            at == first_not_below(self@, key@, 0),
            at <= self@.len(),
    {
        let mut i: usize = 0;
        while i < self.entries.len() && key_before(self.entries[i].0.as_str(), key)
            invariant
                0 <= i <= self.entries@.len(),
                first_not_below(self@, key@, 0) == first_not_below(self@, key@, i as int),
            decreases self.entries@.len() - i,
        {
            i = i + 1;
        }
        i
    }

    /// Puts `value` under `key`, and returns the value that stood there.
    pub fn insert(&mut self, key: String, value: RespFrame) -> (prev: Option<RespFrame>)
        ensures
            final(self)@ == insert_entry(old(self)@, key@, value@),
            final(self).wf(),
            final(self).content() == old(self).content().insert(key@, value@),
            match prev {
                Some(p) => old(self).content().contains_key(key@) && p@ == old(
                    self,
                ).content()[key@],
                None => !old(self).content().contains_key(key@),
            },
    {
        proof {
            use_type_invariant(&*self);
        }
        let at = self.position(key.as_str());
        let ghost before = self@;
        proof {
            lemma_first_not_below(before, key@, 0);
            lemma_insert_keeps_sorted(before, key@, value@);
            lemma_insert_content(before, key@, value@);
        }
        let mut taken = RespMap { entries: Vec::new() };
        assert(taken@ =~= Seq::<(Seq<char>, Frame)>::empty());
        core::mem::swap(self, &mut taken);
        let mut entries = taken.entries;
        if at < entries.len() && same_key(entries[at].0.as_str(), key.as_str()) {
            let old_entry = entries.remove(at);
            entries.insert(at, (key, value));
            proof {
                assert(entries_view(entries@) =~= insert_entry(before, key@, value@));
                assert(has_key(before, key@));
                lemma_sorted_keys_differ(before, at as int, index_of(before, key@));
            }
            *self = RespMap { entries };
            Some(old_entry.1)
        } else {
            entries.insert(at, (key, value));
            proof {
                assert(entries_view(entries@) =~= insert_entry(before, key@, value@));
                if has_key(before, key@) {
                    let i = index_of(before, key@);
                    if i < at {
                        lemma_key_lt_irreflexive(key@);
                    } else if i > at {
                        lemma_key_lt_total(before[at as int].0, key@);
                        lemma_key_lt_asymmetric(before[at as int].0, before[i].0);
                    }
                }
            }
            *self = RespMap { entries };
            None
        }
    }

    /// The value under `key`, if there is one.
    pub fn get(&self, key: &str) -> (r: Option<&RespFrame>)
        ensures
            match r {
                Some(v) => self.content().contains_key(key@) && v@ == self.content()[key@],
                None => !self.content().contains_key(key@),
            },
    {
        let at = self.position(key);
        proof {
            use_type_invariant(self);
            lemma_first_not_below(self@, key@, 0);
        }
        if at < self.entries.len() && same_key(self.entries[at].0.as_str(), key) {
            proof {
                assert(has_key(self@, key@));
                if sorted(self@) {
                    lemma_sorted_keys_differ(self@, at as int, index_of(self@, key@));
                }
            }
            Some(&self.entries[at].1)
        } else {
            proof {
                if sorted(self@) && has_key(self@, key@) {
                    let i = index_of(self@, key@);
                    if i < at {
                        lemma_key_lt_irreflexive(key@);
                    } else if i > at {
                        lemma_key_lt_total(self@[at as int].0, key@);
                        lemma_key_lt_asymmetric(self@[at as int].0, self@[i].0);
                    }
                }
            }
            None
        }
    }
}

} // verus!
