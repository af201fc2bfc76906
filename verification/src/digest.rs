//! Structural content digests and reference extraction.
//!
//! A JSON-like value is folded into a canonical byte stream — object keys
//! sorted, array order kept, scalars rendered as type-tagged text — and the
//! stream is hashed. Two documents that differ only in object key order thus
//! hash identically, while a change in any value, key set or array order
//! changes the stream. The `$ref` targets below a value are collected in the
//! same traversal.

use vstd::prelude::*;
use vstd::relations::{sorted_by, total_ordering, transitive};
use vstd::multiset::Multiset;
use vstd::seq_lib::lemma_multiset_commutative;
use vstd::string::StrSliceExecFns;
use vstd::utf8::encode_utf8;

use sha2::Digest;

use crate::json::{JsonVal, JsonValue};
use crate::text::{chars_lt, lemma_chars_lt_transitive, lemma_chars_lt_trichotomy, str_eq, strip_all, strip_occurrences};

verus! {

/// Strict lexicographic order on byte sequences.
pub open spec fn bytes_lt(a: Seq<u8>, b: Seq<u8>) -> bool
    decreases a.len(),
{
    if b.len() == 0 {
        false
    } else if a.len() == 0 {
        true
    } else if a[0] != b[0] {
        a[0] < b[0]
    } else {
        bytes_lt(a.drop_first(), b.drop_first())
    }
}

/// A digest entry: an object key with the canonical bytes of its value.
/// Entries are ordered by key, with the bytes breaking ties, which makes the
/// order total.
pub open spec fn entry_le(x: (Seq<char>, Seq<u8>), y: (Seq<char>, Seq<u8>)) -> bool {
    if x.0 != y.0 {
        chars_lt(x.0, y.0)
    } else {
        bytes_lt(x.1, y.1) || x.1 == y.1
    }
}

/// The entry order as a function value, for `sort_by`.
pub open spec fn entry_leq() -> spec_fn((Seq<char>, Seq<u8>), (Seq<char>, Seq<u8>)) -> bool {
    |x: (Seq<char>, Seq<u8>), y: (Seq<char>, Seq<u8>)| entry_le(x, y)
}

/// Canonical byte stream of a value.
///
/// Objects contribute `{`, then for each field in key-sorted order the key's
/// bytes, `:` and the field value's stream, then `}`. Arrays contribute `[`,
/// the members' streams in order, `]`. Strings are quoted, other scalars are
/// their canonical text.
pub open spec fn canon_bytes(v: JsonVal) -> Seq<u8>
    decreases v,
{
    match v {
        JsonVal::Null => encode_utf8("null"@),
        JsonVal::Bool(b) => if b {
            encode_utf8("true"@)
        } else {
            encode_utf8("false"@)
        },
        JsonVal::Num(t) => encode_utf8(t),
        JsonVal::Str(s) => seq![34u8] + encode_utf8(s) + seq![34u8],
        JsonVal::Arr(items) => seq![91u8] + arr_canon(items) + seq![93u8],
        JsonVal::Obj(fields) => seq![123u8] + cat_entries(
            entries_of(fields).sort_by(entry_leq()),
        ) + seq![125u8],
    }
}

/// Concatenated canonical streams of array members, in array order.
pub open spec fn arr_canon(items: Seq<JsonVal>) -> Seq<u8>
    decreases items,
{
    if items.len() == 0 {
        Seq::empty()
    } else {
        canon_bytes(items[0]) + arr_canon(items.drop_first())
    }
}

/// Digest entries of an object's fields, in field order.
pub open spec fn entries_of(fields: Seq<(Seq<char>, JsonVal)>) -> Seq<(Seq<char>, Seq<u8>)>
    decreases fields,
{
    if fields.len() == 0 {
        Seq::empty()
    } else {
        seq![(fields[0].0, canon_bytes(fields[0].1))] + entries_of(fields.drop_first())
    }
}

/// Byte stream of a run of digest entries.
pub open spec fn cat_entries(es: Seq<(Seq<char>, Seq<u8>)>) -> Seq<u8>
    decreases es.len(),
{
    if es.len() == 0 {
        Seq::empty()
    } else {
        encode_utf8(es[0].0) + seq![58u8] + es[0].1 + cat_entries(es.drop_first())
    }
}

/// A reference target with the dialect prefixes removed.
pub open spec fn clean_ref(s: Seq<char>) -> Seq<char> {
    strip_occurrences(strip_occurrences(s, "#/definitions/"@), "#/components/schemas/"@)
}

/// The `$ref` targets found anywhere beneath a value, already cleaned.
pub open spec fn ref_set(v: JsonVal) -> Set<Seq<char>>
    decreases v,
{
    match v {
        JsonVal::Arr(items) => seq_refs(items),
        JsonVal::Obj(fields) => fields_refs(fields),
        _ => Set::empty(),
    }
}

pub open spec fn seq_refs(items: Seq<JsonVal>) -> Set<Seq<char>>
    decreases items,
{
    if items.len() == 0 {
        Set::empty()
    } else {
        ref_set(items[0]).union(seq_refs(items.drop_first()))
    }
}

pub open spec fn fields_refs(fields: Seq<(Seq<char>, JsonVal)>) -> Set<Seq<char>>
    decreases fields,
{
    if fields.len() == 0 {
        Set::empty()
    } else {
        field_ref(fields[0]).union(ref_set(fields[0].1)).union(fields_refs(fields.drop_first()))
    }
}

/// The target contributed by one field itself: a string-valued `$ref` member.
pub open spec fn field_ref(f: (Seq<char>, JsonVal)) -> Set<Seq<char>> {
    if f.0 == "$ref"@ && f.1 is Str {
        Set::empty().insert(clean_ref(f.1->Str_0))
    } else {
        Set::empty()
    }
}

/// What the digest function computes from a byte stream.
pub uninterp spec fn sha256_of(b: Seq<u8>) -> Seq<u8>;

/// Relies on sha2::Sha256 via the Digest interface: the digest is a function
/// of the input bytes alone and is 32 bytes long.
#[verifier::external_body]
fn sha256_digest(data: &Vec<u8>) -> (r: Vec<u8>)
    ensures
        r@ == sha256_of(data@),
        r@.len() == 32,
{
    let mut hasher = sha2::Sha256::new();
    hasher.update(data.as_slice());
    let result = hasher.finalize();
    result.to_vec()
}

/// The sixteen lower-case hexadecimal digit characters, by value.
pub open spec fn hex_digit_char(d: int) -> char {
    if d < 10 {
        crate::text::dec_digit_char(d)
    } else if d == 10 { 'a' } else if d == 11 { 'b' } else if d == 12 { 'c' }
    else if d == 13 { 'd' } else if d == 14 { 'e' } else { 'f' }
}

/// Lower-case hexadecimal rendering: two digits per byte, high nibble first.
pub open spec fn hex_of(b: Seq<u8>) -> Seq<char>
    decreases b.len(),
{
    if b.len() == 0 {
        Seq::empty()
    } else {
        seq![
            hex_digit_char((b[0] >> 4) as int),
            hex_digit_char((b[0] & 0x0f) as int),
        ] + hex_of(b.drop_first())
    }
}

/// Relies on hex::encode: each byte becomes its two lower-case hexadecimal
/// digits, high nibble first, in byte order.
#[verifier::external_body]
fn hex_encode(data: &Vec<u8>) -> (r: String)
    ensures
        r@ == hex_of(data@),
{
    hex::encode(data.as_slice())
}

/// The content digest of a value: the first eight bytes of the hash of its
/// canonical stream, in hexadecimal.
pub open spec fn digest_of(v: JsonVal) -> Seq<char> {
    hex_of(sha256_of(canon_bytes(v)).take(8))
}

/// Order lemmas for byte sequences, mirroring those for character sequences.
proof fn lemma_bytes_lt_trichotomy(a: Seq<u8>, b: Seq<u8>)
    ensures
        bytes_lt(a, b) || a == b || bytes_lt(b, a),
        bytes_lt(a, b) ==> a != b,
        bytes_lt(a, b) ==> !bytes_lt(b, a),
    decreases a.len(),
{
    if b.len() == 0 {
        if a.len() == 0 {
            assert(a =~= b);
        } else {
            assert(bytes_lt(b, a));
        }
    } else if a.len() == 0 {
        assert(a != b);
    } else if a[0] != b[0] {
        assert(a != b);
        assert(bytes_lt(b, a) == (b[0] < a[0]));
    } else {
        assert(bytes_lt(b, a) == bytes_lt(b.drop_first(), a.drop_first()));
        lemma_bytes_lt_trichotomy(a.drop_first(), b.drop_first());
        if a.drop_first() == b.drop_first() {
            assert(a =~= b) by {
                assert(a.len() == b.len());
                assert forall|i: int| 0 <= i < a.len() implies a[i] == b[i] by {
                    if i > 0 {
                        assert(a[i] == a.drop_first()[i - 1]);
                        assert(b[i] == b.drop_first()[i - 1]);
                    }
                }
            }
        }
        if a == b {
            assert(a.drop_first() =~= b.drop_first());
        }
    }
}

proof fn lemma_bytes_lt_transitive(a: Seq<u8>, b: Seq<u8>, c: Seq<u8>)
    requires
        bytes_lt(a, b),
        bytes_lt(b, c),
    ensures
        bytes_lt(a, c),
    decreases a.len(),
{
    if a.len() == 0 {
    } else if b.len() == 0 {
    } else if c.len() == 0 {
    } else {
        if a[0] == b[0] && b[0] == c[0] {
            lemma_bytes_lt_transitive(a.drop_first(), b.drop_first(), c.drop_first());
        }
    }
}

/// The entry order is a total ordering, so sorting under it has one result.
proof fn lemma_entry_leq_total_ordering()
    ensures
        total_ordering(entry_leq()),
{
    let leq = entry_leq();
    assert forall|x: (Seq<char>, Seq<u8>)| #[trigger] leq(x, x) by {
        lemma_bytes_lt_trichotomy(x.1, x.1);
    }
    assert forall|x: (Seq<char>, Seq<u8>), y: (Seq<char>, Seq<u8>)|
        #[trigger] leq(x, y) && leq(y, x) implies x == y by {
        lemma_chars_lt_trichotomy(x.0, y.0);
        lemma_bytes_lt_trichotomy(x.1, y.1);
    }
    assert forall|x: (Seq<char>, Seq<u8>), y: (Seq<char>, Seq<u8>), z: (Seq<char>, Seq<u8>)|
        #[trigger] leq(x, y) && #[trigger] leq(y, z) implies leq(x, z) by {
        if x.0 == y.0 && y.0 == z.0 {
            if bytes_lt(x.1, y.1) && bytes_lt(y.1, z.1) {
                lemma_bytes_lt_transitive(x.1, y.1, z.1);
            }
        } else if x.0 == y.0 {
        } else if y.0 == z.0 {
        } else {
            lemma_chars_lt_transitive(x.0, y.0, z.0);
            lemma_chars_lt_trichotomy(x.0, z.0);
        }
    }
    assert forall|x: (Seq<char>, Seq<u8>), y: (Seq<char>, Seq<u8>)|
        #[trigger] leq(x, y) || #[trigger] leq(y, x) by {
        lemma_chars_lt_trichotomy(x.0, y.0);
        lemma_bytes_lt_trichotomy(x.1, y.1);
    }
}

/// Inserting anywhere adds one occurrence to the multiset.
proof fn lemma_insert_to_multiset<A>(s: Seq<A>, pos: int, e: A)
    requires
        0 <= pos <= s.len(),
    ensures
        s.insert(pos, e).to_multiset() =~= s.to_multiset().insert(e),
{
    broadcast use vstd::multiset::group_multiset_axioms;
    broadcast use vstd::seq_lib::group_to_multiset_ensures;

    let head = s.take(pos);
    let tail = s.skip(pos);
    assert(s.insert(pos, e) =~= head + (seq![e] + tail));
    assert(s =~= head + tail);
    lemma_multiset_commutative(head, seq![e] + tail);
    lemma_multiset_commutative(seq![e], tail);
    lemma_multiset_commutative(head, tail);
    assert(seq![e].to_multiset() =~= Multiset::<A>::empty().insert(e)) by {
        assert(seq![e].drop_first() =~= Seq::<A>::empty());
    }
}

/// When two byte slices agree on a prefix, the order is decided past it.
proof fn lemma_bytes_lt_skip_prefix(a: Seq<u8>, b: Seq<u8>, k: int)
    requires
        0 <= k <= a.len(),
        k <= b.len(),
        forall|j: int| 0 <= j < k ==> a[j] == b[j],
    ensures
        bytes_lt(a, b) == bytes_lt(a.skip(k), b.skip(k)),
    decreases k,
{
    if k == 0 {
        assert(a.skip(0) =~= a);
        assert(b.skip(0) =~= b);
    } else {
        assert(a.len() > 0 && b.len() > 0);
        assert(a[0] == b[0]);
        lemma_bytes_lt_skip_prefix(a.drop_first(), b.drop_first(), k - 1);
        assert(a.drop_first().skip(k - 1) =~= a.skip(k));
        assert(b.drop_first().skip(k - 1) =~= b.skip(k));
    }
}

/// Strict lexicographic comparison of byte vectors.
fn bytes_lt_exec(a: &Vec<u8>, b: &Vec<u8>) -> (r: bool)
    ensures
        r == bytes_lt(a@, b@),
{
    let alen = a.len();
    let blen = b.len();
    let mut i: usize = 0;
    loop
        invariant
            0 <= i <= alen,
            i <= blen,
            alen == a@.len(),
            blen == b@.len(),
            forall|j: int| 0 <= j < i ==> a@[j] == b@[j],
        decreases alen - i,
    {
        proof {
            lemma_bytes_lt_skip_prefix(a@, b@, i as int);
        }
        if i == alen {
            assert(a@.skip(i as int) =~= Seq::<u8>::empty());
            return i < blen;
        }
        if i == blen {
            return false;
        }
        let ca = a[i];
        let cb = b[i];
        if ca != cb {
            assert(a@.skip(i as int)[0] == ca);
            assert(b@.skip(i as int)[0] == cb);
            return ca < cb;
        }
        i += 1;
    }
}

/// Views of collected entries.
pub open spec fn entry_views(s: Seq<(String, Vec<u8>)>) -> Seq<(Seq<char>, Seq<u8>)> {
    s.map_values(|e: (String, Vec<u8>)| (e.0@, e.1@))
}

/// Comparison of collected entries under the entry order.
fn entry_le_exec(a: &(String, Vec<u8>), b: &(String, Vec<u8>)) -> (r: bool)
    ensures
        r == entry_le((a.0@, a.1@), (b.0@, b.1@)),
{
    if str_eq(a.0.as_str(), b.0.as_str()) {
        if bytes_lt_exec(&a.1, &b.1) {
            true
        } else {
            byte_seqs_eq(&a.1, &b.1)
        }
    } else {
        crate::text::str_lt(a.0.as_str(), b.0.as_str())
    }
}

/// Equality of byte vectors.
fn byte_seqs_eq(a: &Vec<u8>, b: &Vec<u8>) -> (r: bool)
    ensures
        r == (a@ == b@),
{
    if a.len() != b.len() {
        return false;
    }
    let n = a.len();
    let mut i: usize = 0;
    while i < n
        invariant
            0 <= i <= n,
            n == a@.len(),
            n == b@.len(),
            forall|j: int| 0 <= j < i ==> a@[j] == b@[j],
        decreases n - i,
    {
        if a[i] != b[i] {
            return false;
        }
        i += 1;
    }
    proof {
        assert(a@ =~= b@);
    }
    true
}

/// The position before which `next` must be inserted to keep `out` sorted:
/// the first index whose entry does not precede `next`.
fn find_insert_pos(out: &Vec<(String, Vec<u8>)>, next: &(String, Vec<u8>)) -> (p: usize)
    ensures
        0 <= p <= out@.len(),
        forall|j: int| 0 <= j < p ==> entry_le(#[trigger] entry_views(out@)[j], (next.0@, next.1@)),
        p < out@.len() ==> !entry_le(entry_views(out@)[p as int], (next.0@, next.1@)),
{
    let n = out.len();
    let mut p: usize = 0;
    while p < n
        invariant
            0 <= p <= n,
            n == out@.len(),
            forall|j: int|
                0 <= j < p ==> entry_le(#[trigger] entry_views(out@)[j], (next.0@, next.1@)),
        decreases n - p,
    {
        let le = entry_le_exec(&out[p], next);
        assert(entry_views(out@)[p as int] == (out@[p as int].0@, out@[p as int].1@));
        if !le {
            return p;
        }
        p += 1;
    }
    p
}

/// Sorts digest entries under the entry order; the result is exactly the
/// specification-level sort of the input.
fn sort_entries(es: &mut Vec<(String, Vec<u8>)>)
    ensures
        entry_views(final(es)@) == entry_views(old(es)@).sort_by(entry_leq()),
{
    let ghost input = entry_views(es@);
    let mut out: Vec<(String, Vec<u8>)> = Vec::new();
    proof {
        assert(entry_views(out@) =~= Seq::<(Seq<char>, Seq<u8>)>::empty());
        assert(entry_views(out@).to_multiset().add(entry_views(es@).to_multiset())
            =~= input.to_multiset()) by {
            broadcast use vstd::multiset::group_multiset_axioms;
            vstd::seq_lib::lemma_multiset_commutative(entry_views(out@), entry_views(es@));
            assert(entry_views(out@) + entry_views(es@) =~= entry_views(es@));
        }
    }
    while es.len() > 0
        invariant
            sorted_by(entry_views(out@), entry_leq()),
            entry_views(out@).to_multiset().add(entry_views(es@).to_multiset())
                =~= input.to_multiset(),
        decreases es@.len(),
    {
        let ghost es_before = es@;
        let next = es.pop().unwrap();
        let ghost ev = (next.0@, next.1@);
        proof {
            assert(es_before =~= es@.push(next));
            assert(entry_views(es_before) =~= entry_views(es@).push(ev));
            vstd::seq_lib::to_multiset_build(entry_views(es@), ev);
        }
        let p = find_insert_pos(&out, &next);
        proof {
            lemma_entry_leq_total_ordering();
            if (p as int) < out@.len() {
                assert(entry_leq()(entry_views(out@)[p as int], ev)
                    || entry_leq()(ev, entry_views(out@)[p as int]));
                assert(entry_le(ev, entry_views(out@)[p as int]));
            }
        }
        let ghost before = entry_views(out@);
        out.insert(p, next);
        proof {
            assert(entry_views(out@) =~= before.insert(p as int, ev));
            before.insert_ensures(p as int, ev);
            lemma_insert_to_multiset(before, p as int, ev);
            let now = before.insert(p as int, ev);
            assert forall|x: int, y: int| 0 <= x < y < now.len() implies entry_leq()(
                #[trigger] now[x],
                #[trigger] now[y],
            ) by {
                assert(sorted_by(before, entry_leq()));
                if x < p && y < p {
                    assert(now[x] == before[x] && now[y] == before[y]);
                    assert(entry_leq()(before[x], before[y]));
                } else if x < p && y == p {
                    assert(now[x] == before[x] && now[y] == ev);
                    assert(entry_le(before[x], ev));
                } else if x < p && y > p {
                    assert(now[x] == before[x] && now[y] == before[y - 1]);
                    assert(entry_leq()(before[x], before[y - 1]));
                } else if x == p && y > p {
                    assert(now[x] == ev && now[y] == before[y - 1]);
                    assert(p < before.len());
                    assert(entry_le(ev, before[p as int]));
                    if y - 1 > p {
                        assert(entry_leq()(before[p as int], before[y - 1]));
                        assert(entry_leq()(ev, before[y - 1]));
                    }
                } else {
                    assert(x > p);
                    assert(now[x] == before[x - 1] && now[y] == before[y - 1]);
                    assert(entry_leq()(before[x - 1], before[y - 1]));
                }
            }
            assert(sorted_by(entry_views(out@), entry_leq()));
            assert(entry_views(out@).to_multiset().add(entry_views(es@).to_multiset())
                =~= input.to_multiset()) by {
                broadcast use vstd::multiset::group_multiset_axioms;
            }
        }
    }
    proof {
        assert(entry_views(es@) =~= Seq::<(Seq<char>, Seq<u8>)>::empty());
        assert(entry_views(out@).to_multiset() =~= input.to_multiset()) by {
            broadcast use vstd::multiset::group_multiset_axioms;
            vstd::seq_lib::lemma_multiset_commutative(entry_views(out@), entry_views(es@));
            assert(entry_views(out@) + entry_views(es@) =~= entry_views(out@));
        }
        lemma_entry_leq_total_ordering();
        input.lemma_sort_by_ensures(entry_leq());
        vstd::seq_lib::lemma_sorted_unique(
            entry_views(out@),
            input.sort_by(entry_leq()),
            entry_leq(),
        );
        assert(entry_views(out@) =~= input.sort_by(entry_leq()));
    }
    *es = out;
}

/// Views of a string vector.
pub open spec fn str_views(rs: Seq<String>) -> Seq<Seq<char>> {
    rs.map_values(|s: String| s@)
}

/// Appending an element inserts its view into the set of views.
pub(crate) proof fn lemma_push_to_set<A>(s: Seq<A>, e: A)
    ensures
        s.push(e).to_set() =~= s.to_set().insert(e),
{
    assert forall|x: A| s.push(e).to_set().contains(x) implies s.to_set().insert(e).contains(
        x,
    ) by {
        let i = choose|i: int| 0 <= i < s.push(e).len() && s.push(e)[i] == x;
        if i < s.len() {
            assert(s[i] == x);
        }
    }
    assert forall|x: A| s.to_set().insert(e).contains(x) implies s.push(e).to_set().contains(
        x,
    ) by {
        if s.to_set().contains(x) {
            let i = choose|i: int| 0 <= i < s.len() && s[i] == x;
            assert(s.push(e)[i] == x);
        } else {
            assert(s.push(e)[s.len() as int] == e);
        }
    }
}

/// Inserting an element anywhere inserts it into the set of elements.
proof fn lemma_insert_to_set<A>(s: Seq<A>, pos: int, e: A)
    requires
        0 <= pos <= s.len(),
    ensures
        s.insert(pos, e).to_set() =~= s.to_set().insert(e),
{
    s.insert_ensures(pos, e);
    let t = s.insert(pos, e);
    assert forall|x: A| t.to_set().contains(x) implies s.to_set().insert(e).contains(x) by {
        let i = choose|i: int| 0 <= i < t.len() && t[i] == x;
        if i < pos {
            assert(s[i] == x);
        } else if i == pos {
        } else {
            assert(s[i - 1] == x);
        }
    }
    assert forall|x: A| s.to_set().insert(e).contains(x) implies t.to_set().contains(x) by {
        if s.to_set().contains(x) {
            let i = choose|i: int| 0 <= i < s.len() && s[i] == x;
            if i < pos {
                assert(t[i] == x);
            } else {
                assert(t[i + 1] == x);
            }
        } else {
            assert(t[pos] == e);
        }
    }
}

/// Step lemmas for the canonical stream of a growing prefix.
proof fn lemma_arr_canon_push(p: Seq<JsonVal>, v: JsonVal)
    ensures
        arr_canon(p.push(v)) == arr_canon(p) + canon_bytes(v),
    decreases p.len(),
{
    if p.len() == 0 {
        assert(p.push(v).drop_first() =~= Seq::<JsonVal>::empty());
        assert(arr_canon(p) + canon_bytes(v) =~= canon_bytes(v) + arr_canon(
            Seq::<JsonVal>::empty(),
        ));
    } else {
        lemma_arr_canon_push(p.drop_first(), v);
        assert(p.push(v).drop_first() =~= p.drop_first().push(v));
        assert(arr_canon(p.push(v)) == canon_bytes(p[0]) + arr_canon(p.drop_first().push(v)));
        assert(canon_bytes(p[0]) + (arr_canon(p.drop_first()) + canon_bytes(v)) =~= (canon_bytes(
            p[0],
        ) + arr_canon(p.drop_first())) + canon_bytes(v));
    }
}

proof fn lemma_entries_of_push(p: Seq<(Seq<char>, JsonVal)>, f: (Seq<char>, JsonVal))
    ensures
        entries_of(p.push(f)) =~= entries_of(p).push((f.0, canon_bytes(f.1))),
    decreases p.len(),
{
    if p.len() == 0 {
        assert(p.push(f)[0] == f);
        assert(p.push(f).drop_first() =~= Seq::<(Seq<char>, JsonVal)>::empty());
        assert(entries_of(Seq::<(Seq<char>, JsonVal)>::empty())
            =~= Seq::<(Seq<char>, Seq<u8>)>::empty());
        assert(entries_of(p.push(f)) =~= seq![(f.0, canon_bytes(f.1))]);
        assert(entries_of(p).push((f.0, canon_bytes(f.1))) =~= seq![(f.0, canon_bytes(f.1))]);
    } else {
        lemma_entries_of_push(p.drop_first(), f);
        assert(p.push(f)[0] == p[0]);
        assert(p.push(f).drop_first() =~= p.drop_first().push(f));
        assert(seq![(p[0].0, canon_bytes(p[0].1))] + entries_of(p.drop_first()).push((
            f.0,
            canon_bytes(f.1),
        )) =~= (seq![(p[0].0, canon_bytes(p[0].1))] + entries_of(p.drop_first())).push((
            f.0,
            canon_bytes(f.1),
        )));
    }
}

proof fn lemma_cat_entries_push(p: Seq<(Seq<char>, Seq<u8>)>, e: (Seq<char>, Seq<u8>))
    ensures
        cat_entries(p.push(e)) == cat_entries(p) + (encode_utf8(e.0) + seq![58u8] + e.1),
    decreases p.len(),
{
    if p.len() == 0 {
        assert(p.push(e)[0] == e);
        assert(p.push(e).drop_first() =~= Seq::<(Seq<char>, Seq<u8>)>::empty());
        assert(cat_entries(Seq::<(Seq<char>, Seq<u8>)>::empty()) =~= Seq::<u8>::empty());
        assert(cat_entries(p.push(e)) =~= encode_utf8(e.0) + seq![58u8] + e.1);
        assert(cat_entries(p) + (encode_utf8(e.0) + seq![58u8] + e.1) =~= encode_utf8(e.0)
            + seq![58u8] + e.1);
    } else {
        assert(p.push(e)[0] == p[0]);
        lemma_cat_entries_push(p.drop_first(), e);
        assert(p.push(e).drop_first() =~= p.drop_first().push(e));
        assert(cat_entries(p.push(e)) == encode_utf8(p[0].0) + seq![58u8] + p[0].1 + cat_entries(
            p.drop_first().push(e),
        ));
        assert(encode_utf8(p[0].0) + seq![58u8] + p[0].1 + (cat_entries(p.drop_first())
            + (encode_utf8(e.0) + seq![58u8] + e.1)) =~= (encode_utf8(p[0].0) + seq![58u8] + p[0].1
            + cat_entries(p.drop_first())) + (encode_utf8(e.0) + seq![58u8] + e.1));
    }
}

proof fn lemma_seq_refs_push(p: Seq<JsonVal>, v: JsonVal)
    ensures
        seq_refs(p.push(v)) =~= seq_refs(p).union(ref_set(v)),
    decreases p.len(),
{
    if p.len() == 0 {
        assert(p.push(v)[0] == v);
        assert(p.push(v).drop_first() =~= Seq::<JsonVal>::empty());
        assert(seq_refs(Seq::<JsonVal>::empty()) =~= Set::<Seq<char>>::empty());
        assert(seq_refs(p.push(v)) =~= ref_set(v).union(Set::empty()));
    } else {
        lemma_seq_refs_push(p.drop_first(), v);
        assert(p.push(v)[0] == p[0]);
        assert(p.push(v).drop_first() =~= p.drop_first().push(v));
    }
}

proof fn lemma_fields_refs_push(p: Seq<(Seq<char>, JsonVal)>, f: (Seq<char>, JsonVal))
    ensures
        fields_refs(p.push(f)) =~= fields_refs(p).union(field_ref(f)).union(ref_set(f.1)),
    decreases p.len(),
{
    if p.len() == 0 {
        assert(p.push(f)[0] == f);
        assert(p.push(f).drop_first() =~= Seq::<(Seq<char>, JsonVal)>::empty());
        assert(fields_refs(Seq::<(Seq<char>, JsonVal)>::empty()) =~= Set::<Seq<char>>::empty());
        assert(fields_refs(p.push(f)) =~= field_ref(f).union(ref_set(f.1)));
        assert(fields_refs(p).union(field_ref(f)).union(ref_set(f.1)) =~= field_ref(f).union(
            ref_set(f.1),
        ));
    } else {
        lemma_fields_refs_push(p.drop_first(), f);
        assert(p.push(f)[0] == p[0]);
        assert(p.push(f).drop_first() =~= p.drop_first().push(f));
    }
}

/// Appends all of `add` to `out`.
fn push_bytes(out: &mut Vec<u8>, add: &Vec<u8>)
    ensures
        final(out)@ == old(out)@ + add@,
{
    let n = add.len();
    let mut i: usize = 0;
    while i < n
        invariant
            0 <= i <= n,
            n == add@.len(),
            out@ == old(out)@ + add@.take(i as int),
        decreases n - i,
    {
        out.push(add[i]);
        proof {
            assert(add@.take(i + 1) =~= add@.take(i as int).push(add@[i as int]));
            assert(old(out)@ + add@.take(i + 1) =~= (old(out)@ + add@.take(i as int)).push(
                add@[i as int],
            ));
        }
        i += 1;
    }
    proof {
        assert(add@.take(n as int) =~= add@);
    }
}

/// Removes the dialect prefixes from a reference target.
pub(crate) fn clean_ref_exec(s: &str) -> (r: String)
    ensures
        r@ == clean_ref(s@),
{
    let first = strip_all(s, "#/definitions/");
    strip_all(first.as_str(), "#/components/schemas/")
}

/// Computes the canonical byte stream of a value and collects the cleaned
/// `$ref` targets beneath it, in a single traversal.
fn canon_collect(v: &JsonValue, refs: &mut Vec<String>) -> (out: Vec<u8>)
    ensures
        out@ == canon_bytes(v@),
        str_views(final(refs)@).to_set() == str_views(old(refs)@).to_set().union(ref_set(v@)),
    decreases *v,
{
    let ghost set0 = str_views(refs@).to_set();
    match v {
        JsonValue::Null => {
            proof {
                assert(set0.union(ref_set(v@)) =~= set0);
            }
            "null".as_bytes_vec()
        },
        JsonValue::Bool(b) => {
            proof {
                assert(set0.union(ref_set(v@)) =~= set0);
            }
            if *b {
                "true".as_bytes_vec()
            } else {
                "false".as_bytes_vec()
            }
        },
        JsonValue::Num(t) => {
            proof {
                assert(set0.union(ref_set(v@)) =~= set0);
            }
            t.as_str().as_bytes_vec()
        },
        JsonValue::Str(sv) => {
            proof {
                assert(set0.union(ref_set(v@)) =~= set0);
            }
            let mut out: Vec<u8> = Vec::new();
            out.push(34);
            push_bytes(&mut out, &sv.as_str().as_bytes_vec());
            out.push(34);
            proof {
                assert(out@ =~= seq![34u8] + encode_utf8(sv@) + seq![34u8]);
            }
            out
        },
        JsonValue::Arr(items) => {
            proof {
                crate::json::lemma_views_of_index(items@);
            }
            let ghost iv = JsonValue::views_of(items@);
            let mut out: Vec<u8> = Vec::new();
            out.push(91);
            let n = items.len();
            let mut i: usize = 0;
            proof {
                assert(iv.take(0) =~= Seq::<JsonVal>::empty());
                assert(out@ =~= seq![91u8] + arr_canon(iv.take(0)));
                assert(str_views(refs@).to_set() =~= set0.union(seq_refs(iv.take(0))));
            }
            while i < n
                invariant
                    0 <= i <= n,
                    n == items@.len(),
                    *v == JsonValue::Arr(*items),
                    iv == JsonValue::views_of(items@),
                    iv.len() == n,
                    forall|k: int| 0 <= k < n ==> iv[k] == #[trigger] items@[k].view_rec(),
                    out@ == seq![91u8] + arr_canon(iv.take(i as int)),
                    str_views(refs@).to_set() == set0.union(seq_refs(iv.take(i as int))),
                decreases n - i,
            {
                let ghost refs_mid = str_views(refs@).to_set();
                proof {
                    assert(decreases_to!(*v => (*v)->Arr_0));
                    assert((*v)->Arr_0 == *items);
                    assert(decreases_to!(*items => items@));
                    assert(decreases_to!(items@ => items@[i as int]));
                    assert(decreases_to!(*v => items@[i as int]));
                }
                let sub = canon_collect(&items[i], refs);
                push_bytes(&mut out, &sub);
                proof {
                    assert(iv.take(i + 1) =~= iv.take(i as int).push(iv[i as int]));
                    lemma_arr_canon_push(iv.take(i as int), iv[i as int]);
                    lemma_seq_refs_push(iv.take(i as int), iv[i as int]);
                    assert(out@ =~= seq![91u8] + arr_canon(iv.take(i + 1)));
                    assert(str_views(refs@).to_set() =~= set0.union(seq_refs(iv.take(i + 1))));
                }
                i += 1;
            }
            out.push(93);
            proof {
                assert(iv.take(n as int) =~= iv);
                assert(out@ =~= seq![91u8] + arr_canon(iv) + seq![93u8]);
            }
            out
        },
        JsonValue::Obj(fields) => {
            proof {
                crate::json::lemma_field_views_of_index(fields@);
            }
            let ghost fv = JsonValue::field_views_of(fields@);
            let mut entries: Vec<(String, Vec<u8>)> = Vec::new();
            let n = fields.len();
            let mut i: usize = 0;
            proof {
                assert(fv.take(0) =~= Seq::<(Seq<char>, JsonVal)>::empty());
                assert(entry_views(entries@) =~= entries_of(fv.take(0)));
                assert(str_views(refs@).to_set() =~= set0.union(fields_refs(fv.take(0))));
            }
            while i < n
                invariant
                    0 <= i <= n,
                    n == fields@.len(),
                    *v == JsonValue::Obj(*fields),
                    fv == JsonValue::field_views_of(fields@),
                    fv.len() == n,
                    forall|k: int|
                        0 <= k < n ==> fv[k] == (#[trigger] fields@[k].0@, fields@[k].1.view_rec()),
                    entry_views(entries@) == entries_of(fv.take(i as int)),
                    str_views(refs@).to_set() == set0.union(fields_refs(fv.take(i as int))),
                decreases n - i,
            {
                let ghost f = fv[i as int];
                if str_eq(fields[i].0.as_str(), "$ref") {
                    match fields[i].1.as_str_value() {
                        Some(target) => {
                            let cleaned = clean_ref_exec(target.as_str());
                            let ghost rv = str_views(refs@);
                            refs.push(cleaned);
                            proof {
                                assert(str_views(refs@) =~= rv.push(clean_ref(f.1->Str_0)));
                                lemma_push_to_set(rv, clean_ref(f.1->Str_0));
                                assert(field_ref(f) =~= Set::empty().insert(clean_ref(f.1->Str_0)));
                            }
                        },
                        None => {
                            proof {
                                assert(field_ref(f) =~= Set::<Seq<char>>::empty());
                            }
                        },
                    }
                } else {
                    proof {
                        assert(field_ref(f) =~= Set::<Seq<char>>::empty());
                    }
                }
                let ghost set_mid = str_views(refs@).to_set();
                proof {
                    assert(set_mid =~= set0.union(fields_refs(fv.take(i as int))).union(
                        field_ref(f),
                    ));
                }
                proof {
                    assert(decreases_to!(*v => (*v)->Obj_0));
                    assert((*v)->Obj_0 == *fields);
                    assert(decreases_to!(*fields => fields@));
                    assert(decreases_to!(fields@ => fields@[i as int]));
                    assert(decreases_to!(fields@[i as int] => fields@[i as int].1));
                    assert(decreases_to!(*v => fields@[i as int].1));
                }
                let sub = canon_collect(&fields[i].1, refs);
                let key = fields[i].0.clone();
                entries.push((key, sub));
                proof {
                    assert(fv.take(i + 1) =~= fv.take(i as int).push(f));
                    lemma_entries_of_push(fv.take(i as int), f);
                    lemma_fields_refs_push(fv.take(i as int), f);
                    assert(entry_views(entries@) =~= entries_of(fv.take(i as int)).push((
                        f.0,
                        canon_bytes(f.1),
                    )));
                    assert(str_views(refs@).to_set() =~= set0.union(
                        fields_refs(fv.take(i + 1)),
                    ));
                }
                i += 1;
            }
            proof {
                assert(fv.take(n as int) =~= fv);
            }
            let ghost sorted = entries_of(fv).sort_by(entry_leq());
            sort_entries(&mut entries);
            let mut out: Vec<u8> = Vec::new();
            out.push(123);
            let m = entries.len();
            let mut j: usize = 0;
            proof {
                assert(sorted.len() == entries_of(fv).len()) by {
                    broadcast use vstd::seq_lib::group_to_multiset_ensures;

                    lemma_entry_leq_total_ordering();
                    entries_of(fv).lemma_sort_by_ensures(entry_leq());
                    assert(sorted.to_multiset() =~= entries_of(fv).to_multiset());
                    assert(sorted.to_multiset().len() == entries_of(fv).to_multiset().len());
                }
                assert(sorted.take(0) =~= Seq::<(Seq<char>, Seq<u8>)>::empty());
                assert(out@ =~= seq![123u8] + cat_entries(sorted.take(0)));
            }
            while j < m
                invariant
                    0 <= j <= m,
                    m == entries@.len(),
                    entry_views(entries@) == sorted,
                    sorted.len() == m,
                    out@ == seq![123u8] + cat_entries(sorted.take(j as int)),
                decreases m - j,
            {
                push_bytes(&mut out, &entries[j].0.as_str().as_bytes_vec());
                out.push(58);
                push_bytes(&mut out, &entries[j].1);
                proof {
                    assert(sorted[j as int] == (entries@[j as int].0@, entries@[j as int].1@));
                    assert(sorted.take(j + 1) =~= sorted.take(j as int).push(sorted[j as int]));
                    lemma_cat_entries_push(sorted.take(j as int), sorted[j as int]);
                    assert(out@ =~= seq![123u8] + cat_entries(sorted.take(j + 1)));
                }
                j += 1;
            }
            out.push(125);
            proof {
                assert(sorted.take(m as int) =~= sorted);
                assert(out@ =~= seq![123u8] + cat_entries(sorted) + seq![125u8]);
            }
            out
        },
    }
}

/// The position before which `s` must be inserted to keep `out` strictly
/// sorted: the first index whose string does not precede `s`.
fn find_str_pos(out: &Vec<String>, s: &String) -> (p: usize)
    ensures
        0 <= p <= out@.len(),
        forall|j: int| 0 <= j < p ==> chars_lt((#[trigger] out@[j])@, s@),
        p < out@.len() ==> !chars_lt(out@[p as int]@, s@),
{
    let n = out.len();
    let mut p: usize = 0;
    while p < n
        invariant
            0 <= p <= n,
            n == out@.len(),
            forall|j: int| 0 <= j < p ==> chars_lt((#[trigger] out@[j])@, s@),
        decreases n - p,
    {
        if !crate::text::str_lt(out[p].as_str(), s.as_str()) {
            return p;
        }
        p += 1;
    }
    p
}

/// Sorts a list of strings and removes duplicates: the result is strictly
/// sorted and holds exactly the strings of the input.
pub(crate) fn sort_dedup_strings(rs: &mut Vec<String>)
    ensures
        forall|i: int, j: int|
            0 <= i < j < final(rs)@.len() ==> chars_lt(
                (#[trigger] final(rs)@[i])@,
                (#[trigger] final(rs)@[j])@,
            ),
        str_views(final(rs)@).to_set() == str_views(old(rs)@).to_set(),
{
    let ghost input_set = str_views(rs@).to_set();
    let mut out: Vec<String> = Vec::new();
    proof {
        assert(str_views(out@) =~= Seq::<Seq<char>>::empty());
        assert(str_views(out@).to_set().union(str_views(rs@).to_set()) =~= input_set);
    }
    while rs.len() > 0
        invariant
            forall|i: int, j: int|
                0 <= i < j < out@.len() ==> chars_lt((#[trigger] out@[i])@, (#[trigger] out@[j])@),
            str_views(out@).to_set().union(str_views(rs@).to_set()) == input_set,
        decreases rs@.len(),
    {
        let ghost rs_before = rs@;
        let next = rs.pop().unwrap();
        proof {
            assert(rs_before =~= rs@.push(next));
            assert(str_views(rs_before) =~= str_views(rs@).push(next@));
            lemma_push_to_set(str_views(rs@), next@);
        }
        let p = find_str_pos(&out, &next);
        let mut duplicate = false;
        if p < out.len() {
            duplicate = str_eq(out[p].as_str(), next.as_str());
        }
        if duplicate {
            proof {
                assert(out@[p as int]@ == next@);
                assert(str_views(out@)[p as int] == next@);
                assert(str_views(out@).to_set().contains(next@));
                assert(str_views(out@).to_set().union(str_views(rs@).to_set()) =~= input_set);
            }
        } else {
            let ghost before = str_views(out@);
            proof {
                lemma_chars_lt_trichotomy(out@[p as int]@, next@);
                if (p as int) < out@.len() {
                    assert(chars_lt(next@, out@[p as int]@));
                }
            }
            out.insert(p, next);
            proof {
                assert(str_views(out@) =~= before.insert(p as int, next@));
                before.insert_ensures(p as int, next@);
                lemma_insert_to_set(before, p as int, next@);
                assert forall|x: int, y: int|
                    0 <= x < y < out@.len() implies chars_lt(
                    (#[trigger] out@[x])@,
                    (#[trigger] out@[y])@,
                ) by {
                    let now = str_views(out@);
                    assert(now[x] == out@[x]@ && now[y] == out@[y]@);
                    if x < p && y < p {
                    } else if x < p && y == p {
                    } else if x < p && y > p {
                    } else if x == p && y > p {
                        if y - 1 > p {
                            lemma_chars_lt_transitive(next@, before[p as int], before[y - 1]);
                        }
                    } else {
                    }
                }
                assert(str_views(out@).to_set().union(str_views(rs@).to_set()) =~= input_set);
            }
        }
    }
    proof {
        assert(str_views(rs@) =~= Seq::<Seq<char>>::empty());
        assert(str_views(out@).to_set().union(str_views(rs@).to_set()) =~= str_views(
            out@,
        ).to_set());
    }
    *rs = out;
}

/// Extracts the `$ref` targets beneath a value and computes its content
/// digest, in one traversal of the value. The targets come back cleaned,
/// deduplicated and sorted; the digest is sixteen hexadecimal characters.
pub fn extract_refs_and_hash(v: &JsonValue) -> (r: (Vec<String>, String))
    ensures
        str_views(r.0@).to_set() == ref_set(v@),
        forall|i: int, j: int|
            0 <= i < j < r.0@.len() ==> chars_lt((#[trigger] r.0@[i])@, (#[trigger] r.0@[j])@),
        r.1@ == digest_of(v@),
        r.1@.len() == 16,
{
    let mut refs: Vec<String> = Vec::new();
    proof {
        assert(str_views(refs@) =~= Seq::<Seq<char>>::empty());
        assert(str_views(refs@).to_set().union(ref_set(v@)) =~= ref_set(v@));
    }
    let bytes = canon_collect(v, &mut refs);
    sort_dedup_strings(&mut refs);
    let hash = hash_of_bytes(&bytes);
    (refs, hash)
}

/// Hashes a canonical stream: the first eight digest bytes in hexadecimal.
fn hash_of_bytes(bytes: &Vec<u8>) -> (r: String)
    ensures
        r@ == hex_of(sha256_of(bytes@).take(8)),
        r@.len() == 16,
{
    let digest = sha256_digest(bytes);
    let mut first: Vec<u8> = Vec::new();
    let mut i: usize = 0;
    while i < 8
        invariant
            0 <= i <= 8,
            digest@.len() == 32,
            digest@ == sha256_of(bytes@),
            first@ == digest@.take(i as int),
        decreases 8 - i,
    {
        first.push(digest[i]);
        proof {
            assert(digest@.take(i + 1) =~= digest@.take(i as int).push(digest@[i as int]));
        }
        i += 1;
    }
    proof {
        lemma_hex_of_len(first@);
    }
    hex_encode(&first)
}

/// The hexadecimal rendering has two characters per byte.
pub proof fn lemma_hex_of_len(b: Seq<u8>)
    ensures
        hex_of(b).len() == 2 * b.len(),
    decreases b.len(),
{
    if b.len() > 0 {
        lemma_hex_of_len(b.drop_first());
    }
}

/// The content digest of a whole value, as the cache layer stores it.
pub fn compute_hash(v: &JsonValue) -> (r: String)
    ensures
        r@ == digest_of(v@),
        r@.len() == 16,
{
    let mut refs: Vec<String> = Vec::new();
    let bytes = canon_collect(v, &mut refs);
    hash_of_bytes(&bytes)
}

/// Every key of an object's field list is distinct.
pub open spec fn unique_keys(fs: Seq<(Seq<char>, JsonVal)>) -> bool {
    forall|i: int, j: int| 0 <= i < j < fs.len() ==> (#[trigger] fs[i]).0 != (#[trigger] fs[j]).0
}

/// `b` is `a` with object fields reordered, at any depth. Scalars must be
/// equal, arrays must agree pointwise, and each object must carry the same
/// keys — unique on both sides — with equivalent values.
pub open spec fn key_reordered(a: JsonVal, b: JsonVal) -> bool
    decreases a,
{
    match (a, b) {
        (JsonVal::Null, JsonVal::Null) => true,
        (JsonVal::Bool(x), JsonVal::Bool(y)) => x == y,
        (JsonVal::Num(x), JsonVal::Num(y)) => x == y,
        (JsonVal::Str(x), JsonVal::Str(y)) => x == y,
        (JsonVal::Arr(xs), JsonVal::Arr(ys)) => xs.len() == ys.len() && (forall|i: int|
            0 <= i < xs.len() ==> key_reordered(#[trigger] xs[i], ys[i])),
        (JsonVal::Obj(fs), JsonVal::Obj(gs)) => {
            &&& fs.len() == gs.len()
            &&& unique_keys(fs)
            &&& unique_keys(gs)
            &&& forall|i: int|
                0 <= i < fs.len() ==> exists|j: int|
                    0 <= j < gs.len() && (#[trigger] fs[i]).0 == (#[trigger] gs[j]).0
                        && key_reordered(fs[i].1, gs[j].1)
        },
        _ => false,
    }
}

/// Length of and membership in the digest entries of a field list.
proof fn lemma_entries_of_index(s: Seq<(Seq<char>, JsonVal)>)
    ensures
        entries_of(s).len() == s.len(),
        forall|i: int|
            0 <= i < s.len() ==> entries_of(s)[i] == ((#[trigger] s[i]).0, canon_bytes(s[i].1)),
    decreases s.len(),
{
    if s.len() > 0 {
        lemma_entries_of_index(s.drop_first());
        assert forall|i: int|
            0 <= i < s.len() implies entries_of(s)[i] == ((#[trigger] s[i]).0, canon_bytes(
            s[i].1,
        )) by {
            if i > 0 {
                assert(s.drop_first()[i - 1] == s[i]);
                assert(entries_of(s)[i] == entries_of(s.drop_first())[i - 1]);
            }
        }
    }
}

/// Pointwise equal canonical streams concatenate to equal streams.
proof fn lemma_arr_canon_pointwise(xs: Seq<JsonVal>, ys: Seq<JsonVal>)
    requires
        xs.len() == ys.len(),
        forall|i: int| 0 <= i < xs.len() ==> canon_bytes(#[trigger] xs[i]) == canon_bytes(ys[i]),
    ensures
        arr_canon(xs) == arr_canon(ys),
    decreases xs.len(),
{
    if xs.len() > 0 {
        assert forall|i: int|
            0 <= i < xs.drop_first().len() implies canon_bytes(#[trigger] xs.drop_first()[i])
            == canon_bytes(ys.drop_first()[i]) by {
            assert(xs.drop_first()[i] == xs[i + 1]);
            assert(ys.drop_first()[i] == ys[i + 1]);
        }
        lemma_arr_canon_pointwise(xs.drop_first(), ys.drop_first());
    }
}

/// Hash determinism: reordering object keys — at any depth — leaves the
/// canonical stream, and with it the content digest, unchanged.
pub proof fn lemma_key_reorder_digest(a: JsonVal, b: JsonVal)
    requires
        key_reordered(a, b),
    ensures
        canon_bytes(a) == canon_bytes(b),
        digest_of(a) == digest_of(b),
    decreases a,
{
    match (a, b) {
        (JsonVal::Arr(xs), JsonVal::Arr(ys)) => {
            assert forall|i: int|
                0 <= i < xs.len() implies canon_bytes(#[trigger] xs[i]) == canon_bytes(
                ys[i],
            ) by {
                assert(key_reordered(xs[i], ys[i]));
                assert(decreases_to!(a => a->Arr_0));
                assert(a->Arr_0 == xs);
                assert(decreases_to!(xs => xs[i]));
                lemma_key_reorder_digest(xs[i], ys[i]);
            }
            lemma_arr_canon_pointwise(xs, ys);
        },
        (JsonVal::Obj(fs), JsonVal::Obj(gs)) => {
            let es = entries_of(fs);
            let hs = entries_of(gs);
            lemma_entries_of_index(fs);
            lemma_entries_of_index(gs);
            assert forall|i: int| 0 <= i < es.len() implies hs.contains(#[trigger] es[i]) by {
                let j = choose|j: int|
                    0 <= j < gs.len() && fs[i].0 == gs[j].0 && key_reordered(fs[i].1, gs[j].1);
                assert(decreases_to!(a => a->Obj_0));
                assert(a->Obj_0 == fs);
                assert(decreases_to!(fs => fs[i]));
                assert(decreases_to!(fs[i] => fs[i].1));
                lemma_key_reorder_digest(fs[i].1, gs[j].1);
                assert(hs[j] == es[i]);
            }
            assert(es.no_duplicates()) by {
                assert forall|i: int, j: int| 0 <= i < j < es.len() implies es[i] != es[j] by {
                    assert(fs[i].0 != fs[j].0);
                    assert(es[i].0 == fs[i].0 && es[j].0 == fs[j].0);
                }
            }
            assert(hs.no_duplicates()) by {
                assert forall|i: int, j: int| 0 <= i < j < hs.len() implies hs[i] != hs[j] by {
                    assert(gs[i].0 != gs[j].0);
                    assert(hs[i].0 == gs[i].0 && hs[j].0 == gs[j].0);
                }
            }
            assert(es.to_set().subset_of(hs.to_set())) by {
                assert forall|x: (Seq<char>, Seq<u8>)|
                    es.to_set().contains(x) implies hs.to_set().contains(x) by {
                    let i = choose|i: int| 0 <= i < es.len() && es[i] == x;
                    assert(hs.contains(es[i]));
                }
            }
            es.unique_seq_to_set();
            hs.unique_seq_to_set();
            vstd::set_lib::lemma_subset_equality(es.to_set(), hs.to_set());
            es.lemma_multiset_has_no_duplicates();
            hs.lemma_multiset_has_no_duplicates();
            assert(es.to_multiset() =~= hs.to_multiset()) by {
                broadcast use vstd::seq_lib::group_to_multiset_ensures;

                assert forall|x: (Seq<char>, Seq<u8>)|
                    es.to_multiset().count(x) == hs.to_multiset().count(x) by {
                    if es.contains(x) {
                        assert(es.to_set().contains(x));
                        assert(hs.to_set().contains(x));
                        assert(hs.contains(x));
                        assert(es.to_multiset().count(x) == 1);
                        assert(hs.to_multiset().count(x) == 1);
                    } else {
                        assert(!es.to_multiset().contains(x));
                        if hs.contains(x) {
                            assert(hs.to_set().contains(x));
                            assert(es.to_set().contains(x));
                            assert(es.contains(x));
                        }
                        assert(!hs.to_multiset().contains(x));
                        assert(es.to_multiset().count(x) == 0);
                        assert(hs.to_multiset().count(x) == 0);
                    }
                }
            }
            lemma_entry_leq_total_ordering();
            es.lemma_sort_by_ensures(entry_leq());
            hs.lemma_sort_by_ensures(entry_leq());
            vstd::seq_lib::lemma_sorted_unique(
                es.sort_by(entry_leq()),
                hs.sort_by(entry_leq()),
                entry_leq(),
            );
            assert(es.sort_by(entry_leq()) == hs.sort_by(entry_leq()));
            assert(canon_bytes(a) == canon_bytes(b));
        },
        _ => {},
    }
}

} // verus!
