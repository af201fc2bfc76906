//! Character-sequence utilities: lexicographic order by code point, substring
//! search, occurrence stripping, and a strict decimal codec for `u64`.
//!
//! Every executable routine here is specified against a spec function over
//! `Seq<char>`, so the rest of the library can reason about strings purely
//! mathematically.

use vstd::prelude::*;
use vstd::relations::{sorted_by, total_ordering};
use vstd::string::StrSliceExecFns;

verus! {

/// Strict lexicographic order on character sequences by code point.
pub open spec fn chars_lt(a: Seq<char>, b: Seq<char>) -> bool
    decreases a.len(),
{
    if b.len() == 0 {
        false
    } else if a.len() == 0 {
        true
    } else if a[0] != b[0] {
        a[0] < b[0]
    } else {
        chars_lt(a.drop_first(), b.drop_first())
    }
}

/// Reflexive closure of `chars_lt`.
pub open spec fn chars_le(a: Seq<char>, b: Seq<char>) -> bool {
    chars_lt(a, b) || a == b
}

/// `chars_lt` is trichotomous: exactly one of `a < b`, `a == b`, `b < a`.
pub proof fn lemma_chars_lt_trichotomy(a: Seq<char>, b: Seq<char>)
    ensures
        chars_lt(a, b) || a == b || chars_lt(b, a),
        chars_lt(a, b) ==> a != b,
        chars_lt(a, b) ==> !chars_lt(b, a),
    decreases a.len(),
{
    if b.len() == 0 {
        if a.len() == 0 {
            assert(a =~= b);
        } else {
            assert(chars_lt(b, a));
        }
    } else if a.len() == 0 {
        assert(a != b);
    } else if a[0] != b[0] {
        assert(a != b);
        assert(chars_lt(b, a) == (b[0] < a[0]));
    } else {
        assert(chars_lt(b, a) == chars_lt(b.drop_first(), a.drop_first()));
        lemma_chars_lt_trichotomy(a.drop_first(), b.drop_first());
        if a.drop_first() == b.drop_first() {
            assert(a =~= b) by {
                assert(a.len() == b.len());
                assert forall|i: int| 0 <= i < a.len() implies a[i] == b[i] by {
                    if i > 0 {
                        assert(a[i] == a.drop_first()[i - 1]);
                        assert(b[i] == b.drop_first()[i - 1]);
                    }
                }
            }
        }
        if a == b {
            assert(a.drop_first() =~= b.drop_first());
        }
    }
}

/// `chars_lt` is transitive.
pub proof fn lemma_chars_lt_transitive(a: Seq<char>, b: Seq<char>, c: Seq<char>)
    requires
        chars_lt(a, b),
        chars_lt(b, c),
    ensures
        chars_lt(a, c),
    decreases a.len(),
{
    if a.len() == 0 {
    } else if b.len() == 0 {
    } else if c.len() == 0 {
    } else {
        if a[0] == b[0] && b[0] == c[0] {
            lemma_chars_lt_transitive(a.drop_first(), b.drop_first(), c.drop_first());
        }
    }
}

/// `chars_le` is a total ordering in the sense of `vstd::relations`.
pub proof fn lemma_chars_le_total_ordering()
    ensures
        total_ordering(|x: Seq<char>, y: Seq<char>| chars_le(x, y)),
{
    let leq = |x: Seq<char>, y: Seq<char>| chars_le(x, y);
    assert forall|x: Seq<char>, y: Seq<char>| #[trigger] leq(x, y) && leq(y, x) implies x == y by {
        lemma_chars_lt_trichotomy(x, y);
    }
    assert forall|x: Seq<char>, y: Seq<char>, z: Seq<char>|
        #[trigger] leq(x, y) && #[trigger] leq(y, z) implies leq(x, z) by {
        if chars_lt(x, y) && chars_lt(y, z) {
            lemma_chars_lt_transitive(x, y, z);
        }
    }
    assert forall|x: Seq<char>, y: Seq<char>| #[trigger] leq(x, y) || #[trigger] leq(y, x) by {
        lemma_chars_lt_trichotomy(x, y);
    }
}

/// When two sequences agree on a prefix, the order is decided past it.
proof fn lemma_chars_lt_skip_prefix(a: Seq<char>, b: Seq<char>, k: int)
    requires
        0 <= k <= a.len(),
        k <= b.len(),
        forall|j: int| 0 <= j < k ==> a[j] == b[j],
    ensures
        chars_lt(a, b) == chars_lt(a.skip(k), b.skip(k)),
    decreases k,
{
    if k == 0 {
        assert(a.skip(0) =~= a);
        assert(b.skip(0) =~= b);
    } else {
        assert(a.len() > 0 && b.len() > 0);
        assert(a[0] == b[0]);
        lemma_chars_lt_skip_prefix(a.drop_first(), b.drop_first(), k - 1);
        assert(a.drop_first().skip(k - 1) =~= a.skip(k));
        assert(b.drop_first().skip(k - 1) =~= b.skip(k));
    }
}

/// Equality test on string slices.
pub fn str_eq(a: &str, b: &str) -> (r: bool)
    ensures
        r == (a@ == b@),
{
    let alen = a.unicode_len();
    let blen = b.unicode_len();
    if alen != blen {
        return false;
    }
    let mut i: usize = 0;
    while i < alen
        invariant
            0 <= i <= alen,
            alen == a@.len(),
            alen == b@.len(),
            forall|j: int| 0 <= j < i ==> a@[j] == b@[j],
        decreases alen - i,
    {
        if a.get_char(i) != b.get_char(i) {
            return false;
        }
        i += 1;
    }
    proof {
        assert(a@ =~= b@);
    }
    true
}

/// Strict lexicographic comparison of string slices.
pub fn str_lt(a: &str, b: &str) -> (r: bool)
    ensures
        r == chars_lt(a@, b@),
{
    let alen = a.unicode_len();
    let blen = b.unicode_len();
    let mut i: usize = 0;
    loop
        invariant
            0 <= i <= alen,
            i <= blen,
            alen == a@.len(),
            blen == b@.len(),
            forall|j: int| 0 <= j < i ==> a@[j] == b@[j],
        decreases alen - i,
    {
        proof {
            lemma_chars_lt_skip_prefix(a@, b@, i as int);
        }
        if i == alen {
            assert(a@.skip(i as int) =~= Seq::<char>::empty());
            return i < blen;
        }
        if i == blen {
            return false;
        }
        let ca = a.get_char(i);
        let cb = b.get_char(i);
        if ca != cb {
            assert(a@.skip(i as int)[0] == ca);
            assert(b@.skip(i as int)[0] == cb);
            return ca < cb;
        }
        i += 1;
    }
}

/// Prefix test on string slices.
pub fn starts_with(s: &str, prefix: &str) -> (r: bool)
    ensures
        r == prefix@.is_prefix_of(s@),
{
    let slen = s.unicode_len();
    let plen = prefix.unicode_len();
    if plen > slen {
        return false;
    }
    let head = s.substring_char(0, plen);
    proof {
        assert(head@ =~= s@.subrange(0, plen as int));
    }
    str_eq(head, prefix)
}

/// `pat` occurs in `s` starting at position `i`.
pub open spec fn occurs_at(s: Seq<char>, pat: Seq<char>, i: int) -> bool {
    0 <= i && i + pat.len() <= s.len() && s.subrange(i, i + pat.len()) == pat
}

/// `pat` occurs somewhere in `s`.
pub open spec fn has_substring(s: Seq<char>, pat: Seq<char>) -> bool {
    exists|i: int| occurs_at(s, pat, i)
}

/// Substring search.
pub fn contains_str(s: &str, pat: &str) -> (r: bool)
    ensures
        r == has_substring(s@, pat@),
{
    let slen = s.unicode_len();
    let plen = pat.unicode_len();
    if plen > slen {
        assert(!has_substring(s@, pat@)) by {
            if occurs_at(s@, pat@, choose|i: int| occurs_at(s@, pat@, i)) {
            }
        }
        return false;
    }
    if plen == 0 {
        assert(occurs_at(s@, pat@, 0)) by {
            assert(s@.subrange(0, 0) =~= pat@);
        }
        return true;
    }
    let mut i: usize = 0;
    while i <= slen - plen
        invariant
            0 <= i <= slen,
            0 < plen <= slen,
            slen == s@.len(),
            plen == pat@.len(),
            forall|k: int| 0 <= k < i ==> !occurs_at(s@, pat@, k),
        decreases slen - i,
    {
        let sub = s.substring_char(i, i + plen);
        if str_eq(sub, pat) {
            assert(occurs_at(s@, pat@, i as int));
            return true;
        }
        assert(!occurs_at(s@, pat@, i as int));
        i += 1;
    }
    assert(!has_substring(s@, pat@)) by {
        if has_substring(s@, pat@) {
            let k = choose|k: int| occurs_at(s@, pat@, k);
            assert(0 <= k < i);
        }
    }
    false
}

/// `s` with every leftmost, non-overlapping occurrence of `pat` removed.
pub open spec fn strip_occurrences(s: Seq<char>, pat: Seq<char>) -> Seq<char>
    decreases s.len(),
{
    if pat.len() == 0 || s.len() < pat.len() {
        s
    } else if s.subrange(0, pat.len() as int) == pat {
        strip_occurrences(s.skip(pat.len() as int), pat)
    } else {
        seq![s[0]] + strip_occurrences(s.drop_first(), pat)
    }
}

/// Removes every leftmost, non-overlapping occurrence of `pat` from `s`,
/// as replacing the occurrences with nothing would.
pub fn strip_all(s: &str, pat: &str) -> (r: String)
    ensures
        r@ == strip_occurrences(s@, pat@),
{
    let slen = s.unicode_len();
    let plen = pat.unicode_len();
    let mut out = String::new();
    if plen == 0 {
        assert(strip_occurrences(s@, pat@) == s@);
        out.append(s);
        return out;
    }
    proof {
        assert(s@.skip(0) =~= s@);
        assert(out@ + strip_occurrences(s@, pat@) =~= strip_occurrences(s@, pat@));
    }
    let mut i: usize = 0;
    while i < slen
        invariant
            0 <= i <= slen,
            slen == s@.len(),
            plen == pat@.len(),
            plen > 0,
            out@ + strip_occurrences(s@.skip(i as int), pat@) == strip_occurrences(s@, pat@),
        decreases slen - i,
    {
        let ghost rest = s@.skip(i as int);
        if plen <= slen - i {
            let sub = s.substring_char(i, i + plen);
            assert(sub@ =~= rest.subrange(0, plen as int));
            if str_eq(sub, pat) {
                proof {
                    assert(rest.skip(plen as int) =~= s@.skip(i + plen));
                    assert(out@ + strip_occurrences(s@.skip(i + plen), pat@)
                        == strip_occurrences(s@, pat@));
                }
                i += plen;
                continue;
            }
        } else {
            assert(rest.len() < plen);
        }
        let c = s.substring_char(i, i + 1);
        proof {
            if plen <= slen - i {
                assert(rest.subrange(0, plen as int) != pat@);
            }
            assert(strip_occurrences(rest, pat@) == seq![rest[0]]
                + strip_occurrences(rest.drop_first(), pat@));
            assert(c@ =~= seq![rest[0]]);
            assert(rest.drop_first() =~= s@.skip(i + 1));
            assert((out@ + c@) + strip_occurrences(s@.skip(i + 1), pat@) =~= out@
                + strip_occurrences(rest, pat@));
        }
        out.append(c);
        i += 1;
    }
    proof {
        assert(s@.skip(i as int) =~= Seq::<char>::empty());
        assert(strip_occurrences(Seq::<char>::empty(), pat@) == Seq::<char>::empty());
        assert(out@ =~= strip_occurrences(s@, pat@));
    }
    out
}

/// The ten decimal digit characters, by value.
pub open spec fn dec_digit_char(d: int) -> char {
    if d == 0 { '0' } else if d == 1 { '1' } else if d == 2 { '2' } else if d == 3 { '3' }
    else if d == 4 { '4' } else if d == 5 { '5' } else if d == 6 { '6' } else if d == 7 { '7' }
    else if d == 8 { '8' } else { '9' }
}

pub open spec fn is_dec_digit(c: char) -> bool {
    c == '0' || c == '1' || c == '2' || c == '3' || c == '4' || c == '5' || c == '6' || c == '7'
        || c == '8' || c == '9'
}

/// Numeric value of a decimal digit character.
pub open spec fn dec_digit_val(c: char) -> int {
    if c == '0' { 0 } else if c == '1' { 1 } else if c == '2' { 2 } else if c == '3' { 3 }
    else if c == '4' { 4 } else if c == '5' { 5 } else if c == '6' { 6 } else if c == '7' { 7 }
    else if c == '8' { 8 } else { 9 }
}

/// Canonical decimal rendering of a natural number.
pub open spec fn dec_of(n: nat) -> Seq<char>
    decreases n,
{
    if n < 10 {
        seq![dec_digit_char(n as int)]
    } else {
        dec_of(n / 10) + seq![dec_digit_char((n % 10) as int)]
    }
}

/// Value of a sequence of decimal digit characters.
pub open spec fn dec_val(s: Seq<char>) -> nat
    decreases s.len(),
{
    if s.len() == 0 {
        0
    } else {
        (10 * dec_val(s.drop_last()) + dec_digit_val(s.last())) as nat
    }
}

pub open spec fn all_dec_digits(s: Seq<char>) -> bool {
    forall|i: int| 0 <= i < s.len() ==> is_dec_digit(#[trigger] s[i])
}

/// A canonical decimal string: digits only, non-empty, no leading zero.
pub open spec fn is_canonical_dec(s: Seq<char>) -> bool {
    all_dec_digits(s) && s.len() > 0 && (s.len() == 1 || s[0] != '0')
}

/// Strict decimal reading: only the canonical rendering of a value is accepted.
pub open spec fn parse_u64_of(s: Seq<char>) -> Option<u64> {
    if is_canonical_dec(s) && dec_val(s) <= u64::MAX {
        Some(dec_val(s) as u64)
    } else {
        None
    }
}

/// The canonical rendering of a positive number never starts with a zero.
proof fn lemma_dec_of_leading(n: nat)
    ensures
        n >= 1 ==> dec_of(n)[0] != '0',
        dec_of(n).len() >= 1,
        all_dec_digits(dec_of(n)),
    decreases n,
{
    if n >= 10 {
        lemma_dec_of_leading(n / 10);
        assert((dec_of(n / 10) + seq![dec_digit_char((n % 10) as int)])[0] == dec_of(n / 10)[0]);
        assert forall|i: int| 0 <= i < dec_of(n).len() implies is_dec_digit(#[trigger] dec_of(n)[i]) by {
            if i < dec_of(n / 10).len() {
                assert(dec_of(n)[i] == dec_of(n / 10)[i]);
            }
        }
    }
}

/// Rendering then reading restores the value: the decimal codec round-trips.
pub proof fn lemma_dec_round_trip(n: nat)
    ensures
        is_canonical_dec(dec_of(n)),
        dec_val(dec_of(n)) == n,
        n <= u64::MAX ==> parse_u64_of(dec_of(n)) == Some(n as u64),
    decreases n,
{
    lemma_dec_of_leading(n);
    if n < 10 {
        let s = dec_of(n);
        assert(s.drop_last() =~= Seq::<char>::empty());
        assert(s.last() == dec_digit_char(n as int));
        assert(dec_val(Seq::<char>::empty()) == 0);
        assert(dec_digit_val(dec_digit_char(n as int)) == n);
        assert(dec_val(s) == n);
    } else {
        lemma_dec_round_trip(n / 10);
        let s = dec_of(n);
        assert(s.drop_last() =~= dec_of(n / 10));
        assert(s.last() == dec_digit_char((n % 10) as int));
        assert(dec_val(s) == 10 * (n / 10) + n % 10);
        assert(10 * (n / 10) + n % 10 == n) by (nonlinear_arith);
        assert(s[0] == dec_of(n / 10)[0]);
        assert(s[0] != '0');
    }
}

/// Executable digit rendering.
fn dec_digit_str(d: u64) -> (r: &'static str)
    requires
        d < 10,
    ensures
        r@ == seq![dec_digit_char(d as int)],
{
    proof {
        reveal_strlit("0");
        reveal_strlit("1");
        reveal_strlit("2");
        reveal_strlit("3");
        reveal_strlit("4");
        reveal_strlit("5");
        reveal_strlit("6");
        reveal_strlit("7");
        reveal_strlit("8");
        reveal_strlit("9");
    }
    match d {
        0 => "0",
        1 => "1",
        2 => "2",
        3 => "3",
        4 => "4",
        5 => "5",
        6 => "6",
        7 => "7",
        8 => "8",
        _ => "9",
    }
}

/// Canonical decimal rendering of a `u64`.
pub fn u64_to_dec(n: u64) -> (r: String)
    ensures
        r@ == dec_of(n as nat),
    decreases n,
{
    if n < 10 {
        let mut out = String::new();
        out.append(dec_digit_str(n));
        assert(out@ =~= dec_of(n as nat));
        out
    } else {
        let mut out = u64_to_dec(n / 10);
        out.append(dec_digit_str(n % 10));
        assert(out@ =~= dec_of(n as nat));
        out
    }
}

/// Value of a digit extension.
proof fn lemma_dec_val_push(p: Seq<char>, c: char)
    ensures
        dec_val(p.push(c)) == 10 * dec_val(p) + dec_digit_val(c),
{
    assert(p.push(c).drop_last() =~= p);
    assert(p.push(c).last() == c);
}

/// The value of a digit string dominates the value of each of its prefixes.
proof fn lemma_dec_val_prefix(s: Seq<char>, k: int)
    requires
        0 <= k <= s.len(),
    ensures
        dec_val(s) >= dec_val(s.subrange(0, k)),
    decreases s.len() - k,
{
    if k < s.len() {
        lemma_dec_val_prefix(s, k + 1);
        assert(s.subrange(0, k + 1).drop_last() =~= s.subrange(0, k));
        assert(dec_val(s.subrange(0, k + 1)) >= dec_val(s.subrange(0, k)));
    } else {
        assert(s.subrange(0, k) =~= s);
    }
}

/// Executable digit classification.
fn dec_digit_of(c: char) -> (r: Option<u64>)
    ensures
        match r {
            Some(d) => is_dec_digit(c) && d == dec_digit_val(c),
            None => !is_dec_digit(c),
        },
{
    match c {
        '0' => Some(0),
        '1' => Some(1),
        '2' => Some(2),
        '3' => Some(3),
        '4' => Some(4),
        '5' => Some(5),
        '6' => Some(6),
        '7' => Some(7),
        '8' => Some(8),
        '9' => Some(9),
        _ => None,
    }
}

/// Strict decimal parse of a `u64`; accepts exactly the canonical renderings.
pub fn parse_u64_dec(s: &str) -> (r: Option<u64>)
    ensures
        r == parse_u64_of(s@),
{
    let n = s.unicode_len();
    if n == 0 {
        return None;
    }
    if n > 1 && s.get_char(0) == '0' {
        return None;
    }
    let mut acc: u64 = 0;
    let mut i: usize = 0;
    while i < n
        invariant
            0 <= i <= n,
            n == s@.len(),
            all_dec_digits(s@.subrange(0, i as int)),
            acc == dec_val(s@.subrange(0, i as int)),
        decreases n - i,
    {
        let c = s.get_char(i);
        let ghost prefix = s@.subrange(0, i as int);
        match dec_digit_of(c) {
            None => {
                return None;
            },
            Some(d) => {
                proof {
                    assert(s@.subrange(0, i + 1) =~= prefix.push(c));
                    lemma_dec_val_push(prefix, c);
                }
                if acc > (u64::MAX - d) / 10 {
                    proof {
                        assert(10 * (acc as int) > u64::MAX - d) by (nonlinear_arith)
                            requires
                                acc > ((u64::MAX - d) / 10) as int,
                                0 <= d < 10,
                        {
                        }
                        assert(dec_val(s@.subrange(0, i + 1)) > u64::MAX);
                        lemma_dec_val_prefix(s@, i + 1);
                    }
                    return None;
                }
                assert(10 * (acc as int) + d <= u64::MAX) by (nonlinear_arith)
                    requires
                        acc <= ((u64::MAX - d) / 10) as int,
                        0 <= d < 10,
                {
                }
                acc = acc * 10 + d;
                i += 1;
            },
        }
    }
    proof {
        assert(s@.subrange(0, n as int) =~= s@);
    }
    Some(acc)
}

/// A strictly sorted sequence is determined by its set of elements.
pub proof fn lemma_strictly_sorted_set_unique(a: Seq<Seq<char>>, b: Seq<Seq<char>>)
    requires
        forall|i: int, j: int| 0 <= i < j < a.len() ==> chars_lt(#[trigger] a[i], #[trigger] a[j]),
        forall|i: int, j: int| 0 <= i < j < b.len() ==> chars_lt(#[trigger] b[i], #[trigger] b[j]),
        a.to_set() == b.to_set(),
    ensures
        a == b,
{
    broadcast use vstd::seq_lib::group_to_multiset_ensures;

    let leq = |x: Seq<char>, y: Seq<char>| chars_le(x, y);
    assert(a.no_duplicates()) by {
        assert forall|i: int, j: int| 0 <= i < j < a.len() implies a[i] != a[j] by {
            lemma_chars_lt_trichotomy(a[i], a[j]);
        }
    }
    assert(b.no_duplicates()) by {
        assert forall|i: int, j: int| 0 <= i < j < b.len() implies b[i] != b[j] by {
            lemma_chars_lt_trichotomy(b[i], b[j]);
        }
    }
    a.lemma_multiset_has_no_duplicates();
    b.lemma_multiset_has_no_duplicates();
    assert(a.to_multiset() =~= b.to_multiset()) by {
        assert forall|x: Seq<char>| a.to_multiset().count(x) == b.to_multiset().count(x) by {
            if a.contains(x) {
                assert(a.to_set().contains(x));
                assert(b.to_set().contains(x));
                assert(b.contains(x));
                assert(a.to_multiset().count(x) == 1);
                assert(b.to_multiset().count(x) == 1);
            } else {
                assert(!a.to_multiset().contains(x));
                if b.contains(x) {
                    assert(b.to_set().contains(x));
                    assert(a.to_set().contains(x));
                    assert(a.contains(x));
                }
                assert(!b.to_multiset().contains(x));
                assert(a.to_multiset().count(x) == 0);
                assert(b.to_multiset().count(x) == 0);
            }
        }
    }
    assert(sorted_by(a, leq)) by {
        assert forall|i: int, j: int| 0 <= i < j < a.len() implies #[trigger] leq(a[i], a[j]) by {
            assert(chars_lt(a[i], a[j]));
        }
    }
    assert(sorted_by(b, leq)) by {
        assert forall|i: int, j: int| 0 <= i < j < b.len() implies #[trigger] leq(b[i], b[j]) by {
            assert(chars_lt(b[i], b[j]));
        }
    }
    lemma_chars_le_total_ordering();
    vstd::seq_lib::lemma_sorted_unique(a, b, leq);
    assert(a =~= b);
}

} // verus!
