//! Byte-level text helpers shared by negotiation and the header policy.
//!
//! Header text is handled as raw bytes: ASCII whitespace trimming,
//! case-insensitive comparison, prefix tests, splitting on a separator and
//! decimal parsing, each with an exact specification.

use vstd::prelude::*;
use vstd::slice::{slice_subrange, slice_to_vec};

verus! {

/// The byte value of `,`.
pub const COMMA: u8 = 44;

/// The byte value of `;`.
pub const SEMICOLON: u8 = 59;

/// The byte value of `.`.
pub const DOT: u8 = 46;

/// The byte value of `+`.
pub const PLUS: u8 = 43;

/// The byte value of `q`.
pub const LOWER_Q: u8 = 113;

/// The byte value of `Q`.
pub const UPPER_Q: u8 = 81;

/// The byte value of `=`.
pub const EQUALS: u8 = 61;

/// ASCII whitespace, as trimmed from header list segments.
pub open spec fn spec_is_ws(b: u8) -> bool {
    b == 32 || (9 <= b && b <= 13)
}

fn is_ws(b: u8) -> (r: bool)
    ensures
        r == spec_is_ws(b),
{
    b == 32 || (9 <= b && b <= 13)
}

/// ASCII lower-casing of a single byte.
pub open spec fn spec_lower(b: u8) -> u8 {
    if 65 <= b && b <= 90 {
        (b + 32) as u8
    } else {
        b
    }
}

fn lower(b: u8) -> (r: u8)
    ensures
        r == spec_lower(b),
{
    if 65 <= b && b <= 90 {
        b + 32
    } else {
        b
    }
}

/// ASCII lower-casing of a byte sequence.
pub open spec fn spec_lower_seq(s: Seq<u8>) -> Seq<u8> {
    s.map_values(|b: u8| spec_lower(b))
}

/// Whether two byte sequences are equal up to ASCII case.
pub open spec fn spec_eq_ignore_case(a: Seq<u8>, b: Seq<u8>) -> bool {
    spec_lower_seq(a) == spec_lower_seq(b)
}

/// Compares two byte strings ignoring ASCII case.
pub fn eq_ignore_case(a: &[u8], b: &[u8]) -> (r: bool)
    ensures
        r == spec_eq_ignore_case(a@, b@),
{
    if a.len() != b.len() {
        assert(spec_lower_seq(a@).len() != spec_lower_seq(b@).len());
        return false;
    }
    let n = a.len();
    for i in 0..n
        invariant
            n == a@.len() == b@.len(),
            forall|k: int| 0 <= k < i ==> spec_lower(a@[k]) == spec_lower(b@[k]),
    {
        if lower(a[i]) != lower(b[i]) {
            assert(spec_lower_seq(a@)[i as int] != spec_lower_seq(b@)[i as int]);
            return false;
        }
    }
    assert(spec_lower_seq(a@) =~= spec_lower_seq(b@));
    true
}

/// Compares two byte strings for equality.
pub fn bytes_eq(a: &[u8], b: &[u8]) -> (r: bool)
    ensures
        r == (a@ == b@),
{
    if a.len() != b.len() {
        return false;
    }
    let n = a.len();
    for i in 0..n
        invariant
            n == a@.len() == b@.len(),
            forall|k: int| 0 <= k < i ==> a@[k] == b@[k],
    {
        if a[i] != b[i] {
            return false;
        }
    }
    assert(a@ =~= b@);
    true
}

/// Whether `p` is a prefix of `s`.
pub open spec fn spec_is_prefix(p: Seq<u8>, s: Seq<u8>) -> bool {
    p.len() <= s.len() && p == s.subrange(0, p.len() as int)
}

/// Tests whether `s` starts with the byte string `p`.
pub fn starts_with(s: &[u8], p: &[u8]) -> (r: bool)
    ensures
        r == spec_is_prefix(p@, s@),
{
    if p.len() > s.len() {
        return false;
    }
    let n = p.len();
    for i in 0..n
        invariant
            n == p@.len() <= s@.len(),
            forall|k: int| 0 <= k < i ==> p@[k] == s@[k],
    {
        if p[i] != s[i] {
            assert(p@[i as int] != s@.subrange(0, n as int)[i as int]);
            return false;
        }
    }
    assert(p@ =~= s@.subrange(0, n as int));
    true
}

/// Whether every byte is visible ASCII (or horizontal tab), the values a
/// header can expose as text.
pub open spec fn spec_is_visible(v: Seq<u8>) -> bool {
    forall|i: int| 0 <= i < v.len() ==> (32 <= #[trigger] v[i] && v[i] < 127) || v[i] == 9
}

/// Tests whether a header value consists only of visible ASCII bytes or tab.
pub fn is_visible(v: &[u8]) -> (r: bool)
    ensures
        r == spec_is_visible(v@),
{
    let n = v.len();
    for i in 0..n
        invariant
            n == v@.len(),
            forall|k: int| 0 <= k < i ==> (32 <= #[trigger] v@[k] && v@[k] < 127) || v@[k] == 9,
    {
        let b = v[i];
        if !((32 <= b && b < 127) || b == 9) {
            return false;
        }
    }
    true
}

/// Index of the first occurrence of `b` in `s`, or `s.len()` if absent.
pub open spec fn spec_find(s: Seq<u8>, b: u8) -> int
    decreases s.len(),
{
    if s.len() == 0 {
        0
    } else if s[0] == b {
        0
    } else {
        1 + spec_find(s.drop_first(), b)
    }
}

/// `spec_find` is characterised by its first-occurrence property.
pub proof fn lemma_find_at(s: Seq<u8>, b: u8, i: int)
    requires
        0 <= i <= s.len(),
        forall|k: int| 0 <= k < i ==> s[k] != b,
        i == s.len() || s[i] == b,
    ensures
        spec_find(s, b) == i,
    decreases i,
{
    if i == 0 {
        if s.len() > 0 {
            assert(s[0] == b);
        }
    } else {
        assert(s[0] != b);
        lemma_find_at(s.drop_first(), b, i - 1);
    }
}

/// Scans `s` from `from` for the first occurrence of `b`.
pub fn find_byte(s: &[u8], from: usize, b: u8) -> (j: usize)
    requires
        from <= s@.len(),
    ensures
        from <= j <= s@.len(),
        j - from == spec_find(s@.skip(from as int), b),
        forall|k: int| from <= k < j ==> s@[k] != b,
        j < s@.len() ==> s@[j as int] == b,
{
    let n = s.len();
    let mut j = from;
    while j < n && s[j] != b
        invariant
            from <= j <= n,
            n == s@.len(),
            forall|k: int| from <= k < j ==> s@[k] != b,
        decreases n - j,
    {
        j += 1;
    }
    proof {
        let t = s@.skip(from as int);
        assert forall|k: int| 0 <= k < j - from implies t[k] != b by {
            assert(t[k] == s@[from + k]);
        }
        if j < n {
            assert(t[j - from] == s@[j as int]);
        }
        lemma_find_at(t, b, j - from);
    }
    j
}

/// Number of leading ASCII whitespace bytes.
pub open spec fn spec_ws_prefix_len(s: Seq<u8>) -> int
    decreases s.len(),
{
    if s.len() == 0 {
        0
    } else if !spec_is_ws(s[0]) {
        0
    } else {
        1 + spec_ws_prefix_len(s.drop_first())
    }
}

/// Number of trailing ASCII whitespace bytes.
pub open spec fn spec_ws_suffix_len(s: Seq<u8>) -> int
    decreases s.len(),
{
    if s.len() == 0 {
        0
    } else if !spec_is_ws(s.last()) {
        0
    } else {
        1 + spec_ws_suffix_len(s.drop_last())
    }
}

/// `s` with leading and trailing ASCII whitespace removed.
pub open spec fn spec_trim(s: Seq<u8>) -> Seq<u8> {
    let p = spec_ws_prefix_len(s);
    if p == s.len() {
        Seq::empty()
    } else {
        s.subrange(p, s.len() - spec_ws_suffix_len(s))
    }
}

proof fn lemma_ws_prefix_at(s: Seq<u8>, p: int)
    requires
        0 <= p <= s.len(),
        forall|k: int| 0 <= k < p ==> spec_is_ws(s[k]),
        p == s.len() || !spec_is_ws(s[p]),
    ensures
        spec_ws_prefix_len(s) == p,
    decreases p,
{
    if p == 0 {
    } else {
        assert(spec_is_ws(s[0]));
        lemma_ws_prefix_at(s.drop_first(), p - 1);
    }
}

proof fn lemma_ws_suffix_at(s: Seq<u8>, q: int)
    requires
        0 <= q <= s.len(),
        forall|k: int| s.len() - q <= k < s.len() ==> spec_is_ws(s[k]),
        q == s.len() || !spec_is_ws(s[s.len() - 1 - q]),
    ensures
        spec_ws_suffix_len(s) == q,
    decreases q,
{
    if q == 0 {
    } else {
        assert(spec_is_ws(s.last()));
        lemma_ws_suffix_at(s.drop_last(), q - 1);
    }
}

/// A nonempty sequence whose first and last bytes are not whitespace trims
/// to itself.
pub proof fn lemma_trim_of_clean(s: Seq<u8>)
    requires
        s.len() > 0,
        !spec_is_ws(s[0]),
        !spec_is_ws(s[s.len() - 1]),
    ensures
        spec_trim(s) == s,
{
    lemma_ws_prefix_at(s, 0);
    lemma_ws_suffix_at(s, 0);
    assert(s.subrange(0, s.len() as int) =~= s);
}

/// Copies out `v[i..j]`.
pub fn sub_vec(v: &[u8], i: usize, j: usize) -> (r: Vec<u8>)
    requires
        i <= j <= v@.len(),
    ensures
        r@ == v@.subrange(i as int, j as int),
{
    slice_to_vec(slice_subrange(v, i, j))
}

/// Trims ASCII whitespace from both ends of `v`.
pub fn trim(v: &[u8]) -> (r: Vec<u8>)
    ensures
        r@ == spec_trim(v@),
{
    let n = v.len();
    let mut lo: usize = 0;
    while lo < n && is_ws(v[lo])
        invariant
            0 <= lo <= n,
            n == v@.len(),
            forall|k: int| 0 <= k < lo ==> spec_is_ws(v@[k]),
        decreases n - lo,
    {
        lo += 1;
    }
    if lo == n {
        proof {
            lemma_ws_prefix_at(v@, n as int);
        }
        return Vec::new();
    }
    proof {
        lemma_ws_prefix_at(v@, lo as int);
    }
    let mut hi: usize = n;
    while is_ws(v[hi - 1])
        invariant
            lo < hi <= n,
            n == v@.len(),
            !spec_is_ws(v@[lo as int]),
            forall|k: int| hi <= k < n ==> spec_is_ws(v@[k]),
        decreases hi,
    {
        hi -= 1;
    }
    proof {
        lemma_ws_suffix_at(v@, n - hi);
    }
    sub_vec(v, lo, hi)
}

/// Whether a byte is an ASCII decimal digit.
pub open spec fn spec_is_digit(b: u8) -> bool {
    48 <= b && b <= 57
}

/// Whether every byte of `s` is an ASCII decimal digit.
pub open spec fn spec_all_digits(s: Seq<u8>) -> bool {
    forall|i: int| 0 <= i < s.len() ==> spec_is_digit(#[trigger] s[i])
}

/// The integer value of a digit string (meaningful when all bytes are digits).
pub open spec fn spec_digits_val(s: Seq<u8>) -> int
    decreases s.len(),
{
    if s.len() == 0 {
        0
    } else {
        spec_digits_val(s.drop_last()) * 10 + (s.last() - 48)
    }
}

/// Decimal parse in the manner of Rust's unsigned integer parsing: an
/// optional leading plus sign, then one or more digits, rejecting overflow.
pub open spec fn spec_parse_u64(s: Seq<u8>) -> Option<u64> {
    if s.len() > 0 && s[0] == PLUS {
        spec_parse_digits(s.drop_first())
    } else {
        spec_parse_digits(s)
    }
}

/// Decimal parse of a bare digit string.
pub open spec fn spec_parse_digits(s: Seq<u8>) -> Option<u64> {
    if s.len() > 0 && spec_all_digits(s) && spec_digits_val(s) <= u64::MAX {
        Some(spec_digits_val(s) as u64)
    } else {
        None
    }
}

proof fn lemma_digits_val_nonneg(s: Seq<u8>)
    requires
        spec_all_digits(s),
    ensures
        spec_digits_val(s) >= 0,
    decreases s.len(),
{
    if s.len() > 0 {
        assert(spec_all_digits(s.drop_last())) by {
            assert(forall|i: int|
                0 <= i < s.len() - 1 ==> spec_is_digit(#[trigger] s.drop_last()[i]));
        }
        lemma_digits_val_nonneg(s.drop_last());
    }
}

proof fn lemma_digits_val_monotone(s: Seq<u8>, j: int)
    requires
        spec_all_digits(s),
        0 <= j <= s.len(),
    ensures
        spec_digits_val(s.subrange(0, j)) <= spec_digits_val(s),
    decreases s.len() - j,
{
    if j == s.len() {
        assert(s.subrange(0, j) =~= s);
    } else {
        let t = s.subrange(0, j + 1);
        assert(t.drop_last() =~= s.subrange(0, j));
        assert(spec_all_digits(t.drop_last()));
        lemma_digits_val_nonneg(t.drop_last());
        assert(spec_digits_val(t) == spec_digits_val(s.subrange(0, j)) * 10 + (s[j] - 48));
        lemma_digits_val_monotone(s, j + 1);
    }
}

/// Parses a bare digit string into a `u64`.
fn parse_digits(s: &[u8]) -> (r: Option<u64>)
    ensures
        r == spec_parse_digits(s@),
{
    let n = s.len();
    if n == 0 {
        return None;
    }
    let mut acc: u64 = 0;
    for i in 0..n
        invariant
            n == s@.len(),
            forall|k: int| 0 <= k < i ==> spec_is_digit(#[trigger] s@[k]),
            acc == spec_digits_val(s@.subrange(0, i as int)),
    {
        let b = s[i];
        if !(48 <= b && b <= 57) {
            assert(!spec_all_digits(s@));
            return None;
        }
        let d = (b - 48) as u64;
        proof {
            assert(s@.subrange(0, i + 1).drop_last() =~= s@.subrange(0, i as int));
        }
        if acc > (u64::MAX - d) / 10 {
            proof {
                assert(spec_digits_val(s@.subrange(0, i + 1)) > u64::MAX);
                if spec_all_digits(s@) {
                    lemma_digits_val_monotone(s@, i + 1);
                }
            }
            return None;
        }
        acc = acc * 10 + d;
    }
    proof {
        assert(s@.subrange(0, n as int) =~= s@);
    }
    Some(acc)
}

/// Parses a decimal header value in the manner of Rust's `u64` parsing.
pub fn parse_u64(s: &[u8]) -> (r: Option<u64>)
    ensures
        r == spec_parse_u64(s@),
{
    if s.len() > 0 && s[0] == PLUS {
        let rest = slice_subrange(s, 1, s.len());
        assert(rest@ =~= s@.drop_first());
        parse_digits(rest)
    } else {
        parse_digits(s)
    }
}

} // verus!
