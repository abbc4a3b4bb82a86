//! Verified string helpers: equality, prefix and substring tests (also
//! ASCII-case-insensitive), trimming, and decimal parsing, all specified
//! over `Seq<char>` views.

use vstd::prelude::*;

verus! {

/// ASCII lowering of one character; every other character is unchanged.
pub open spec fn lower_char(c: char) -> char {
    if 'A' <= c && c <= 'Z' {
        ((c as u32) + 32) as char
    } else {
        c
    }
}

/// ASCII lowering of a character sequence.
pub open spec fn lower_seq(s: Seq<char>) -> Seq<char> {
    s.map_values(|c: char| lower_char(c))
}

/// `p` occurs in `s` starting at position `i`.
pub open spec fn matches_at(s: Seq<char>, p: Seq<char>, i: int) -> bool {
    0 <= i && i + p.len() <= s.len() && s.subrange(i, i + p.len()) == p
}

/// `p` occurs somewhere in `s`.
pub open spec fn contains_seq(s: Seq<char>, p: Seq<char>) -> bool {
    exists|i: int| matches_at(s, p, i)
}

/// `p` occurs somewhere in `s`, comparing ASCII letters case-insensitively.
pub open spec fn contains_ci(s: Seq<char>, p: Seq<char>) -> bool {
    contains_seq(lower_seq(s), lower_seq(p))
}

/// `s` begins with `p`.
pub open spec fn has_prefix(s: Seq<char>, p: Seq<char>) -> bool {
    p.len() <= s.len() && s.subrange(0, p.len() as int) == p
}

/// The characters with the Unicode `White_Space` property, those that
/// `str::trim` removes.
pub open spec fn is_ws(c: char) -> bool {
    c == '\u{0009}' || c == '\u{000A}' || c == '\u{000B}' || c == '\u{000C}' || c == '\u{000D}'
        || c == '\u{0020}' || c == '\u{0085}' || c == '\u{00A0}' || c == '\u{1680}' || (
    '\u{2000}' <= c && c <= '\u{200A}') || c == '\u{2028}' || c == '\u{2029}' || c == '\u{202F}'
        || c == '\u{205F}' || c == '\u{3000}'
}

/// Number of leading whitespace characters of `s`.
pub open spec fn ws_prefix_len(s: Seq<char>) -> int
    decreases s.len(),
{
    if s.len() == 0 {
        0
    } else if is_ws(s[0]) {
        1 + ws_prefix_len(s.skip(1))
    } else {
        0
    }
}

/// Number of trailing whitespace characters of `s`.
pub open spec fn ws_suffix_len(s: Seq<char>) -> int
    decreases s.len(),
{
    if s.len() == 0 {
        0
    } else if is_ws(s[s.len() - 1]) {
        1 + ws_suffix_len(s.take(s.len() - 1))
    } else {
        0
    }
}

/// `s` with leading and trailing whitespace removed.
pub open spec fn trim_spec(s: Seq<char>) -> Seq<char> {
    let a = ws_prefix_len(s);
    if a == s.len() {
        Seq::empty()
    } else {
        s.subrange(a, s.len() - ws_suffix_len(s))
    }
}

proof fn lemma_ws_prefix_le(s: Seq<char>)
    ensures
        0 <= ws_prefix_len(s) <= s.len(),
        forall|i: int| 0 <= i < ws_prefix_len(s) ==> is_ws(s[i]),
        ws_prefix_len(s) < s.len() ==> !is_ws(s[ws_prefix_len(s)]),
    decreases s.len(),
{
    if s.len() > 0 && is_ws(s[0]) {
        lemma_ws_prefix_le(s.skip(1));
        assert forall|i: int| 0 <= i < ws_prefix_len(s) implies is_ws(s[i]) by {
            if i > 0 {
                assert(s.skip(1)[i - 1] == s[i]);
            }
        }
        if ws_prefix_len(s) < s.len() {
            assert(s.skip(1)[ws_prefix_len(s.skip(1))] == s[ws_prefix_len(s)]);
        }
    }
}

proof fn lemma_ws_suffix_le(s: Seq<char>)
    ensures
        0 <= ws_suffix_len(s) <= s.len(),
        forall|i: int| s.len() - ws_suffix_len(s) <= i < s.len() ==> is_ws(s[i]),
        ws_suffix_len(s) < s.len() ==> !is_ws(s[s.len() - ws_suffix_len(s) - 1]),
    decreases s.len(),
{
    if s.len() > 0 && is_ws(s[s.len() - 1]) {
        lemma_ws_suffix_le(s.take(s.len() - 1));
        assert forall|i: int| s.len() - ws_suffix_len(s) <= i < s.len() implies is_ws(s[i]) by {
            if i < s.len() - 1 {
                assert(s.take(s.len() - 1)[i] == s[i]);
            }
        }
        if ws_suffix_len(s) < s.len() {
            let t = s.take(s.len() - 1);
            assert(t[t.len() - ws_suffix_len(t) - 1] == s[s.len() - ws_suffix_len(s) - 1]);
        }
    }
}

/// Whether the character at one position is whitespace.
pub fn is_ws_char(c: char) -> (r: bool)
    ensures
        r == is_ws(c),
{
    c == '\u{0009}' || c == '\u{000A}' || c == '\u{000B}' || c == '\u{000C}' || c == '\u{000D}'
        || c == '\u{0020}' || c == '\u{0085}' || c == '\u{00A0}' || c == '\u{1680}' || (
    '\u{2000}' <= c && c <= '\u{200A}') || c == '\u{2028}' || c == '\u{2029}' || c == '\u{202F}'
        || c == '\u{205F}' || c == '\u{3000}'
}

/// Character-wise equality of two string slices.
pub fn str_eq(a: &str, b: &str) -> (r: bool)
    ensures
        r == (a@ == b@),
{
    let n = a.unicode_len();
    let m = b.unicode_len();
    if n != m {
        proof {
            assert(a@ != b@) by {
                if a@ == b@ {
                    assert(a@.len() == b@.len());
                }
            }
        }
        return false;
    }
    let mut i: usize = 0;
    while i < n
        invariant
            n == a@.len(),
            n == b@.len(),
            0 <= i <= n,
            forall|j: int| 0 <= j < i ==> a@[j] == b@[j],
        decreases n - i,
    {
        if a.get_char(i) != b.get_char(i) {
            return false;
        }
        i += 1;
    }
    proof {
        assert(a@ =~= b@);
    }
    true
}

/// Whether `s` starts with `p` (exact characters).
pub fn starts_with_str(s: &str, p: &str) -> (r: bool)
    ensures
        r == has_prefix(s@, p@),
{
    let n = s.unicode_len();
    let m = p.unicode_len();
    if m > n {
        return false;
    }
    let mut i: usize = 0;
    while i < m
        invariant
            n == s@.len(),
            m == p@.len(),
            m <= n,
            0 <= i <= m,
            forall|j: int| 0 <= j < i ==> s@[j] == p@[j],
        decreases m - i,
    {
        if s.get_char(i) != p.get_char(i) {
            proof {
                assert(!has_prefix(s@, p@)) by {
                    if has_prefix(s@, p@) {
                        assert(s@.subrange(0, p@.len() as int)[i as int] == p@[i as int]);
                    }
                }
            }
            return false;
        }
        i += 1;
    }
    proof {
        assert(s@.subrange(0, p@.len() as int) =~= p@);
    }
    true
}

/// ASCII lowering of one character, executable form.
pub fn lower_char_exec(c: char) -> (r: char)
    ensures
        r == lower_char(c),
{
    match c {
        'A' => 'a',
        'B' => 'b',
        'C' => 'c',
        'D' => 'd',
        'E' => 'e',
        'F' => 'f',
        'G' => 'g',
        'H' => 'h',
        'I' => 'i',
        'J' => 'j',
        'K' => 'k',
        'L' => 'l',
        'M' => 'm',
        'N' => 'n',
        'O' => 'o',
        'P' => 'p',
        'Q' => 'q',
        'R' => 'r',
        'S' => 's',
        'T' => 't',
        'U' => 'u',
        'V' => 'v',
        'W' => 'w',
        'X' => 'x',
        'Y' => 'y',
        'Z' => 'z',
        _ => c,
    }
}

/// Whether `p` occurs in `s` starting at position `i`, comparing ASCII
/// letters case-insensitively.
fn matches_ci_at(s: &str, p: &str, i: usize) -> (r: bool)
    requires
        i + p@.len() <= s@.len(),
    ensures
        r == matches_at(lower_seq(s@), lower_seq(p@), i as int),
{
    let n = s.unicode_len();
    let m = p.unicode_len();
    let mut j: usize = 0;
    while j < m
        invariant
            n == s@.len(),
            m == p@.len(),
            i + m <= s@.len(),
            0 <= j <= m,
            forall|k: int| 0 <= k < j ==> lower_seq(s@)[i + k] == lower_seq(p@)[k],
        decreases m - j,
    {
        if lower_char_exec(s.get_char(i + j)) != lower_char_exec(p.get_char(j)) {
            proof {
                assert(!matches_at(lower_seq(s@), lower_seq(p@), i as int)) by {
                    if matches_at(lower_seq(s@), lower_seq(p@), i as int) {
                        assert(lower_seq(s@).subrange(i as int, i + lower_seq(p@).len())[j as int]
                            == lower_seq(p@)[j as int]);
                    }
                }
            }
            return false;
        }
        j += 1;
    }
    proof {
        assert(lower_seq(s@).subrange(i as int, i + lower_seq(p@).len()) =~= lower_seq(p@));
    }
    true
}

/// Whether `p` occurs anywhere in `s`, comparing ASCII letters
/// case-insensitively.
pub fn contains_ci_str(s: &str, p: &str) -> (r: bool)
    ensures
        r == contains_ci(s@, p@),
{
    let n = s.unicode_len();
    let m = p.unicode_len();
    if m > n {
        proof {
            assert(!contains_ci(s@, p@)) by {
                if contains_ci(s@, p@) {
                    let i = choose|i: int| matches_at(lower_seq(s@), lower_seq(p@), i);
                }
            }
        }
        return false;
    }
    if m == 0 {
        proof {
            assert(lower_seq(s@).subrange(0, 0) =~= lower_seq(p@));
            assert(matches_at(lower_seq(s@), lower_seq(p@), 0));
        }
        return true;
    }
    let mut i: usize = 0;
    while i <= n - m
        invariant
            n == s@.len(),
            m == p@.len(),
            0 < m <= n,
            0 <= i <= n - m + 1,
            forall|k: int| 0 <= k < i ==> !matches_at(lower_seq(s@), lower_seq(p@), k),
        decreases n - i,
    {
        if matches_ci_at(s, p, i) {
            return true;
        }
        i += 1;
    }
    proof {
        assert(!contains_ci(s@, p@)) by {
            if contains_ci(s@, p@) {
                let k = choose|k: int| matches_at(lower_seq(s@), lower_seq(p@), k);
                assert(!(0 <= k < i as int));
            }
        }
    }
    false
}

/// Whether `p` occurs anywhere in `s` (exact characters).
pub fn contains_str(s: &str, p: &str) -> (r: bool)
    ensures
        r == contains_seq(s@, p@),
{
    let n = s.unicode_len();
    let m = p.unicode_len();
    if m > n {
        proof {
            assert(!contains_seq(s@, p@)) by {
                if contains_seq(s@, p@) {
                    let i = choose|i: int| matches_at(s@, p@, i);
                }
            }
        }
        return false;
    }
    if m == 0 {
        proof {
            assert(s@.subrange(0, 0) =~= p@);
            assert(matches_at(s@, p@, 0));
        }
        return true;
    }
    let mut i: usize = 0;
    while i <= n - m
        invariant
            n == s@.len(),
            m == p@.len(),
            0 < m <= n,
            0 <= i <= n - m + 1,
            forall|k: int| 0 <= k < i ==> !matches_at(s@, p@, k),
        decreases n - i,
    {
        if matches_exact_at(s, p, i) {
            return true;
        }
        i += 1;
    }
    proof {
        assert(!contains_seq(s@, p@)) by {
            if contains_seq(s@, p@) {
                let k = choose|k: int| matches_at(s@, p@, k);
                assert(!(0 <= k < i as int));
            }
        }
    }
    false
}

/// Whether `p` occurs in `s` starting at position `i` (exact characters).
fn matches_exact_at(s: &str, p: &str, i: usize) -> (r: bool)
    requires
        i + p@.len() <= s@.len(),
    ensures
        r == matches_at(s@, p@, i as int),
{
    let n = s.unicode_len();
    let m = p.unicode_len();
    let mut j: usize = 0;
    while j < m
        invariant
            n == s@.len(),
            m == p@.len(),
            i + m <= s@.len(),
            0 <= j <= m,
            forall|k: int| 0 <= k < j ==> s@[i + k] == p@[k],
        decreases m - j,
    {
        if s.get_char(i + j) != p.get_char(j) {
            proof {
                assert(!matches_at(s@, p@, i as int)) by {
                    if matches_at(s@, p@, i as int) {
                        assert(s@.subrange(i as int, i + p@.len())[j as int] == p@[j as int]);
                    }
                }
            }
            return false;
        }
        j += 1;
    }
    proof {
        assert(s@.subrange(i as int, i + p@.len()) =~= p@);
    }
    true
}

/// `str::trim`: the slice with leading and trailing whitespace removed.
pub fn trim_str<'a>(s: &'a str) -> (r: &'a str)
    ensures
        r@ == trim_spec(s@),
{
    let n = s.unicode_len();
    let mut a: usize = 0;
    while a < n && is_ws_char(s.get_char(a))
        invariant
            n == s@.len(),
            0 <= a <= n,
            forall|j: int| 0 <= j < a ==> is_ws(s@[j]),
        decreases n - a,
    {
        a += 1;
    }
    proof {
        lemma_ws_prefix_le(s@);
        assert(ws_prefix_len(s@) == a) by {
            lemma_ws_prefix_count(s@, a as int);
        }
    }
    if a == n {
        proof {
            assert(trim_spec(s@) =~= Seq::<char>::empty());
        }
        let r = s.substring_char(0, 0);
        proof {
            assert(r@ =~= trim_spec(s@));
        }
        return r;
    }
    let mut b: usize = n;
    while b > a && is_ws_char(s.get_char(b - 1))
        invariant
            n == s@.len(),
            0 <= a < n,
            a <= b <= n,
            forall|j: int| b <= j < n ==> is_ws(s@[j]),
            !is_ws(s@[a as int]),
        decreases b,
    {
        b -= 1;
    }
    proof {
        lemma_ws_suffix_le(s@);
        assert(b > a);
        assert(!is_ws(s@[b - 1]));
        assert(ws_suffix_len(s@) == n - b) by {
            lemma_ws_suffix_count(s@, b as int);
        }
    }
    let r = s.substring_char(a, b);
    proof {
        assert(r@ =~= trim_spec(s@));
    }
    r
}

proof fn lemma_ws_prefix_count(s: Seq<char>, a: int)
    requires
        0 <= a <= s.len(),
        forall|j: int| 0 <= j < a ==> is_ws(s[j]),
        a < s.len() ==> !is_ws(s[a]),
    ensures
        ws_prefix_len(s) == a,
    decreases s.len(),
{
    if s.len() > 0 && is_ws(s[0]) {
        assert(a >= 1);
        lemma_ws_prefix_count(s.skip(1), a - 1);
    }
}

proof fn lemma_ws_suffix_count(s: Seq<char>, b: int)
    requires
        0 <= b <= s.len(),
        forall|j: int| b <= j < s.len() ==> is_ws(s[j]),
        b > 0 ==> !is_ws(s[b - 1]),
    ensures
        ws_suffix_len(s) == s.len() - b,
    decreases s.len(),
{
    if s.len() > 0 && is_ws(s[s.len() - 1]) {
        assert(b < s.len());
        lemma_ws_suffix_count(s.take(s.len() - 1), b);
    }
}

/// Relies on `String::push`: appends one character at the end.
#[verifier::external_body]
pub fn push_char(s: &mut String, c: char)
    ensures
        final(s)@ == old(s)@.push(c),
{
    s.push(c);
}

/// The decimal digit characters of `n`, most significant first: a single
/// digit below ten, else the digits of the quotient followed by the last
/// digit.
pub open spec fn u64_digits(n: u64) -> Seq<char>
    decreases n,
{
    if n < 10 {
        seq![(48 + n) as char]
    } else {
        u64_digits((n / 10) as u64).push((48 + n % 10) as char)
    }
}

/// Relies on `u64::to_string` (`Display` for integers): the plain decimal
/// digits of the value, no sign, no padding, no leading zero except for 0.
#[verifier::external_body]
pub fn u64_to_string(n: u64) -> (r: String)
    ensures
        r@ == u64_digits(n),
{
    n.to_string()
}


/// Relies on `str::to_lowercase`: the Unicode-lowercased text, a function
/// of the characters alone.
pub uninterp spec fn lower_of(s: Seq<char>) -> Seq<char>;

/// Relies on `str::to_lowercase`: the result depends on the characters alone;
/// an empty string stays empty.
#[verifier::external_body]
pub fn lowercase(s: &str) -> (r: String)
    ensures
        r@ == lower_of(s@),
        s@.len() == 0 ==> r@.len() == 0,
{
    s.to_lowercase()
}

/// A decimal digit character.
pub open spec fn is_digit(c: char) -> bool {
    '0' <= c && c <= '9'
}

/// The value of a decimal digit character.
pub open spec fn digit_val(c: char) -> int {
    c as u32 - 48
}

/// Every character of `s` is a decimal digit.
pub open spec fn all_digits(s: Seq<char>) -> bool {
    forall|i: int| 0 <= i < s.len() ==> is_digit(#[trigger] s[i])
}

/// The value of a digit string, most significant first.
pub open spec fn digits_val(s: Seq<char>) -> int
    decreases s.len(),
{
    if s.len() == 0 {
        0
    } else {
        digits_val(s.take(s.len() - 1)) * 10 + digit_val(s[s.len() - 1])
    }
}

/// The digits of an unsigned numeral, after an optional leading `+`.
pub open spec fn parse_body(s: Seq<char>) -> Seq<char> {
    if s.len() > 0 && s[0] == '+' {
        s.skip(1)
    } else {
        s
    }
}

/// What `str::parse` yields for an unsigned integer, before any range
/// check: the value of the digits after an optional `+`, or nothing for
/// a malformed string.
pub open spec fn spec_parse_uint(s: Seq<char>) -> Option<int> {
    if parse_body(s).len() > 0 && all_digits(parse_body(s)) {
        Some(digits_val(parse_body(s)))
    } else {
        None
    }
}

/// What `str::parse` yields for a signed integer, before any range check.
pub open spec fn spec_parse_int(s: Seq<char>) -> Option<int> {
    if s.len() > 0 && s[0] == '-' {
        let body = s.skip(1);
        if body.len() > 0 && all_digits(body) {
            Some(-digits_val(body))
        } else {
            None
        }
    } else {
        spec_parse_uint(s)
    }
}

proof fn lemma_digits_val_bounds(s: Seq<char>)
    requires
        all_digits(s),
    ensures
        digits_val(s) >= 0,
        s.len() > 0 ==> digits_val(s) >= digit_val(s[s.len() - 1]),
    decreases s.len(),
{
    if s.len() > 0 {
        assert(all_digits(s.take(s.len() - 1))) by {
            assert(forall|i: int|
                0 <= i < s.len() - 1 ==> s.take(s.len() - 1)[i] == #[trigger] s[i]);
        }
        lemma_digits_val_bounds(s.take(s.len() - 1));
    }
}

/// Parses an unsigned decimal integer as `str::parse::<u64>` does: an
/// optional `+`, then digits; malformed text or a value over the bound
/// is rejected.
pub fn parse_u64_str(s: &str) -> (r: Option<u64>)
    ensures
        r is Some <==> (spec_parse_uint(s@) is Some && spec_parse_uint(s@)->0 <= u64::MAX),
        r is Some ==> r->0 == spec_parse_uint(s@)->0,
{
    let n = s.unicode_len();
    let mut i: usize = 0;
    if n > 0 && s.get_char(0) == '+' {
        i = 1;
    }
    let ghost body = parse_body(s@);
    let start = i;
    if i == n {
        proof {
            assert(body.len() == 0);
        }
        return None;
    }
    let mut acc: u64 = 0;
    while i < n
        invariant
            n == s@.len(),
            start == (if s@.len() > 0 && s@[0] == '+' {
                1int
            } else {
                0int
            }),
            body == s@.skip(start as int),
            start <= i <= n,
            start < n,
            forall|j: int| 0 <= j < i - start ==> is_digit(#[trigger] body[j]),
            acc == digits_val(body.take(i - start)),
        decreases n - i,
    {
        proof {
            assert(s@.skip(0) =~= s@);
            assert(body == parse_body(s@));
        }
        let c = s.get_char(i);
        if !('0' <= c && c <= '9') {
            proof {
                assert(body[i - start] == s@[i as int]);
                assert(!all_digits(body));
            }
            return None;
        }
        let d: u64 = char_digit_value(c);
        proof {
            assert(body[i - start] == s@[i as int]);
            assert(body.take(i - start + 1).drop_last() =~= body.take(i - start));
            assert(body.take(i - start + 1).last() == body[i - start]);
        }
        if acc > (u64::MAX - d) / 10 {
            proof {
                let q = (u64::MAX - d) / 10;
                assert(q * 10 + (u64::MAX - d) % 10 == u64::MAX - d);
                assert(acc * 10 >= (q + 1) * 10);
                assert(digits_val(body.take(i - start + 1)) == acc * 10 + d);
                assert(digits_val(body.take(i - start + 1)) > u64::MAX);
                lemma_uint_overflow(s@, i - start + 1);
            }
            return None;
        }
        acc = acc * 10 + d;
        i += 1;
    }
    proof {
        assert(body.take(n - start) =~= body);
        assert(all_digits(body));
    }
    Some(acc)
}

/// The numeric value of a digit character.
pub fn char_digit_value(c: char) -> (r: u64)
    requires
        is_digit(c),
    ensures
        r == digit_val(c),
{
    match c {
        '0' => 0,
        '1' => 1,
        '2' => 2,
        '3' => 3,
        '4' => 4,
        '5' => 5,
        '6' => 6,
        '7' => 7,
        '8' => 8,
        _ => 9,
    }
}

/// A digit string is worth at least any of its prefixes.
proof fn lemma_digits_prefix_le(s: Seq<char>, k: int)
    requires
        all_digits(s),
        0 <= k <= s.len(),
    ensures
        digits_val(s.take(k)) <= digits_val(s),
    decreases s.len() - k,
{
    lemma_digits_val_bounds(s);
    if k < s.len() {
        lemma_digits_prefix_le(s, k + 1);
        assert(s.take(k + 1).drop_last() =~= s.take(k));
        assert(s.take(k + 1).last() == s[k]);
        assert(all_digits(s.take(k))) by {
            assert(forall|i: int| 0 <= i < k ==> s.take(k)[i] == #[trigger] s[i]);
        }
        lemma_digits_val_bounds(s.take(k));
        assert(digits_val(s.take(k + 1)) == digits_val(s.take(k)) * 10 + digit_val(s[k]));
    } else {
        assert(s.take(k) =~= s);
    }
}

/// Parses a `u32` as `str::parse` does.
pub fn parse_u32_str(s: &str) -> (r: Option<u32>)
    ensures
        r is Some <==> (spec_parse_uint(s@) is Some && spec_parse_uint(s@)->0 <= u32::MAX),
        r is Some ==> r->0 == spec_parse_uint(s@)->0,
{
    match parse_u64_str(s) {
        Some(v) => if v <= 0xffff_ffffu64 {
            Some(v as u32)
        } else {
            None
        },
        None => {
            proof {
                if spec_parse_uint(s@) is Some && spec_parse_uint(s@)->0 <= u32::MAX {
                }
            }
            None
        },
    }
}

/// Parses a `u8` as `str::parse` does.
pub fn parse_u8_str(s: &str) -> (r: Option<u8>)
    ensures
        r is Some <==> (spec_parse_uint(s@) is Some && spec_parse_uint(s@)->0 <= u8::MAX),
        r is Some ==> r->0 == spec_parse_uint(s@)->0,
{
    match parse_u64_str(s) {
        Some(v) => if v <= 255u64 {
            Some(v as u8)
        } else {
            None
        },
        None => None,
    }
}

/// Parses an `i32` as `str::parse` does: an optional sign, then digits.
pub fn parse_i32_str(s: &str) -> (r: Option<i32>)
    ensures
        r is Some <==> (spec_parse_int(s@) is Some && i32::MIN <= spec_parse_int(s@)->0
            <= i32::MAX),
        r is Some ==> r->0 == spec_parse_int(s@)->0,
{
    let n = s.unicode_len();
    if n > 0 && s.get_char(0) == '-' {
        let rest = s.substring_char(1, n);
        proof {
            assert(rest@ =~= s@.skip(1));
        }
        if rest.unicode_len() > 0 && rest.get_char(0) == '+' {
            proof {
                assert(!all_digits(s@.skip(1)));
            }
            return None;
        }
        match parse_u64_str(rest) {
            Some(v) => {
                proof {
                    assert(spec_parse_uint(rest@)->0 == digits_val(rest@));
                    lemma_all_digits_nonneg(rest@);
                }
                if v <= 0x8000_0000u64 {
                    if v == 0x8000_0000u64 {
                        Some(i32::MIN)
                    } else {
                        Some(0i32 - (v as i32))
                    }
                } else {
                    None
                }
            },
            None => None,
        }
    } else {
        match parse_u64_str(s) {
            Some(v) => if v <= 0x7fff_ffffu64 {
                proof {
                    lemma_all_digits_nonneg(parse_body(s@));
                }
                Some(v as i32)
            } else {
                None
            },
            None => None,
        }
    }
}

/// A numeral whose digit prefix already exceeds the bound is rejected.
proof fn lemma_uint_overflow(s: Seq<char>, k: int)
    requires
        0 <= k <= parse_body(s).len(),
        digits_val(parse_body(s).take(k)) > u64::MAX,
    ensures
        !(spec_parse_uint(s) is Some && spec_parse_uint(s)->0 <= u64::MAX),
{
    if parse_body(s).len() > 0 && all_digits(parse_body(s)) {
        lemma_digits_prefix_le(parse_body(s), k);
    }
}

/// The value of a digit string is never negative.
proof fn lemma_all_digits_nonneg(s: Seq<char>)
    requires
        all_digits(s),
    ensures
        digits_val(s) >= 0,
{
    lemma_digits_val_bounds(s);
}

/// `s` with every space removed.
pub open spec fn spec_no_spaces(s: Seq<char>) -> Seq<char> {
    s.filter(|c: char| c != ' ')
}

/// Removes every space, as `str::replace(" ", "")` does.
pub fn remove_spaces(s: &str) -> (r: String)
    ensures
        r@ == spec_no_spaces(s@),
{
    let n = s.unicode_len();
    let mut r = String::new();
    let mut i: usize = 0;
    proof {
        assert(s@.take(0int).filter(|c: char| c != ' ') =~= Seq::<char>::empty());
    }
    while i < n
        invariant
            n == s@.len(),
            0 <= i <= n,
            r@ == s@.take(i as int).filter(|c: char| c != ' '),
        decreases n - i,
    {
        proof {
            assert(s@.take(i as int + 1).drop_last() =~= s@.take(i as int));
            reveal_with_fuel(Seq::filter, 2);
            assert(s@.take(i as int + 1).last() == s@[i as int]);
        }
        let c = s.get_char(i);
        if c != ' ' {
            push_char(&mut r, c);
        }
        i += 1;
    }
    proof {
        assert(s@.take(n as int) =~= s@);
    }
    r
}

/// The decimal digits of `n` left-padded with zeros to `width`, as the
/// zero-padding `format!` width specifier prints an integer.
pub open spec fn spec_padded(n: u64, width: int) -> Seq<char> {
    let d = u64_digits(n);
    if d.len() >= width {
        d
    } else {
        Seq::new((width - d.len()) as nat, |i: int| '0') + d
    }
}

/// Formats `n` in decimal, left-padded with zeros to at least `width`.
pub fn u64_zero_pad(n: u64, width: usize) -> (r: String)
    ensures
        r@ == spec_padded(n, width as int),
{
    let digits = u64_to_string(n);
    let dl = digits.unicode_len();
    if dl >= width {
        proof {
            assert(digits@ == spec_padded(n, width as int));
        }
        return digits;
    }
    let mut r = String::new();
    let pad = width - dl;
    let mut i: usize = 0;
    while i < pad
        invariant
            0 <= i <= pad,
            r@ =~= Seq::new(i as nat, |j: int| '0'),
        decreases pad - i,
    {
        push_char(&mut r, '0');
        proof {
            assert(r@ =~= Seq::new(i as nat + 1, |j: int| '0'));
        }
        i += 1;
    }
    r.append(digits.as_str());
    proof {
        assert(r@ =~= spec_padded(n, width as int));
    }
    r
}

} // verus!
