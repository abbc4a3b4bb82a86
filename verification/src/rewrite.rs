//! Playlist URL rewriting: every segment or sub-playlist URI line is
//! resolved to an absolute URL and replaced by the proxy prefix plus the
//! percent-encoded absolute URL. Percent-encoding and -decoding are
//! specified byte-exactly, and decoding an encoded URL is proved to
//! recover it.

use vstd::prelude::*;
use vstd::utf8::{decode_utf8, encode_utf8, valid_utf8};

use crate::playlist::split_lines;
use crate::strutil::{has_prefix, trim_spec, trim_str, push_char, starts_with_str};

verus! {

/// Bytes that percent-encoding leaves as they are: ASCII alphanumerics
/// and `- . _ ~`.
pub open spec fn is_safe_byte(x: u8) -> bool {
    (48 <= x <= 57) || (65 <= x <= 90) || (97 <= x <= 122) || x == 45 || x == 46 || x == 95
        || x == 126
}

/// The uppercase hex digit for a value below 16.
pub open spec fn hex_digit(v: u8) -> char {
    if v < 10 {
        (48 + v) as char
    } else {
        (55 + v) as char
    }
}

/// The encoding of one byte: itself when safe, else `%` and two uppercase
/// hex digits.
pub open spec fn enc_byte(x: u8) -> Seq<char> {
    if is_safe_byte(x) {
        seq![x as char]
    } else {
        seq!['%', hex_digit(x / 16), hex_digit(x % 16)]
    }
}

/// Percent-encoding of a byte sequence, as `urlencoding::encode` performs
/// it on the UTF-8 bytes of a string.
pub open spec fn percent_encode_bytes(b: Seq<u8>) -> Seq<char>
    decreases b.len(),
{
    if b.len() == 0 {
        Seq::empty()
    } else {
        enc_byte(b[0]) + percent_encode_bytes(b.skip(1))
    }
}

/// An ASCII hex digit byte, either case.
pub open spec fn is_hex_byte(x: u8) -> bool {
    (48 <= x <= 57) || (65 <= x <= 70) || (97 <= x <= 102)
}

/// The value of an ASCII hex digit byte.
pub open spec fn hex_val(x: u8) -> u8 {
    if 48 <= x <= 57 {
        (x - 48) as u8
    } else if 65 <= x <= 70 {
        (x - 55) as u8
    } else {
        (x - 87) as u8
    }
}

/// Percent-decoding of a byte sequence, as `urlencoding::decode` performs
/// it: each `%` followed by two hex digits becomes that byte; a `%`
/// followed by one hex digit passes through with it; any other `%` passes
/// through alone; a `%` within two bytes of the end passes through with
/// the rest.
pub open spec fn percent_decode_bytes(d: Seq<u8>) -> Seq<u8>
    decreases d.len(),
{
    if d.len() == 0 {
        Seq::empty()
    } else if d[0] != 37 {
        seq![d[0]] + percent_decode_bytes(d.skip(1))
    } else if d.len() < 3 {
        d
    } else if is_hex_byte(d[1]) && is_hex_byte(d[2]) {
        seq![(16 * hex_val(d[1]) + hex_val(d[2])) as u8] + percent_decode_bytes(d.skip(3))
    } else if is_hex_byte(d[1]) {
        seq![d[0], d[1]] + percent_decode_bytes(d.skip(2))
    } else {
        seq![d[0]] + percent_decode_bytes(d.skip(1))
    }
}

/// Relies on `urlencoding::encode`: percent-encodes every UTF-8 byte of
/// the text except ASCII alphanumerics and `- . _ ~`, two uppercase hex
/// digits each.
#[verifier::external_body]
pub fn percent_encode(s: &str) -> (r: String)
    ensures
        r@ == percent_encode_bytes(encode_utf8(s@)),
{
    urlencoding::encode(s).into_owned()
}

/// Relies on `urlencoding::decode`: replaces each `%` escape in the UTF-8
/// bytes of the text as [`percent_decode_bytes`] states and re-validates
/// the result as UTF-8, rejecting it otherwise.
#[verifier::external_body]
pub fn percent_decode(s: &str) -> (r: Option<String>)
    ensures
        r is Some <==> valid_utf8(percent_decode_bytes(encode_utf8(s@))),
        r is Some ==> r->0@ == decode_utf8(percent_decode_bytes(encode_utf8(s@))),
{
    match urlencoding::decode(s) {
        Ok(c) => Some(c.into_owned()),
        Err(_) => None,
    }
}

/// Relies on `url::Url::parse` and `url::Url::join`: RFC 3986 reference
/// resolution of a relative URL against a base, deterministic in its two
/// arguments; `None` stands for an unparsable base or a failed join.
pub uninterp spec fn url_join(base: Seq<char>, rel: Seq<char>) -> Option<Seq<char>>;

/// Relies on `url::Url::parse` and `url::Url::join`, serialized back with
/// the `Display` impl of `url::Url`.
#[verifier::external_body]
fn try_url_join(base: &str, rel: &str) -> (r: Option<String>)
    ensures
        match (r, url_join(base@, rel@)) {
            (Some(a), Some(b)) => a@ == b,
            (None, None) => true,
            _ => false,
        },
{
    match url::Url::parse(base) {
        Ok(b) => match b.join(rel) {
            Ok(j) => Some(j.to_string()),
            Err(_) => None,
        },
        Err(_) => None,
    }
}

/// A relative URI resolved against the playlist's own fetch URL; an
/// unresolvable reference passes through unchanged.
pub open spec fn spec_resolve(base: Seq<char>, rel: Seq<char>) -> Seq<char> {
    match url_join(base, rel) {
        Some(j) => j,
        None => rel,
    }
}

/// Resolves `rel` against `base`, keeping `rel` when resolution fails.
pub fn resolve_relative_url(base: &str, rel: &str) -> (r: String)
    ensures
        r@ == spec_resolve(base@, rel@),
{
    match try_url_join(base, rel) {
        Some(s) => s,
        None => rel.to_owned(),
    }
}

/// `s` ends with `p`.
pub open spec fn has_suffix(s: Seq<char>, p: Seq<char>) -> bool {
    p.len() <= s.len() && s.subrange(s.len() - p.len(), s.len() as int) == p
}

/// Whether `s` ends with `p` (exact characters).
pub fn ends_with_str(s: &str, p: &str) -> (r: bool)
    ensures
        r == has_suffix(s@, p@),
{
    let n = s.unicode_len();
    let m = p.unicode_len();
    if m > n {
        return false;
    }
    let mut j: usize = 0;
    while j < m
        invariant
            n == s@.len(),
            m == p@.len(),
            m <= n,
            0 <= j <= m,
            forall|k: int| 0 <= k < j ==> s@[n - m + k] == p@[k],
        decreases m - j,
    {
        if s.get_char(n - m + j) != p.get_char(j) {
            proof {
                assert(!has_suffix(s@, p@)) by {
                    if has_suffix(s@, p@) {
                        assert(s@.subrange(s@.len() - p@.len(), s@.len() as int)[j as int]
                            == p@[j as int]);
                    }
                }
            }
            return false;
        }
        j += 1;
    }
    proof {
        assert(s@.subrange(s@.len() - p@.len(), s@.len() as int) =~= p@);
    }
    true
}

/// The absolute form of a segment URI: kept as is when already absolute,
/// else resolved against the playlist's own fetch URL.
pub open spec fn spec_absolute(base: Seq<char>, t: Seq<char>) -> Seq<char> {
    if has_prefix(t, "http://"@) || has_prefix(t, "https://"@) {
        t
    } else {
        spec_resolve(base, t)
    }
}

/// How one playlist line is rewritten: tag and empty lines pass through;
/// a line whose trimmed text ends in `.ts` or `.m3u8` becomes the proxy
/// prefix plus the percent-encoded absolute URL; everything else passes
/// through.
pub open spec fn rewrite_line(line: Seq<char>, base: Seq<char>, proxy: Seq<char>) -> Seq<char> {
    let t = trim_spec(line);
    if t.len() == 0 || t[0] == '#' {
        line
    } else if has_suffix(t, ".ts"@) || has_suffix(t, ".m3u8"@) {
        proxy + percent_encode_bytes(encode_utf8(spec_absolute(base, t)))
    } else {
        line
    }
}

/// The whole rewritten playlist: each line rewritten and terminated with
/// a newline.
pub open spec fn spec_rewrite(lines: Seq<Seq<char>>, base: Seq<char>, proxy: Seq<char>) -> Seq<
    char,
>
    decreases lines.len(),
{
    if lines.len() == 0 {
        Seq::empty()
    } else {
        rewrite_line(lines[0], base, proxy) + seq!['\n'] + spec_rewrite(
            lines.drop_first(),
            base,
            proxy,
        )
    }
}

proof fn lemma_rewrite_push(lines: Seq<Seq<char>>, x: Seq<char>, base: Seq<char>, proxy: Seq<char>)
    ensures
        spec_rewrite(lines.push(x), base, proxy) == spec_rewrite(lines, base, proxy)
            + rewrite_line(x, base, proxy) + seq!['\n'],
    decreases lines.len(),
{
    if lines.len() == 0 {
        assert(lines.push(x)[0] == x);
        assert(lines.push(x).drop_first() =~= lines);
        assert(spec_rewrite(lines.push(x), base, proxy) =~= spec_rewrite(lines, base, proxy)
            + rewrite_line(x, base, proxy) + seq!['\n']);
    } else {
        lemma_rewrite_push(lines.drop_first(), x, base, proxy);
        assert(lines.push(x).drop_first() =~= lines.drop_first().push(x));
        assert(lines.push(x)[0] == lines[0]);
        assert(spec_rewrite(lines.push(x), base, proxy) =~= spec_rewrite(lines, base, proxy)
            + rewrite_line(x, base, proxy) + seq!['\n']);
    }
}

/// Rewrites every segment and sub-playlist URI of a filtered playlist to
/// point at the local segment proxy: relative URIs are first resolved
/// against `base_url`, the absolute URL is percent-encoded, and the line
/// becomes `proxy_base` followed by that encoding. Tags, empty lines and
/// other lines pass through; each line is newline-terminated.
pub fn rewrite_m3u8_urls(m3u8_content: &str, base_url: &str, proxy_base: &str) -> (r: String)
    ensures
        r@ == spec_rewrite(split_lines(m3u8_content@), base_url@, proxy_base@),
{
    let lines = crate::playlist::split_into_lines(m3u8_content);
    let ghost lv = lines@.map_values(|l: &str| l@);
    let n = lines.len();
    let mut r = String::new();
    let mut i: usize = 0;
    proof {
        assert(lv.take(0int) =~= Seq::<Seq<char>>::empty());
    }
    while i < n
        invariant
            n == lines@.len(),
            lv == lines@.map_values(|l: &str| l@),
            0 <= i <= n,
            r@ == spec_rewrite(lv.take(i as int), base_url@, proxy_base@),
        decreases n - i,
    {
        let line = lines[i];
        proof {
            assert(lv[i as int] == line@);
            lemma_rewrite_push(lv.take(i as int), lv[i as int], base_url@, proxy_base@);
            assert(lv.take(i as int).push(lv[i as int]) =~= lv.take(i as int + 1));
        }
        let t = trim_str(line);
        let keep = {
            let tl = t.unicode_len();
            tl == 0 || t.get_char(0) == '#'
        };
        if keep {
            r.append(line);
        } else if ends_with_str(t, ".ts") || ends_with_str(t, ".m3u8") {
            let absolute = if starts_with_str(t, "http://") || starts_with_str(t, "https://") {
                t.to_owned()
            } else {
                resolve_relative_url(base_url, t)
            };
            let encoded = percent_encode(absolute.as_str());
            r.append(proxy_base);
            r.append(encoded.as_str());
        } else {
            r.append(line);
        }
        push_char(&mut r, '\n');
        proof {
            assert(r@ =~= spec_rewrite(lv.take(i as int + 1), base_url@, proxy_base@));
        }
        i += 1;
    }
    proof {
        assert(lv.take(n as int) =~= lv);
    }
    r
}


/// The first position at or after `i` where `p` occurs in `s`, or
/// `s.len()` when it never does (an empty pattern matches at `i`).
pub open spec fn first_match(s: Seq<char>, p: Seq<char>, i: int) -> int
    decreases s.len() - i when 0 <= i <= s.len()
{
    if p.len() == 0 {
        i
    } else if i + p.len() > s.len() {
        s.len() as int
    } else if s.subrange(i, i + p.len()) == p {
        i
    } else {
        first_match(s, p, i + 1)
    }
}

proof fn lemma_first_match_bounds(s: Seq<char>, p: Seq<char>, i: int)
    requires
        0 <= i <= s.len(),
        p.len() >= 1,
    ensures
        i <= first_match(s, p, i) <= s.len(),
    decreases s.len() - i,
{
    if i + p.len() <= s.len() && s.subrange(i, i + p.len()) != p {
        lemma_first_match_bounds(s, p, i + 1);
    }
}

/// Finds the first occurrence of `p` at or after `from`.
fn find_sub(s: &str, p: &str, from: usize) -> (r: Option<usize>)
    requires
        from <= s@.len(),
        p@.len() >= 1,
    ensures
        r is Some ==> r->0 == first_match(s@, p@, from as int) && from <= r->0 && r->0 + p@.len()
            <= s@.len(),
        r is None ==> first_match(s@, p@, from as int) == s@.len(),
{
    let n = s.unicode_len();
    let m = p.unicode_len();
    if m > n || from > n - m {
        return None;
    }
    let mut i: usize = from;
    while i <= n - m
        invariant
            n == s@.len(),
            m == p@.len(),
            1 <= m <= n,
            from <= i,
            0 <= i <= n - m + 1,
            first_match(s@, p@, from as int) == first_match(s@, p@, i as int),
        decreases n - i,
    {
        if matches_prefix_at(s, p, i) {
            proof {
                assert(first_match(s@, p@, i as int) == i as int);
            }
            return Some(i);
        }
        i += 1;
    }
    proof {
        assert(i + m > n);
        assert(first_match(s@, p@, i as int) == s@.len());
    }
    None
}

/// Whether `p` occurs in `s` exactly at `i`.
fn matches_prefix_at(s: &str, p: &str, i: usize) -> (r: bool)
    requires
        i + p@.len() <= s@.len(),
    ensures
        r == (s@.subrange(i as int, i + p@.len()) == p@),
{
    let m = p.unicode_len();
    let n = s.unicode_len();
    let mut j: usize = 0;
    while j < m
        invariant
            n == s@.len(),
            m == p@.len(),
            i + m <= n,
            0 <= j <= m,
            forall|k: int| 0 <= k < j ==> s@[i + k] == p@[k],
        decreases m - j,
    {
        if s.get_char(i + j) != p.get_char(j) {
            proof {
                assert(s@.subrange(i as int, i + p@.len()) != p@) by {
                    if s@.subrange(i as int, i + p@.len()) == p@ {
                        assert(s@.subrange(i as int, i + p@.len())[j as int] == p@[j as int]);
                    }
                }
            }
            return false;
        }
        j += 1;
    }
    proof {
        assert(s@.subrange(i as int, i + p@.len()) =~= p@);
    }
    true
}

/// The encoded upstream URL carried by a rewritten segment line: the text
/// between the first `url=` and the next `url=` (or the end), on a
/// trimmed line that ends in `.ts` and starts with `http://`.
pub open spec fn line_url_param(line: Seq<char>) -> Option<Seq<char>> {
    let t = trim_spec(line);
    if has_suffix(t, ".ts"@) && has_prefix(t, "http://"@) {
        let rest = t.skip("http://"@.len() as int);
        let i = first_match(rest, "url="@, 0);
        if i < rest.len() {
            let start = i + "url="@.len();
            let j = first_match(rest, "url="@, start);
            Some(rest.subrange(start, j))
        } else {
            None
        }
    } else {
        None
    }
}

/// The decoded upstream URLs of the first rewritten segment lines, at
/// most `budget` of them; lines whose parameter does not decode to UTF-8
/// are passed over.
pub open spec fn spec_preload_urls(lines: Seq<Seq<char>>, budget: int) -> Seq<Seq<char>>
    decreases lines.len(),
{
    if lines.len() == 0 || budget <= 0 {
        Seq::empty()
    } else {
        match line_url_param(lines[0]) {
            Some(enc) => {
                let dec = percent_decode_bytes(encode_utf8(enc));
                if valid_utf8(dec) {
                    seq![decode_utf8(dec)] + spec_preload_urls(lines.drop_first(), budget - 1)
                } else {
                    spec_preload_urls(lines.drop_first(), budget)
                }
            },
            None => spec_preload_urls(lines.drop_first(), budget),
        }
    }
}

/// Scans a rewritten playlist for the first five segment URIs and decodes
/// the upstream URLs they carry, for the background pre-fetch that warms
/// the segment cache.
pub fn extract_preload_urls(m3u8_content: &str) -> (r: Vec<String>)
    ensures
        r@.map_values(|u: String| u@) == spec_preload_urls(split_lines(m3u8_content@), 5),
{
    let lines = crate::playlist::split_into_lines(m3u8_content);
    let ghost lv = lines@.map_values(|l: &str| l@);
    let n = lines.len();
    let mut r: Vec<String> = Vec::new();
    let mut i: usize = 0;
    proof {
        assert(lv.skip(0) =~= lv);
        reveal_strlit("url=");
        reveal_strlit("http://");
    }
    while i < n && r.len() < 5
        invariant
            n == lines@.len(),
            lv == lines@.map_values(|l: &str| l@),
            0 <= i <= n,
            r@.len() <= 5,
            r@.map_values(|u: String| u@) + spec_preload_urls(lv.skip(i as int), 5 - r@.len())
                =~= spec_preload_urls(lv, 5),
        decreases n - i,
    {
        proof {
            reveal_strlit("url=");
            assert(lv.skip(i as int)[0] == lv[i as int]);
            assert(lv.skip(i as int).drop_first() =~= lv.skip(i as int + 1));
        }
        let ghost r0 = r@;
        let line = lines[i];
        let t = trim_str(line);
        if ends_with_str(t, ".ts") && starts_with_str(t, "http://") {
            let tl = t.unicode_len();
            let plen = "http://".unicode_len();
            let rest = t.substring_char(plen, tl);
            proof {
                assert(rest@ =~= t@.skip("http://"@.len() as int));
            }
            match find_sub(rest, "url=", 0) {
                Some(pos) => {
                    let ulen = "url=".unicode_len();
                    let start = pos + ulen;
                    let stop = match find_sub(rest, "url=", start) {
                        Some(j) => j,
                        None => rest.unicode_len(),
                    };
                    proof {
                        assert(stop == first_match(rest@, "url="@, start as int)) by {
                            lemma_first_match_bounds(rest@, "url="@, start as int);
                        }
                        assert(start <= stop <= rest@.len()) by {
                            lemma_first_match_bounds(rest@, "url="@, start as int);
                        }
                    }
                    let chunk = rest.substring_char(start, stop);
                    proof {
                        assert(chunk@ =~= rest@.subrange(
                            start as int,
                            first_match(rest@, "url="@, start as int),
                        ));
                        assert(line_url_param(lv[i as int]) == Some(chunk@));
                    }
                    match percent_decode(chunk) {
                        Some(decoded) => {
                            proof {
                                assert(decoded@ == decode_utf8(
                                    percent_decode_bytes(encode_utf8(chunk@)),
                                ));
                            }
                            r.push(decoded);
                            proof {
                                assert(r@.map_values(|u: String| u@) =~= r0.map_values(
                                    |u: String| u@,
                                ).push(
                                    decode_utf8(percent_decode_bytes(encode_utf8(chunk@))),
                                ));
                                assert(spec_preload_urls(lv.skip(i as int), 5 - r0.len())
                                    =~= seq![
                                    decode_utf8(percent_decode_bytes(encode_utf8(chunk@))),
                                ] + spec_preload_urls(lv.skip(i as int + 1), 5 - r@.len()));
                            }
                        },
                        None => {
                            proof {
                                assert(!valid_utf8(percent_decode_bytes(encode_utf8(chunk@))));
                                assert(spec_preload_urls(lv.skip(i as int), 5 - r0.len())
                                    == spec_preload_urls(lv.skip(i as int + 1), 5 - r@.len()));
                            }
                        },
                    }
                },
                None => {
                    proof {
                        assert(line_url_param(lv[i as int]) is None);
                        assert(spec_preload_urls(lv.skip(i as int), 5 - r0.len())
                            == spec_preload_urls(lv.skip(i as int + 1), 5 - r@.len()));
                    }
                },
            }
        } else {
            proof {
                assert(line_url_param(lv[i as int]) is None);
                assert(spec_preload_urls(lv.skip(i as int), 5 - r0.len()) == spec_preload_urls(
                    lv.skip(i as int + 1),
                    5 - r@.len(),
                ));
            }
        }
        proof {
            assert(r@.map_values(|u: String| u@) + spec_preload_urls(
                lv.skip(i as int + 1),
                5 - r@.len(),
            ) =~= spec_preload_urls(lv, 5));
        }
        i += 1;
    }
    proof {
        if i == n {
            assert(lv.skip(i as int).len() == 0);
            assert(spec_preload_urls(lv.skip(i as int), 5 - r@.len())
                =~= Seq::<Seq<char>>::empty());
        } else {
            assert(r@.len() == 5);
            assert(spec_preload_urls(lv.skip(i as int), 0) =~= Seq::<Seq<char>>::empty());
        }
        assert(r@.map_values(|u: String| u@) =~= spec_preload_urls(lv, 5));
    }
    r
}

/// Every character percent-encoding produces is ASCII, so its UTF-8
/// rendering is its characters byte for byte.
proof fn lemma_enc_ascii(b: Seq<u8>)
    ensures
        vstd::utf8::is_ascii_chars(percent_encode_bytes(b)),
        encode_utf8(percent_encode_bytes(b)).len() == percent_encode_bytes(b).len(),
        forall|i: int|
            0 <= i < percent_encode_bytes(b).len() ==> #[trigger] encode_utf8(
                percent_encode_bytes(b),
            )[i] == percent_encode_bytes(b)[i] as u8,
    decreases b.len(),
{
    let e = percent_encode_bytes(b);
    if b.len() > 0 {
        lemma_enc_ascii(b.skip(1));
        let rest = percent_encode_bytes(b.skip(1));
        let head = enc_byte(b[0]);
        assert forall|i: int| 0 <= i < e.len() implies '\0' <= #[trigger] e[i] <= '\u{7f}' by {
            if i < head.len() {
                assert(e[i] == head[i]);
                if is_safe_byte(b[0]) {
                } else {
                    assert(head[1] == hex_digit(b[0] / 16) && head[2] == hex_digit(b[0] % 16));
                }
            } else {
                assert(e[i] == rest[i - head.len()]);
                assert(vstd::utf8::is_ascii_chars(rest));
            }
        }
        assert(vstd::utf8::is_ascii_chars(e));
    }
    vstd::utf8::is_ascii_chars_encode_utf8(e);
}

/// The ASCII bytes of a percent-encoding decode back to the encoded bytes.
proof fn lemma_decode_of_encode(b: Seq<u8>)
    ensures
        percent_decode_bytes(encode_utf8(percent_encode_bytes(b))) == b,
    decreases b.len(),
{
    lemma_enc_ascii(b);
    let e = percent_encode_bytes(b);
    let d = encode_utf8(e);
    if b.len() == 0 {
        assert(d =~= Seq::<u8>::empty());
        assert(percent_decode_bytes(d) =~= b);
    } else {
        lemma_decode_of_encode(b.skip(1));
        lemma_enc_ascii(b.skip(1));
        let rest_e = percent_encode_bytes(b.skip(1));
        let rest_d = encode_utf8(rest_e);
        let head = enc_byte(b[0]);
        assert(e == head + rest_e);
        // the byte rendering distributes over the head block and the rest
        assert(d =~= Seq::new(head.len(), |i: int| head[i] as u8) + rest_d) by {
            assert forall|i: int| 0 <= i < d.len() implies d[i] == (Seq::new(
                head.len(),
                |i: int| head[i] as u8,
            ) + rest_d)[i] by {
                if i < head.len() {
                    assert(e[i] == head[i]);
                } else {
                    assert(e[i] == rest_e[i - head.len()]);
                    assert(rest_d[i - head.len()] == rest_e[i - head.len()] as u8);
                }
            }
        }
        if is_safe_byte(b[0]) {
            assert(head =~= seq![b[0] as char]);
            assert(d[0] == b[0]);
            assert(d[0] != 37);
            assert(d.skip(1) =~= rest_d);
            assert(percent_decode_bytes(d) =~= seq![d[0]] + percent_decode_bytes(rest_d));
            assert(percent_decode_bytes(d) =~= b);
        } else {
            let h1 = hex_digit(b[0] / 16);
            let h2 = hex_digit(b[0] % 16);
            assert(head =~= seq!['%', h1, h2]);
            assert(d[0] == 37);
            assert(d[1] == h1 as u8 && d[2] == h2 as u8);
            assert(is_hex_byte(h1 as u8) && is_hex_byte(h2 as u8));
            assert(hex_val(h1 as u8) == b[0] / 16 && hex_val(h2 as u8) == b[0] % 16);
            assert(16 * (b[0] / 16) + (b[0] % 16) == b[0]) by {
                assert(b[0] / 16 <= 15);
            }
            assert(d.skip(3) =~= rest_d);
            assert(percent_decode_bytes(d) =~= seq![(16 * hex_val(d[1]) + hex_val(d[2])) as u8]
                + percent_decode_bytes(rest_d));
            assert(percent_decode_bytes(d) =~= b);
        }
    }
}

/// Law: round-tripping a percent-encoded URL through percent-decoding
/// recovers the original text exactly. In particular, decoding the
/// encoded part of a rewritten segment line recovers the absolute URL.
pub proof fn lemma_percent_round_trip(s: Seq<char>)
    ensures
        valid_utf8(percent_decode_bytes(encode_utf8(percent_encode_bytes(encode_utf8(s))))),
        decode_utf8(percent_decode_bytes(encode_utf8(percent_encode_bytes(encode_utf8(s)))))
            == s,
{
    lemma_decode_of_encode(encode_utf8(s));
    vstd::utf8::encode_utf8_valid_utf8(s);
    vstd::utf8::encode_utf8_decode_utf8(s);
}

/// Law: a rewritten URI line is the proxy prefix followed by the encoded
/// absolute URL, and percent-decoding that part recovers the absolute URL
/// — the URL the segment proxy will fetch is exactly the resolved one.
pub proof fn lemma_rewrite_line_round_trip(line: Seq<char>, base: Seq<char>, proxy: Seq<char>)
    requires
        trim_spec(line).len() > 0,
        trim_spec(line)[0] != '#',
        has_suffix(trim_spec(line), ".ts"@) || has_suffix(trim_spec(line), ".m3u8"@),
    ensures
        ({
            let out = rewrite_line(line, base, proxy);
            let abs = spec_absolute(base, trim_spec(line));
            &&& out.len() >= proxy.len()
            &&& out.subrange(0, proxy.len() as int) == proxy
            &&& valid_utf8(percent_decode_bytes(encode_utf8(out.skip(proxy.len() as int))))
            &&& decode_utf8(percent_decode_bytes(encode_utf8(out.skip(proxy.len() as int))))
                == abs
        }),
{
    let out = rewrite_line(line, base, proxy);
    let abs = spec_absolute(base, trim_spec(line));
    let enc = percent_encode_bytes(encode_utf8(abs));
    assert(out == proxy + enc);
    assert(out.subrange(0, proxy.len() as int) =~= proxy);
    assert(out.skip(proxy.len() as int) =~= enc);
    lemma_percent_round_trip(abs);
}

} // verus!
