//! Database record shapes and the import payload decoder.

use vstd::prelude::*;
use vstd::utf8::{decode_utf8, valid_utf8};

use crate::strutil::{parse_u8_str, spec_parse_uint, trim_spec};

verus! {

/// One play-progress record.
pub struct PlayRecord {
    pub key: String,
    pub title: String,
    pub source_name: String,
    pub year: String,
    pub cover: String,
    pub episode_index: i32,
    pub total_episodes: i32,
    pub play_time: i32,
    pub total_time: i32,
    pub save_time: i32,
    pub search_title: String,
}

/// One favorite record.
pub struct Favorite {
    pub key: String,
    pub title: String,
    pub source_name: String,
    pub year: String,
    pub cover: String,
    pub total_episodes: i32,
    pub save_time: i32,
    pub search_title: String,
}

/// One search-history entry.
pub struct SearchHistory {
    pub keyword: String,
    pub save_time: i32,
}

/// The outcome of toggling a favorite: whether it now exists.
pub struct TogglePlayFavoriteResponse {
    pub favorited: bool,
}

/// Counts of the page cache.
pub struct CacheStats {
    pub total_entries: i64,
    pub expired_entries: i64,
}

/// The outcome of applying a skip configuration: whether it was deleted.
pub struct ApplySkipConfigResponse {
    pub deleted: bool,
}

/// Relies on `String::from_utf8`: accepts exactly the valid UTF-8 byte
/// sequences and decodes them.
#[verifier::external_body]
fn bytes_to_string(data: &[u8]) -> (r: Option<String>)
    ensures
        r is Some <==> valid_utf8(data@),
        r is Some ==> r->0@ == decode_utf8(data@),
{
    match String::from_utf8(data.to_vec()) {
        Ok(s) => Some(s),
        Err(_) => None,
    }
}

/// Position of the first `','` in `s`, or `s.len()`.
pub open spec fn first_comma(s: Seq<char>) -> int
    decreases s.len(),
{
    if s.len() == 0 {
        0
    } else if s[0] == ',' {
        0
    } else {
        1 + first_comma(s.skip(1))
    }
}

proof fn lemma_first_comma(s: Seq<char>)
    ensures
        0 <= first_comma(s) <= s.len(),
        forall|j: int| 0 <= j < first_comma(s) ==> s[j] != ',',
        first_comma(s) < s.len() ==> s[first_comma(s)] == ',',
    decreases s.len(),
{
    if s.len() > 0 && s[0] != ',' {
        lemma_first_comma(s.skip(1));
        assert forall|j: int| 0 <= j < first_comma(s) implies s[j] != ',' by {
            if j > 0 {
                assert(s.skip(1)[j - 1] == s[j]);
            }
        }
        if first_comma(s) < s.len() {
            assert(s.skip(1)[first_comma(s.skip(1))] == s[first_comma(s)]);
        }
    }
}

proof fn lemma_first_comma_count(s: Seq<char>, e: int)
    requires
        0 <= e <= s.len(),
        forall|j: int| 0 <= j < e ==> s[j] != ',',
        e < s.len() ==> s[e] == ',',
    ensures
        first_comma(s) == e,
    decreases s.len(),
{
    if s.len() > 0 && s[0] != ',' {
        assert(e >= 1);
        lemma_first_comma_count(s.skip(1), e - 1);
    }
}

/// The bytes one comma-separated part contributes: nothing when blank
/// after trimming, its value when it parses as a byte, rejection
/// otherwise.
pub open spec fn seg_bytes(part: Seq<char>) -> Option<Seq<u8>> {
    let t = trim_spec(part);
    if t.len() == 0 {
        Some(Seq::empty())
    } else if spec_parse_uint(t) is Some && spec_parse_uint(t)->0 <= u8::MAX {
        Some(seq![spec_parse_uint(t)->0 as u8])
    } else {
        None
    }
}

/// The bytes of a comma-separated decimal listing: each part trimmed,
/// blank parts skipped, any unparsable part rejecting the whole listing.
pub open spec fn spec_byte_listing(s: Seq<char>) -> Option<Seq<u8>>
    decreases s.len(),
    via spec_byte_listing_decreases
{
    let i = first_comma(s);
    if i == s.len() {
        seg_bytes(s)
    } else {
        match (seg_bytes(s.take(i)), spec_byte_listing(s.skip(i + 1))) {
            (Some(a), Some(b)) => Some(a + b),
            _ => None,
        }
    }
}

#[via_fn]
proof fn spec_byte_listing_decreases(s: Seq<char>) {
    lemma_first_comma(s);
}

/// An import payload decoded to JSON text: either the bytes are UTF-8
/// text that already begins (after trimming) with `{` or `[`, or that
/// text is a comma-separated decimal listing of the UTF-8 bytes of the
/// real payload, which is re-decoded; anything else is rejected.
pub fn decode_json_bytes(data: &[u8]) -> (r: Result<String, String>)
    ensures
        !valid_utf8(data@) ==> r is Err,
        valid_utf8(data@) && ({
            let t = trim_spec(decode_utf8(data@));
            t.len() > 0 && (t[0] == '{' || t[0] == '[')
        }) ==> r is Ok && r->Ok_0@ == decode_utf8(data@),
        valid_utf8(data@) && !({
            let t = trim_spec(decode_utf8(data@));
            t.len() > 0 && (t[0] == '{' || t[0] == '[')
        }) ==> ({
            let listing = spec_byte_listing(trim_spec(decode_utf8(data@)));
            &&& (listing is None ==> r is Err)
            &&& (listing is Some && !valid_utf8(listing->0) ==> r is Err)
            &&& (listing is Some && valid_utf8(listing->0) ==> r is Ok && r->Ok_0@ == decode_utf8(
                listing->0,
            ))
        }),
{
    let text = match bytes_to_string(data) {
        Some(t) => t,
        None => {
            return Err("Invalid UTF-8 payload".to_owned());
        },
    };
    let trimmed = crate::strutil::trim_str(text.as_str());
    let tl = trimmed.unicode_len();
    if tl > 0 && (trimmed.get_char(0) == '{' || trimmed.get_char(0) == '[') {
        return Ok(text);
    }
    // a comma-separated byte listing: parse each part and re-decode
    let ghost tv = trimmed@;
    let mut bytes: Vec<u8> = Vec::new();
    let n = tl;
    let mut pos: usize = 0;
    proof {
        assert(tv.skip(0) =~= tv);
    }
    while pos < n
        invariant
            n == tv.len(),
            tv == trimmed@,
            tv == trim_spec(decode_utf8(data@)),
            valid_utf8(data@),
            !({
                let t = trim_spec(decode_utf8(data@));
                t.len() > 0 && (t[0] == '{' || t[0] == '[')
            }),
            0 <= pos <= n,
            spec_byte_listing(tv) == (match spec_byte_listing(tv.skip(pos as int)) {
                Some(b) => Some(bytes@ + b),
                None => None,
            }),
        decreases n - pos,
    {
        let ghost rest = tv.skip(pos as int);
        let mut end: usize = pos;
        while end < n && trimmed.get_char(end) != ','
            invariant
                n == tv.len(),
                tv == trimmed@,
                pos <= end <= n,
                forall|j: int| pos <= j < end ==> tv[j] != ',',
            decreases n - end,
        {
            end += 1;
        }
        proof {
            assert forall|j: int| 0 <= j < end - pos implies rest[j] != ',' by {
                assert(rest[j] == tv[pos + j]);
            }
            if (end as int) < n {
                assert(rest[end - pos as int] == tv[end as int]);
            }
            lemma_first_comma_count(rest, end - pos as int);
        }
        let segment = trimmed.substring_char(pos, end);
        let part = crate::strutil::trim_str(segment);
        proof {
            if end == n {
                assert(rest =~= segment@);
            } else {
                assert(rest.take(end - pos as int) =~= segment@);
            }
        }
        if part.unicode_len() > 0 {
            match parse_u8_str(part) {
                Some(b) => {
                    let ghost bytes0 = bytes@;
                    bytes.push(b);
                    proof {
                        assert(seg_bytes(segment@) == Some(seq![b]));
                        assert(bytes@ =~= bytes0 + seq![b]);
                    }
                },
                None => {
                    proof {
                        assert(seg_bytes(segment@) is None);
                        assert(spec_byte_listing(rest) is None) by {
                            if end < n {
                                assert(rest.take(first_comma(rest)) =~= segment@);
                            }
                        }
                    }
                    return Err("Invalid byte sequence".to_owned());
                },
            }
        } else {
            proof {
                assert(seg_bytes(segment@) == Some(Seq::<u8>::empty()));
            }
        }
        proof {
            if end == n {
                assert(first_comma(rest) == rest.len());
                assert(tv.skip(n as int).len() == 0);
                assert(trim_spec(tv.skip(n as int)) =~= Seq::<char>::empty());
                assert(seg_bytes(tv.skip(n as int)) == Some(Seq::<u8>::empty()));
                assert(spec_byte_listing(tv.skip(n as int)) == Some(Seq::<u8>::empty()));
                assert(match spec_byte_listing(tv.skip(n as int)) {
                    Some(b) => bytes@ + b =~= bytes@,
                    None => false,
                });
            } else {
                assert(rest.take(first_comma(rest)) =~= segment@);
                assert(rest.skip(first_comma(rest) + 1) =~= tv.skip(end + 1));
            }
        }
        if end == n {
            pos = n;
        } else {
            pos = end + 1;
        }
    }
    proof {
        assert(tv.skip(pos as int).len() == 0);
        assert(trim_spec(tv.skip(pos as int)) =~= Seq::<char>::empty());
        assert(seg_bytes(tv.skip(pos as int)) == Some(Seq::<u8>::empty()));
        assert(spec_byte_listing(tv.skip(pos as int)) == Some(Seq::<u8>::empty()));
        assert(match spec_byte_listing(tv) {
            Some(total) => total =~= bytes@,
            None => false,
        });
    }
    match bytes_to_string(bytes.as_slice()) {
        Some(s) => Ok(s),
        None => Err("Invalid UTF-8 payload".to_owned()),
    }
}

} // verus!
