//! Version bookkeeping: the embedded build timestamp, timestamp
//! validation and formatting, and update comparison.

use vstd::prelude::*;

use crate::search_agg::lex_le;
use crate::strutil::{all_digits, is_digit, push_char, str_eq};
use crate::search_agg::str_le;

verus! {

/// Remote version details offered to the updater.
pub struct RemoteVersionInfo {
    pub version: String,
    pub timestamp: String,
    pub build_time: String,
    pub release_notes: Vec<String>,
    pub download_url: String,
}

/// The package manifest's version field.
pub struct PackageJson {
    pub version: String,
}

/// The build timestamp embedded in this build, `YYYYMMDDHHMMSS`.
pub fn get_build_timestamp() -> (r: String)
    ensures
        r@.len() == 14,
        all_digits(r@),
{
    let r: String = "20251012000000".to_owned();
    proof {
        reveal_strlit("20251012000000");
        assert(r@.len() == 14);
        assert(all_digits(r@)) by {
            assert(forall|i: int| 0 <= i < r@.len() ==> is_digit(#[trigger] r@[i]));
        }
    }
    r
}

/// The application version of this build.
pub fn get_app_version() -> (r: String)
    ensures
        r@.len() > 0,
{
    let r: String = "0.1.0".to_owned();
    proof {
        reveal_strlit("0.1.0");
    }
    r
}

/// A valid version timestamp is exactly fourteen decimal digits.
pub fn is_valid_timestamp(ts: &str) -> (r: bool)
    ensures
        r == (ts@.len() == 14 && all_digits(ts@)),
{
    let n = ts.unicode_len();
    if n != 14 {
        return false;
    }
    let mut i: usize = 0;
    while i < n
        invariant
            n == ts@.len(),
            0 <= i <= n,
            forall|j: int| 0 <= j < i ==> is_digit(#[trigger] ts@[j]),
        decreases n - i,
    {
        let c = ts.get_char(i);
        if !('0' <= c && c <= '9') {
            return false;
        }
        i += 1;
    }
    true
}

/// A valid timestamp rendered readable: date and time separated, anything
/// else passed through unchanged.
pub fn format_timestamp(ts: &str) -> (r: String)
    ensures
        !(ts@.len() == 14 && all_digits(ts@)) ==> r@ == ts@,
        (ts@.len() == 14 && all_digits(ts@)) ==> r@ == ts@.subrange(0, 4) + seq!['-']
            + ts@.subrange(4, 6) + seq!['-'] + ts@.subrange(6, 8) + seq![' '] + ts@.subrange(8, 10)
            + seq![':'] + ts@.subrange(10, 12) + seq![':'] + ts@.subrange(12, 14),
{
    if !is_valid_timestamp(ts) {
        return ts.to_owned();
    }
    let mut r = ts.substring_char(0, 4).to_owned();
    push_char(&mut r, '-');
    r.append(ts.substring_char(4, 6));
    push_char(&mut r, '-');
    r.append(ts.substring_char(6, 8));
    push_char(&mut r, ' ');
    r.append(ts.substring_char(8, 10));
    push_char(&mut r, ':');
    r.append(ts.substring_char(10, 12));
    push_char(&mut r, ':');
    r.append(ts.substring_char(12, 14));
    proof {
        assert(r@ =~= ts@.subrange(0, 4) + seq!['-'] + ts@.subrange(4, 6) + seq!['-']
            + ts@.subrange(6, 8) + seq![' '] + ts@.subrange(8, 10) + seq![':'] + ts@.subrange(
            10,
            12,
        ) + seq![':'] + ts@.subrange(12, 14));
    }
    r
}

/// The update states the checker reports.
#[derive(Clone, PartialEq, Eq, Structural)]
pub enum UpdateStatus {
    Checking,
    HasUpdate,
    NoUpdate,
    FetchFailed,
}

/// The outcome of one update check.
pub struct VersionCheckResult {
    pub status: UpdateStatus,
    pub local_timestamp: Option<String>,
    pub remote_timestamp: Option<String>,
    pub formatted_local_time: Option<String>,
    pub formatted_remote_time: Option<String>,
    pub error: Option<String>,
}

impl Default for VersionCheckResult {
    /// A check that has not run yet.
    fn default() -> (r: VersionCheckResult)
        ensures
            r.status == UpdateStatus::Checking,
            r.local_timestamp is None,
            r.remote_timestamp is None,
            r.formatted_local_time is None,
            r.formatted_remote_time is None,
            r.error is None,
    {
        VersionCheckResult {
            status: UpdateStatus::Checking,
            local_timestamp: None,
            remote_timestamp: None,
            formatted_local_time: None,
            formatted_remote_time: None,
            error: None,
        }
    }
}

/// Compares two version timestamps lexicographically, which orders
/// fourteen-digit timestamps chronologically: 1 when the local one is
/// newer, -1 when older, 0 when equal.
pub fn compare_timestamps(local: &str, remote: &str) -> (r: i8)
    ensures
        local@ == remote@ ==> r == 0,
        local@ != remote@ && lex_le(local@, remote@) ==> r == -1,
        local@ != remote@ && !lex_le(local@, remote@) ==> r == 1,
{
    if str_eq(local, remote) {
        0
    } else if str_le(local, remote) {
        -1
    } else {
        1
    }
}

} // verus!
