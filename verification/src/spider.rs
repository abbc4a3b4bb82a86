//! Spider-binary resolution: per-candidate failure tracking with periodic
//! reset, tiered cache validation (disk checksum + success TTL, memory
//! success/failure TTLs), candidate ordering, and the resolution cascade
//! over injected fetch outcomes. The caller performs the HTTP fetches; all
//! decisions are made and proved here.

use vstd::prelude::*;

use crate::payload_valid;
use crate::strutil::str_eq;
use crate::validate_payload;

verus! {

/// Cache lifetime of a successful resolution, in seconds.
pub const SUCCESS_TTL: u64 = 24 * 60 * 60;

/// Cache lifetime of a failed resolution, in seconds.
pub const FAILURE_TTL: u64 = 10 * 60;

/// Age after which the failure set is cleared wholesale, in seconds.
pub const FAILURE_RESET_INTERVAL: u64 = 2 * 60 * 60;

/// A resolved spider binary with its provenance and cache bookkeeping.
/// Timestamps are Unix seconds.
pub struct SpiderInfo {
    pub buffer: Option<Vec<u8>>,
    pub md5: String,
    pub source: String,
    pub success: bool,
    pub cached: bool,
    pub timestamp: u64,
    pub size: usize,
    pub tried: usize,
}

impl SpiderInfo {
    /// Field-wise equality of the record's contents.
    pub open spec fn same_record(self, other: SpiderInfo) -> bool {
        &&& match (self.buffer, other.buffer) {
            (Some(a), Some(b)) => a@ == b@,
            (None, None) => true,
            _ => false,
        }
        &&& self.md5@ == other.md5@
        &&& self.source@ == other.source@
        &&& self.success == other.success
        &&& self.timestamp == other.timestamp
        &&& self.size == other.size
    }

    /// An empty in-memory record, before any resolution.
    pub fn empty() -> (r: SpiderInfo)
        ensures
            r.buffer is None,
            r.md5@.len() == 0,
            r.success == false,
            r.timestamp == 0,
    {
        SpiderInfo {
            buffer: None,
            md5: String::new(),
            source: String::new(),
            success: false,
            cached: false,
            timestamp: 0,
            size: 0,
            tried: 0,
        }
    }
}

/// The metadata persisted beside the cached binary on disk.
pub struct SpiderMetadata {
    pub md5: String,
    pub source: String,
    pub success: bool,
    pub timestamp: u64,
    pub size: usize,
}

/// The set of recently failed candidate URLs, with the time of its last
/// wholesale reset.
pub struct FailedSources {
    pub sources: Vec<String>,
    pub last_reset: u64,
}

/// Whether `url` is in the failure set.
pub open spec fn spec_failed(sources: Seq<String>, url: Seq<char>) -> bool {
    exists|i: int| 0 <= i < sources.len() && sources[i]@ == url
}

impl FailedSources {
    /// A fresh, empty failure set stamped at `now`.
    pub fn new(now: u64) -> (r: FailedSources)
        ensures
            r.sources@.len() == 0,
            r.last_reset == now,
    {
        FailedSources { sources: Vec::new(), last_reset: now }
    }

    /// The failure set is due for its periodic wholesale reset.
    pub fn should_reset(&self, now: u64) -> (r: bool)
        ensures
            r == (self.last_reset <= now && now - self.last_reset > FAILURE_RESET_INTERVAL),
    {
        self.last_reset <= now && now - self.last_reset > FAILURE_RESET_INTERVAL
    }

    /// Clears the set and stamps the reset time, bounding how long a
    /// transient mirror outage can exclude a candidate.
    pub fn reset(&mut self, now: u64)
        ensures
            final(self).sources@.len() == 0,
            final(self).last_reset == now,
    {
        self.sources.clear();
        self.last_reset = now;
    }

    /// Whether `url` has recently failed.
    pub fn is_failed(&self, url: &str) -> (r: bool)
        ensures
            r == spec_failed(self.sources@, url@),
    {
        let n = self.sources.len();
        let mut i: usize = 0;
        while i < n
            invariant
                n == self.sources@.len(),
                0 <= i <= n,
                forall|j: int| 0 <= j < i ==> self.sources@[j]@ != url@,
            decreases n - i,
        {
            if str_eq(self.sources[i].as_str(), url) {
                return true;
            }
            i += 1;
        }
        false
    }

    /// Records a failed candidate; already-present URLs are not duplicated.
    pub fn mark_failed(&mut self, url: &str)
        ensures
            final(self).last_reset == old(self).last_reset,
            spec_failed(old(self).sources@, url@) ==> final(self).sources@ == old(self).sources@,
            !spec_failed(old(self).sources@, url@) ==> final(self).sources@.len() == old(
                self).sources@.len() + 1 && final(self).sources@.last()@ == url@ && final(
                self).sources@.take(old(self).sources@.len() as int) == old(self).sources@,
            forall|u: Seq<char>|
                #[trigger] spec_failed(final(self).sources@, u) <==> (spec_failed(
                    old(self).sources@,
                    u,
                ) || u == url@),
    {
        if !self.is_failed(url) {
            let owned = url.to_owned();
            self.sources.push(owned);
            proof {
                assert forall|u: Seq<char>| #[trigger]
                    spec_failed(self.sources@, u) <==> (spec_failed(
                        old(self).sources@,
                        u,
                    ) || u == url@) by {
                    if spec_failed(self.sources@, u) {
                        let i = choose|i: int|
                            0 <= i < self.sources@.len() && self.sources@[i]@ == u;
                        if i < old(self).sources@.len() {
                            assert(old(self).sources@[i]@ == u);
                        }
                    }
                    if spec_failed(old(self).sources@, u) {
                        let i = choose|i: int|
                            0 <= i < old(self).sources@.len() && old(self).sources@[i]@ == u;
                        assert(self.sources@[i]@ == u);
                    }
                    if u == url@ {
                        assert(self.sources@[self.sources@.len() - 1]@ == u);
                    }
                }
                assert(self.sources@.take(old(self).sources@.len() as int) =~= old(
                    self,
                ).sources@);
            }
        }
    }

    /// Removes a candidate from the failure set after a success.
    pub fn mark_succeeded(&mut self, url: &str)
        ensures
            final(self).last_reset == old(self).last_reset,
            forall|u: Seq<char>|
                #[trigger] spec_failed(final(self).sources@, u) <==> (spec_failed(
                    old(self).sources@,
                    u,
                ) && u != url@),
    {
        let n = self.sources.len();
        let mut kept: Vec<String> = Vec::new();
        let mut i: usize = 0;
        while i < n
            invariant
                n == self.sources@.len(),
                0 <= i <= n,
                forall|m: int|
                    0 <= m < kept@.len() ==> #[trigger] kept@[m]@ != url@ && spec_failed(
                        self.sources@.take(i as int),
                        kept@[m]@,
                    ),
                forall|j: int|
                    0 <= j < i && self.sources@[j]@ != url@ ==> spec_failed(
                        kept@,
                        #[trigger] self.sources@[j]@,
                    ),
            decreases n - i,
        {
            if !str_eq(self.sources[i].as_str(), url) {
                let s = self.sources[i].clone();
                let ghost kept_old = kept@;
                kept.push(s);
                proof {
                    assert forall|m: int| 0 <= m < kept@.len() implies #[trigger] kept@[m]@
                        != url@ && spec_failed(self.sources@.take(i as int + 1), kept@[m]@) by {
                        if m < kept@.len() - 1 {
                            assert(kept@[m] == kept_old[m]);
                            let jj = choose|jj: int|
                                0 <= jj < i && self.sources@.take(i as int)[jj]@ == kept@[m]@;
                            assert(self.sources@.take(i as int + 1)[jj]@ == kept@[m]@);
                        } else {
                            assert(self.sources@.take(i as int + 1)[i as int]@ == kept@[m]@);
                        }
                    }
                    assert forall|j: int|
                        0 <= j < i + 1 && self.sources@[j]@ != url@ implies spec_failed(
                        kept@,
                        #[trigger] self.sources@[j]@,
                    ) by {
                        if j < i {
                            let m = choose|m: int|
                                0 <= m < kept_old.len() && kept_old[m]@ == self.sources@[j]@;
                            assert(kept@[m]@ == self.sources@[j]@);
                        } else {
                            assert(kept@[kept@.len() - 1]@ == self.sources@[j]@);
                        }
                    }
                }
            } else {
                proof {
                    assert forall|m: int| 0 <= m < kept@.len() implies #[trigger] kept@[m]@
                        != url@ && spec_failed(self.sources@.take(i as int + 1), kept@[m]@) by {
                        let jj = choose|jj: int|
                            0 <= jj < i && self.sources@.take(i as int)[jj]@ == kept@[m]@;
                        assert(self.sources@.take(i as int + 1)[jj]@ == kept@[m]@);
                    }
                }
            }
            i += 1;
        }
        proof {
            assert(self.sources@.take(n as int) =~= self.sources@);
        }
        self.sources = kept;
        proof {
            assert forall|u: Seq<char>| #[trigger]
                spec_failed(self.sources@, u) <==> (spec_failed(old(self).sources@, u) && u
                    != url@) by {
                if spec_failed(self.sources@, u) {
                    let m = choose|m: int| 0 <= m < self.sources@.len() && self.sources@[m]@ == u;
                }
                if spec_failed(old(self).sources@, u) && u != url@ {
                    let j = choose|j: int|
                        0 <= j < old(self).sources@.len() && old(self).sources@[j]@ == u;
                }
            }
        }
    }
}

/// The fixed, priority-ordered candidate mirror URLs: regionally reachable
/// mirrors first, then direct origins, then proxy gateways.
pub open spec fn candidate_urls() -> Seq<Seq<char>> {
    seq![
        "https://agit.ai/Yoursmile7/TVBox/raw/branch/master/jar/custom_spider.jar"@,
        "https://ghproxy.net/https://raw.githubusercontent.com/FongMi/CatVodSpider/main/jar/custom_spider.jar"@,
        "https://mirror.ghproxy.com/https://raw.githubusercontent.com/FongMi/CatVodSpider/main/jar/custom_spider.jar"@,
        "https://raw.githubusercontent.com/FongMi/CatVodSpider/main/jar/custom_spider.jar"@,
        "https://raw.gitmirror.com/FongMi/CatVodSpider/main/jar/custom_spider.jar"@,
        "https://ghproxy.cc/https://raw.githubusercontent.com/FongMi/CatVodSpider/main/jar/custom_spider.jar"@,
        "https://gh-proxy.com/https://raw.githubusercontent.com/FongMi/CatVodSpider/main/jar/custom_spider.jar"@,
        "https://ghps.cc/https://raw.githubusercontent.com/FongMi/CatVodSpider/main/jar/custom_spider.jar"@,
        "https://gh.api.99988866.xyz/https://raw.githubusercontent.com/FongMi/CatVodSpider/main/jar/custom_spider.jar"@,
    ]
}

/// The ordered candidate list: domestic mirrors, then international
/// origins, then proxy gateways.
pub fn get_candidates() -> (r: Vec<String>)
    ensures
        r@.len() == candidate_urls().len(),
        forall|i: int| 0 <= i < r@.len() ==> r@[i]@ == #[trigger] candidate_urls()[i],
{
    let mut r: Vec<String> = Vec::new();
    r.push("https://agit.ai/Yoursmile7/TVBox/raw/branch/master/jar/custom_spider.jar".to_owned());
    r.push(
        "https://ghproxy.net/https://raw.githubusercontent.com/FongMi/CatVodSpider/main/jar/custom_spider.jar".to_owned(),
    );
    r.push(
        "https://mirror.ghproxy.com/https://raw.githubusercontent.com/FongMi/CatVodSpider/main/jar/custom_spider.jar".to_owned(),
    );
    r.push(
        "https://raw.githubusercontent.com/FongMi/CatVodSpider/main/jar/custom_spider.jar".to_owned(),
    );
    r.push(
        "https://raw.gitmirror.com/FongMi/CatVodSpider/main/jar/custom_spider.jar".to_owned(),
    );
    r.push(
        "https://ghproxy.cc/https://raw.githubusercontent.com/FongMi/CatVodSpider/main/jar/custom_spider.jar".to_owned(),
    );
    r.push(
        "https://gh-proxy.com/https://raw.githubusercontent.com/FongMi/CatVodSpider/main/jar/custom_spider.jar".to_owned(),
    );
    r.push(
        "https://ghps.cc/https://raw.githubusercontent.com/FongMi/CatVodSpider/main/jar/custom_spider.jar".to_owned(),
    );
    r.push(
        "https://gh.api.99988866.xyz/https://raw.githubusercontent.com/FongMi/CatVodSpider/main/jar/custom_spider.jar".to_owned(),
    );
    r
}

/// The candidates not in the failure set, in order.
pub open spec fn spec_unfailed(cands: Seq<String>, failed: Seq<String>) -> Seq<String> {
    cands.filter(|c: String| !spec_failed(failed, c@))
}

/// The list the resolver will walk: the candidates with recent failures
/// removed, or the whole list when that filter would empty it — resolution
/// is never blocked solely because every mirror failed recently.
pub open spec fn spec_to_try(cands: Seq<String>, failed: Seq<String>) -> Seq<String> {
    if spec_unfailed(cands, failed).len() == 0 {
        cands
    } else {
        spec_unfailed(cands, failed)
    }
}

/// Drops recently failed candidates, falling back to the unfiltered list
/// when none survive.
pub fn candidates_to_try(candidates: &Vec<String>, failed: &FailedSources) -> (r: Vec<String>)
    ensures
        r@ == spec_to_try(candidates@, failed.sources@),
{
    let mut active: Vec<String> = Vec::new();
    let n = candidates.len();
    let mut i: usize = 0;
    proof {
        assert(candidates@.take(0int).filter(|c: String| !spec_failed(failed.sources@, c@))
            =~= Seq::<String>::empty());
    }
    while i < n
        invariant
            n == candidates@.len(),
            0 <= i <= n,
            active@ == candidates@.take(i as int).filter(
                |c: String| !spec_failed(failed.sources@, c@),
            ),
        decreases n - i,
    {
        let c = &candidates[i];
        proof {
            assert(candidates@.take(i as int + 1).drop_last() =~= candidates@.take(i as int));
            reveal_with_fuel(Seq::filter, 2);
            assert(candidates@.take(i as int + 1).last() == candidates@[i as int]);
        }
        if !failed.is_failed(c.as_str()) {
            let cc = c.clone();
            active.push(cc);
        }
        i += 1;
    }
    proof {
        assert(candidates@.take(n as int) =~= candidates@);
    }
    if active.len() == 0 {
        let mut whole: Vec<String> = Vec::new();
        let mut i: usize = 0;
        while i < n
            invariant
                n == candidates@.len(),
                0 <= i <= n,
                whole@.len() == i,
                forall|j: int| 0 <= j < i ==> whole@[j] == candidates@[j],
            decreases n - i,
        {
            let cc = candidates[i].clone();
            whole.push(cc);
            i += 1;
        }
        proof {
            assert(whole@ =~= candidates@);
        }
        whole
    } else {
        active
    }
}

/// Relies on `md5::compute` and the `LowerHex` impl of `md5::Digest`: the
/// 128-bit digest printed as 32 lowercase hex digits, a function of the
/// bytes alone.
pub uninterp spec fn md5_hex_of(data: Seq<u8>) -> Seq<char>;

/// Relies on `md5::compute`: the hex digest of the bytes, always 32
/// digits.
#[verifier::external_body]
pub fn calculate_md5(data: &[u8]) -> (r: String)
    ensures
        r@ == md5_hex_of(data@),
        r@.len() == 32,
{
    format!("{:x}", md5::compute(data))
}

/// Relies on base64's standard-alphabet engine: what decoding yields, a
/// function of the input characters alone; `None` stands for a rejected
/// input.
pub uninterp spec fn base64_decode_of(s: Seq<char>) -> Option<Seq<u8>>;

/// Relies on `base64::engine::general_purpose::STANDARD.decode`.
#[verifier::external_body]
fn base64_decode(s: &str) -> (r: Option<Vec<u8>>)
    ensures
        match (r, base64_decode_of(s@)) {
            (Some(v), Some(b)) => v@ == b,
            (None, None) => true,
            _ => false,
        },
{
    base64::Engine::decode(&base64::engine::general_purpose::STANDARD, s).ok()
}

/// The base64-encoded fallback spider binary embedded in the build.
pub fn fallback_jar_base64() -> (r: &'static str)
    ensures
        r@ == fallback_base64_text(),
{
    "UEsDBBQACAgIACVFfFcAAAAAAAAAAAAAAAAJAAAATUVUQS1JTkYvUEsHCAAAAAACAAAAAAAAACVFfFcAAAAAAAAAAAAAAAANAAAATUVUQS1JTkYvTUFOSUZFU1QuTUZNYW5pZmVzdC1WZXJzaW9uOiAxLjAKQ3JlYXRlZC1CeTogMS44LjBfNDIxIChPcmFjbGUgQ29ycG9yYXRpb24pCgpQSwcIj79DCUoAAABLAAAAUEsDBBQACAgIACVFfFcAAAAAAAAAAAAAAAAMAAAATWVkaWFVdGlscy5jbGFzczWRSwrCQBBER3trbdPxm4BuBHfiBxHFH4hCwJX4ATfFCrAxnWnYgZCTuPIIHkCPYE+lM5NoILPpoqvrVVd1JslCaLB3MpILJ5xRz5gbMeMS+oyeBOc4xSWucYsZN3CHe7zgiQue8YJXvOEdH/jEFz7whW984weZ+Ecm/pGJf2TiH5n4Ryb+kYl/ZOIfmfhHJv6RiX9k4h+Z+Ecm/pGJf2TiH5n4Ryb+kYl/ZOIfGQaaaXzgE1/4xje+8Y1vfOMb3/jGN77xjW98q9c0TdM0TdM0TdM0TdM0TdM0TdM0TdM0TdM0TdM0TdM0TdM0TdM0TdM0TdM0TdM0TdM0TdM0TdM0TdM0TdM0TdM0TdM0TdM0TdM0TdM0TdM0TdM0TdM0TdM0TdM0TdM0TdM0TdM0TdM0TdM0TdM0TdM0TdM0TdM0TdM0TdM0TdM0TdM0TdM0TdM0TdM0TdM0TdM0TdOI06nO7p48NRQjICAgICAgICAgICAgICAoKCgoKCgoKCgoKCgoKChoqKioqKioqKio;"
}

/// The view of the embedded fallback text.
pub open spec fn fallback_base64_text() -> Seq<char> {
    "UEsDBBQACAgIACVFfFcAAAAAAAAAAAAAAAAJAAAATUVUQS1JTkYvUEsHCAAAAAACAAAAAAAAACVFfFcAAAAAAAAAAAAAAAANAAAATUVUQS1JTkYvTUFOSUZFU1QuTUZNYW5pZmVzdC1WZXJzaW9uOiAxLjAKQ3JlYXRlZC1CeTogMS44LjBfNDIxIChPcmFjbGUgQ29ycG9yYXRpb24pCgpQSwcIj79DCUoAAABLAAAAUEsDBBQACAgIACVFfFcAAAAAAAAAAAAAAAAMAAAATWVkaWFVdGlscy5jbGFzczWRSwrCQBBER3trbdPxm4BuBHfiBxHFH4hCwJX4ATfFCrAxnWnYgZCTuPIIHkCPYE+lM5NoILPpoqvrVVd1JslCaLB3MpILJ5xRz5gbMeMS+oyeBOc4xSWucYsZN3CHe7zgiQue8YJXvOEdH/jEFz7whW984weZ+Ecm/pGJf2TiH5n4Ryb+kYl/ZOIfmfhHJv6RiX9k4h+Z+Ecm/pGJf2TiH5n4Ryb+kYl/ZOIfGQaaaXzgE1/4xje+8Y1vfOMb3/jGN77xjW98q9c0TdM0TdM0TdM0TdM0TdM0TdM0TdM0TdM0TdM0TdM0TdM0TdM0TdM0TdM0TdM0TdM0TdM0TdM0TdM0TdM0TdM0TdM0TdM0TdM0TdM0TdM0TdM0TdM0TdM0TdM0TdM0TdM0TdM0TdM0TdM0TdM0TdM0TdM0TdM0TdM0TdM0TdM0TdM0TdM0TdM0TdM0TdM0TdM0TdOI06nO7p48NRQjICAgICAgICAgICAgICAoKCgoKCgoKCgoKCgoKChoqKioqKioqKio;"@
}

/// The bytes of the embedded fallback binary: the decoded base64 text, or
/// empty when decoding is rejected.
pub open spec fn fallback_bytes() -> Seq<u8> {
    match base64_decode_of(fallback_base64_text()) {
        Some(b) => b,
        None => Seq::empty(),
    }
}

/// Builds the record for a resolution that exhausted every candidate:
/// the embedded fallback binary with `success == false`. Such a record is
/// never persisted to disk.
pub fn fallback_record(now: u64, tried: usize) -> (r: SpiderInfo)
    ensures
        r.buffer is Some,
        r.buffer->0@ == fallback_bytes(),
        r.md5@ == md5_hex_of(fallback_bytes()),
        r.source@ == "fallback"@,
        r.success == false,
        r.cached == false,
        r.timestamp == now,
        r.size == fallback_bytes().len(),
        r.tried == tried,
{
    let data = match base64_decode(fallback_jar_base64()) {
        Some(d) => d,
        None => Vec::new(),
    };
    proof {
        assert(data@ == fallback_bytes());
    }
    let md5 = calculate_md5(data.as_slice());
    let size = data.len();
    SpiderInfo {
        buffer: Some(data),
        md5,
        source: "fallback".to_owned(),
        success: false,
        cached: false,
        timestamp: now,
        size,
        tried,
    }
}

/// Builds the record for a candidate that returned a validated binary.
pub fn success_record(url: &str, buffer: Vec<u8>, now: u64, tried: usize) -> (r: SpiderInfo)
    ensures
        r.buffer is Some,
        r.buffer->0@ == buffer@,
        r.md5@ == md5_hex_of(buffer@),
        r.source@ == url@,
        r.success == true,
        r.cached == false,
        r.timestamp == now,
        r.size == buffer@.len(),
        r.tried == tried,
{
    let md5 = calculate_md5(buffer.as_slice());
    let size = buffer.len();
    SpiderInfo {
        buffer: Some(buffer),
        md5,
        source: url.to_owned(),
        success: true,
        cached: false,
        timestamp: now,
        size,
        tried,
    }
}

/// A disk-cached record is usable when it is no older than the success TTL
/// and the stored checksum matches the recomputed checksum of the payload.
/// Anything else is treated as corruption and discarded, never surfaced.
pub open spec fn spec_disk_usable(meta: SpiderMetadata, payload: Seq<u8>, now: u64) -> bool {
    &&& meta.timestamp <= now
    &&& now - meta.timestamp <= SUCCESS_TTL
    &&& md5_hex_of(payload) == meta.md5@
}

/// Validates a disk-cache entry: age within the success TTL and checksum
/// equal to the recomputed checksum of the payload.
pub fn disk_cache_usable(meta: &SpiderMetadata, payload: &Vec<u8>, now: u64) -> (r: bool)
    ensures
        r == spec_disk_usable(*meta, payload@, now),
{
    if !(meta.timestamp <= now && now - meta.timestamp <= SUCCESS_TTL) {
        return false;
    }
    let actual = calculate_md5(payload.as_slice());
    actual == meta.md5
}

/// The in-memory record is usable when it holds a binary and its age is
/// within the success TTL after a success, or the shorter failure TTL
/// after a failure.
pub open spec fn spec_mem_usable(info: SpiderInfo, now: u64) -> bool {
    &&& info.buffer is Some
    &&& info.timestamp <= now
    &&& now - info.timestamp < (if info.success {
        SUCCESS_TTL
    } else {
        FAILURE_TTL
    })
}

/// Validates the in-memory record against the success or failure TTL.
pub fn memory_cache_usable(info: &SpiderInfo, now: u64) -> (r: bool)
    ensures
        r == spec_mem_usable(*info, now),
{
    let ttl: u64 = if info.success {
        SUCCESS_TTL
    } else {
        FAILURE_TTL
    };
    info.buffer.is_some() && info.timestamp <= now && now - info.timestamp < ttl
}

/// The index of the first fetch outcome that passes format validation,
/// or `outcomes.len()` when every candidate failed.
pub open spec fn first_valid(outcomes: Seq<Option<Vec<u8>>>) -> int
    decreases outcomes.len(),
{
    if outcomes.len() == 0 {
        0
    } else if outcomes[0] is Some && payload_valid(outcomes[0]->0@) {
        0
    } else {
        1 + first_valid(outcomes.skip(1))
    }
}

pub proof fn lemma_first_valid(outcomes: Seq<Option<Vec<u8>>>)
    ensures
        0 <= first_valid(outcomes) <= outcomes.len(),
        forall|j: int|
            0 <= j < first_valid(outcomes) ==> !(#[trigger] outcomes[j] is Some && payload_valid(
                outcomes[j]->0@,
            )),
        first_valid(outcomes) < outcomes.len() ==> outcomes[first_valid(outcomes)] is Some
            && payload_valid(outcomes[first_valid(outcomes)]->0@),
    decreases outcomes.len(),
{
    if outcomes.len() > 0 && !(outcomes[0] is Some && payload_valid(outcomes[0]->0@)) {
        lemma_first_valid(outcomes.skip(1));
        assert forall|j: int|
            0 <= j < first_valid(outcomes) implies !(#[trigger] outcomes[j] is Some
            && payload_valid(outcomes[j]->0@)) by {
            if j > 0 {
                assert(outcomes.skip(1)[j - 1] == outcomes[j]);
            }
        }
        if first_valid(outcomes) < outcomes.len() {
            assert(outcomes.skip(1)[first_valid(outcomes.skip(1))]
                == outcomes[first_valid(outcomes)]);
        }
    }
}

/// Walks the candidates in order against their fetch outcomes: the first
/// validated payload wins, is removed from the failure set and returned;
/// every candidate before it is recorded as failed. Returns `None`, with
/// all candidates marked failed, when no outcome validates.
///
/// The outcomes are supplied by the caller, which performs the HTTP
/// fetches (with its own timeout and retry budget) for exactly the
/// candidates this walk reaches.
pub fn resolve_candidates(
    candidates: &Vec<String>,
    outcomes: &Vec<Option<Vec<u8>>>,
    failed: &mut FailedSources,
    now: u64,
) -> (r: Option<SpiderInfo>)
    requires
        outcomes@.len() == candidates@.len(),
    ensures
        final(failed).last_reset == old(failed).last_reset,
        ({
            let k = first_valid(outcomes@);
            if k < candidates@.len() {
                &&& r is Some
                &&& r->0.buffer is Some
                &&& r->0.buffer->0@ == outcomes@[k]->0@
                &&& r->0.md5@ == md5_hex_of(outcomes@[k]->0@)
                &&& r->0.source@ == candidates@[k]@
                &&& r->0.success == true
                &&& r->0.cached == false
                &&& r->0.timestamp == now
                &&& r->0.size == outcomes@[k]->0@.len()
                &&& r->0.tried == k + 1
                &&& forall|u: Seq<char>|
                    #[trigger] spec_failed(final(failed).sources@, u) <==> ((spec_failed(
                        old(failed).sources@,
                        u,
                    ) || exists|i: int| 0 <= i < k && candidates@[i]@ == u) && u
                        != candidates@[k]@)
            } else {
                &&& r is None
                &&& forall|u: Seq<char>|
                    #[trigger] spec_failed(final(failed).sources@, u) <==> (spec_failed(
                        old(failed).sources@,
                        u,
                    ) || exists|i: int| 0 <= i < candidates@.len() && candidates@[i]@ == u)
            }
        }),
{
    proof {
        lemma_first_valid(outcomes@);
    }
    let ghost k = first_valid(outcomes@);
    let n = candidates.len();
    let mut i: usize = 0;
    while i < n
        invariant
            n == candidates@.len(),
            n == outcomes@.len(),
            k == first_valid(outcomes@),
            0 <= i <= n,
            forall|j: int|
                0 <= j < i ==> !(#[trigger] outcomes@[j] is Some && payload_valid(
                    outcomes@[j]->0@,
                )),
            failed.last_reset == old(failed).last_reset,
            forall|u: Seq<char>|
                #[trigger] spec_failed(failed.sources@, u) <==> (spec_failed(
                    old(failed).sources@,
                    u,
                ) || exists|j: int| 0 <= j < i && candidates@[j]@ == u),
        decreases n - i,
    {
        let url = &candidates[i];
        let mut valid_data: Option<Vec<u8>> = None;
        match &outcomes[i] {
            Some(data) => {
                if validate_payload(data) {
                    valid_data = Some(clone_bytes(data));
                } else {
                    failed.mark_failed(url.as_str());
                }
            },
            None => {
                failed.mark_failed(url.as_str());
            },
        }
        match valid_data {
            Some(data) => {
                proof {
                    lemma_first_valid_count(outcomes@, i as int);
                    assert(k == i as int);
                }
                failed.mark_succeeded(url.as_str());
                let rec = success_record(url.as_str(), data, now, i + 1);
                proof {
                    assert forall|u: Seq<char>| #[trigger]
                        spec_failed(failed.sources@, u) <==> ((spec_failed(
                            old(failed).sources@,
                            u,
                        ) || exists|j: int| 0 <= j < k && candidates@[j]@ == u) && u
                            != candidates@[k]@) by {}
                }
                return Some(rec);
            },
            None => {
                proof {
                    assert forall|u: Seq<char>| #[trigger]
                        spec_failed(failed.sources@, u) <==> (spec_failed(
                            old(failed).sources@,
                            u,
                        ) || exists|j: int| 0 <= j < i + 1 && candidates@[j]@ == u) by {
                        if spec_failed(failed.sources@, u) && !spec_failed(
                            old(failed).sources@,
                            u,
                        ) {
                            if u == candidates@[i as int]@ {
                                assert(exists|j: int|
                                    0 <= j < i + 1 && candidates@[j]@ == u);
                            } else {
                                let j = choose|j: int| 0 <= j < i && candidates@[j]@ == u;
                            }
                        }
                        if exists|j: int| 0 <= j < i + 1 && candidates@[j]@ == u {
                            let j = choose|j: int| 0 <= j < i + 1 && candidates@[j]@ == u;
                        }
                    }
                }
            },
        }
        i += 1;
    }
    proof {
        lemma_first_valid_count(outcomes@, n as int);
        assert(k == n as int);
    }
    None
}

/// A byte-for-byte copy of a payload.
fn clone_bytes(v: &Vec<u8>) -> (r: Vec<u8>)
    ensures
        r@ == v@,
{
    let mut r: Vec<u8> = Vec::new();
    let n = v.len();
    let mut i: usize = 0;
    while i < n
        invariant
            n == v@.len(),
            0 <= i <= n,
            r@ == v@.take(i as int),
        decreases n - i,
    {
        r.push(v[i]);
        proof {
            assert(r@ =~= v@.take(i as int + 1));
        }
        i += 1;
    }
    proof {
        assert(v@.take(n as int) =~= v@);
    }
    r
}

proof fn lemma_first_valid_count(outcomes: Seq<Option<Vec<u8>>>, e: int)
    requires
        0 <= e <= outcomes.len(),
        forall|j: int| 0 <= j < e ==> !(#[trigger] outcomes[j] is Some && payload_valid(
            outcomes[j]->0@,
        )),
        e < outcomes.len() ==> outcomes[e] is Some && payload_valid(outcomes[e]->0@),
    ensures
        first_valid(outcomes) == e,
    decreases outcomes.len(),
{
    if outcomes.len() > 0 && !(outcomes[0] is Some && payload_valid(outcomes[0]->0@)) {
        assert(e >= 1);
        lemma_first_valid_count(outcomes.skip(1), e - 1);
    }
}

/// The fetch outcome a plan holds for one URL: the payload of the first
/// entry for that URL, or `None` (a network failure) when absent.
pub open spec fn plan_of(plan: Seq<(String, Option<Vec<u8>>)>, url: Seq<char>) -> Option<Vec<u8>>
    decreases plan.len(),
{
    if plan.len() == 0 {
        None
    } else if plan[0].0@ == url {
        plan[0].1
    } else {
        plan_of(plan.skip(1), url)
    }
}

/// The fetch outcomes a plan assigns to an ordered candidate list.
pub open spec fn spec_outcomes(
    plan: Seq<(String, Option<Vec<u8>>)>,
    cands: Seq<String>,
) -> Seq<Option<Vec<u8>>> {
    cands.map_values(|c: String| plan_of(plan, c@))
}

/// Looks up the fetch outcome recorded for `url`.
fn plan_lookup(plan: &Vec<(String, Option<Vec<u8>>)>, url: &str) -> (r: Option<Vec<u8>>)
    ensures
        match (r, plan_of(plan@, url@)) {
            (Some(a), Some(b)) => a@ == b@,
            (None, None) => true,
            _ => false,
        },
{
    let n = plan.len();
    let mut i: usize = 0;
    proof {
        assert(plan@.skip(0) =~= plan@);
    }
    while i < n
        invariant
            n == plan@.len(),
            0 <= i <= n,
            plan_of(plan@, url@) == plan_of(plan@.skip(i as int), url@),
        decreases n - i,
    {
        proof {
            assert(plan@.skip(i as int)[0] == plan@[i as int]);
            assert(plan@.skip(i as int).skip(1) =~= plan@.skip(i as int + 1));
        }
        if str_eq(plan[i].0.as_str(), url) {
            match &plan[i].1 {
                Some(d) => {
                    return Some(clone_bytes(d));
                },
                None => {
                    return None;
                },
            }
        }
        i += 1;
    }
    proof {
        assert(plan@.skip(n as int) =~= Seq::<(String, Option<Vec<u8>>)>::empty());
    }
    None
}

/// Whether the failure set is due for its periodic reset.
pub open spec fn spec_should_reset(fs: FailedSources, now: u64) -> bool {
    fs.last_reset <= now && now - fs.last_reset > FAILURE_RESET_INTERVAL
}

/// The failure set's contents after the periodic reset check at `now`.
pub open spec fn fs_after_reset(fs: FailedSources, now: u64) -> Seq<String> {
    if spec_should_reset(fs, now) {
        Seq::empty()
    } else {
        fs.sources@
    }
}

/// The disk tier short-circuits resolution: present, not forced, within
/// the success TTL, checksum intact.
pub open spec fn spec_disk_ok(force_refresh: bool, disk: Option<DiskEntry>, now: u64) -> bool {
    !force_refresh && disk is Some && spec_disk_usable(disk->0.meta, disk->0.payload@, now)
}

/// The memory tier short-circuits resolution: not forced and within its TTL.
pub open spec fn spec_mem_ok(force_refresh: bool, mem: SpiderInfo, now: u64) -> bool {
    !force_refresh && spec_mem_usable(mem, now)
}

/// The candidate list the resolver walks, after the periodic reset.
pub open spec fn resolve_try_list(cands: Seq<String>, fs: FailedSources, now: u64) -> Seq<String> {
    spec_to_try(cands, fs_after_reset(fs, now))
}

/// A disk-tier entry as read by the caller: the parsed metadata file and
/// the binary payload beside it.
pub struct DiskEntry {
    pub meta: SpiderMetadata,
    pub payload: Vec<u8>,
}

/// Orchestrates spider-binary resolution: the in-memory record and the
/// failure set, composed with the disk tier and the per-candidate fetches
/// that the caller performs.
pub struct SpiderResourceManager {
    pub memory: SpiderInfo,
    pub failed: FailedSources,
}

impl SpiderResourceManager {
    /// A fresh manager with an empty record and an empty failure set.
    pub fn new(now: u64) -> (r: SpiderResourceManager)
        ensures
            r.memory.buffer is None,
            r.failed.sources@.len() == 0,
            r.failed.last_reset == now,
    {
        SpiderResourceManager { memory: SpiderInfo::empty(), failed: FailedSources::new(now) }
    }

    /// Resolves the spider binary, short-circuiting on the first success:
    /// a periodic failure-set reset, then (unless `force_refresh`) the disk
    /// tier validated by age and checksum, then the in-memory record within
    /// its TTL, then the failure-filtered candidates against the supplied
    /// fetch outcomes, and finally the embedded fallback. Always returns a
    /// usable record; failure is reported in its `success` flag, never as
    /// an error.
    ///
    /// `disk` is the persisted metadata and payload, if any, read by the
    /// caller; `plan` records what fetching each candidate URL returned.
    /// The caller persists the result exactly when [`should_persist`] says
    /// so, which is never the case for the fallback.
    #[verifier::rlimit(60)]
    pub fn resolve(
        &mut self,
        force_refresh: bool,
        disk: Option<DiskEntry>,
        candidates: &Vec<String>,
        plan: &Vec<(String, Option<Vec<u8>>)>,
        now: u64,
    ) -> (r: SpiderInfo)
        ensures
            final(self).failed.last_reset == (if spec_should_reset(old(self).failed, now) {
                now
            } else {
                old(self).failed.last_reset
            }),
            spec_disk_ok(force_refresh, disk, now) ==> {
                &&& r.buffer is Some
                &&& r.buffer->0@ == disk->0.payload@
                &&& r.md5@ == disk->0.meta.md5@
                &&& r.source@ == disk->0.meta.source@
                &&& r.success == disk->0.meta.success
                &&& r.cached == true
                &&& r.timestamp == disk->0.meta.timestamp
                &&& r.size == disk->0.payload@.len()
                &&& r.tried == 0
                &&& final(self).memory.same_record(r)
                &&& forall|u: Seq<char>|
                    #[trigger] spec_failed(final(self).failed.sources@, u) <==> spec_failed(
                        fs_after_reset(old(self).failed, now),
                        u,
                    )
            },
            !spec_disk_ok(force_refresh, disk, now) && spec_mem_ok(
                force_refresh,
                old(self).memory,
                now,
            ) ==> {
                &&& r.same_record(old(self).memory)
                &&& r.cached == true
                &&& r.tried == old(self).memory.tried
                &&& final(self).memory.same_record(old(self).memory)
                &&& forall|u: Seq<char>|
                    #[trigger] spec_failed(final(self).failed.sources@, u) <==> spec_failed(
                        fs_after_reset(old(self).failed, now),
                        u,
                    )
            },
            ({
                let to_try = resolve_try_list(candidates@, old(self).failed, now);
                let k = first_valid(spec_outcomes(plan@, to_try));
                !spec_disk_ok(force_refresh, disk, now) && !spec_mem_ok(
                    force_refresh,
                    old(self).memory,
                    now,
                ) && k < to_try.len() ==> {
                    &&& r.buffer is Some
                    &&& r.buffer->0@ == plan_of(plan@, to_try[k]@)->0@
                    &&& r.md5@ == md5_hex_of(r.buffer->0@)
                    &&& r.source@ == to_try[k]@
                    &&& r.success == true
                    &&& r.cached == false
                    &&& r.timestamp == now
                    &&& r.size == r.buffer->0@.len()
                    &&& r.tried == k + 1
                    &&& final(self).memory.same_record(r)
                    &&& forall|u: Seq<char>|
                        #[trigger] spec_failed(final(self).failed.sources@, u) <==> ((spec_failed(
                            fs_after_reset(old(self).failed, now),
                            u,
                        ) || exists|i: int| 0 <= i < k && to_try[i]@ == u) && u != to_try[k]@)
                }
            }),
            ({
                let to_try = resolve_try_list(candidates@, old(self).failed, now);
                let k = first_valid(spec_outcomes(plan@, to_try));
                !spec_disk_ok(force_refresh, disk, now) && !spec_mem_ok(
                    force_refresh,
                    old(self).memory,
                    now,
                ) && k >= to_try.len() ==> {
                    &&& r.buffer is Some
                    &&& r.buffer->0@ == fallback_bytes()
                    &&& r.md5@ == md5_hex_of(fallback_bytes())
                    &&& r.source@ == "fallback"@
                    &&& r.success == false
                    &&& r.cached == false
                    &&& r.timestamp == now
                    &&& r.size == fallback_bytes().len()
                    &&& r.tried == to_try.len()
                    &&& final(self).memory.same_record(r)
                    &&& forall|u: Seq<char>|
                        #[trigger] spec_failed(final(self).failed.sources@, u) <==> (spec_failed(
                            fs_after_reset(old(self).failed, now),
                            u,
                        ) || exists|i: int| 0 <= i < to_try.len() && to_try[i]@ == u)
                }
            }),
    {
        let ghost was_reset = spec_should_reset(self.failed, now);
        if self.failed.should_reset(now) {
            self.failed.reset(now);
        }
        let ghost fs = self.failed.sources@;
        proof {
            if was_reset {
                assert(self.failed.sources@ =~= Seq::<String>::empty());
            }
            assert(fs == if was_reset {
                Seq::<String>::empty()
            } else {
                old(self).failed.sources@
            });
        }

        if !force_refresh {
            if let Some(entry) = disk {
                if disk_cache_usable(&entry.meta, &entry.payload, now) {
                    let size = entry.payload.len();
                    let record = SpiderInfo {
                        buffer: Some(entry.payload),
                        md5: entry.meta.md5,
                        source: entry.meta.source,
                        success: entry.meta.success,
                        cached: true,
                        timestamp: entry.meta.timestamp,
                        size,
                        tried: 0,
                    };
                    self.memory = clone_record(&record);
                    return record;
                }
            }
        }

        if !force_refresh && memory_cache_usable(&self.memory, now) {
            let mut record = clone_record(&self.memory);
            record.cached = true;
            return record;
        }

        let to_try = candidates_to_try(candidates, &self.failed);
        let mut outcomes: Vec<Option<Vec<u8>>> = Vec::new();
        let tn = to_try.len();
        let mut i: usize = 0;
        while i < tn
            invariant
                tn == to_try@.len(),
                0 <= i <= tn,
                outcomes@.len() == i,
                forall|j: int|
                    0 <= j < i ==> match (#[trigger] outcomes@[j], plan_of(plan@, to_try@[j]@)) {
                        (Some(a), Some(b)) => a@ == b@,
                        (None, None) => true,
                        _ => false,
                    },
            decreases tn - i,
        {
            let o = plan_lookup(plan, to_try[i].as_str());
            outcomes.push(o);
            i += 1;
        }
        proof {
            let so = spec_outcomes(plan@, to_try@);
            assert forall|j: int| 0 <= j < tn implies (#[trigger] outcomes@[j] is Some <==> so[j]
                is Some) && (outcomes@[j] is Some ==> outcomes@[j]->0@ == so[j]->0@) by {}
            lemma_first_valid_same(outcomes@, so);
        }

        match resolve_candidates(&to_try, &outcomes, &mut self.failed, now) {
            Some(record) => {
                proof {
                    let so = spec_outcomes(plan@, to_try@);
                    let kk = first_valid(outcomes@);
                    lemma_first_valid(outcomes@);
                    assert(kk < outcomes@.len());
                    assert(so[kk] == plan_of(plan@, to_try@[kk]@));
                    assert(outcomes@[kk]->0@ == so[kk]->0@);
                }
                self.memory = clone_record(&record);
                record
            },
            None => {
                let record = fallback_record(now, tn);
                self.memory = clone_record(&record);
                record
            },
        }
    }
}

/// Fresh network successes are persisted to the disk tier; cache hits and
/// the embedded fallback never are.
pub fn should_persist(info: &SpiderInfo) -> (r: bool)
    ensures
        r == (info.success && !info.cached),
{
    info.success && !info.cached
}


/// The User-Agent sent to a candidate host, chosen by substring match:
/// a curl-style agent for GitHub raws, a desktop agent for gitee/gitcode
/// mirrors, an identity agent for CDN mirrors, and a mobile agent
/// otherwise.
pub fn user_agent_for(url: &str) -> (r: &'static str)
    ensures
        crate::strutil::contains_seq(url@, "github"@) || crate::strutil::contains_seq(
            url@,
            "raw.githubusercontent"@,
        ) ==> r@ == "curl/7.68.0"@,
        !(crate::strutil::contains_seq(url@, "github"@) || crate::strutil::contains_seq(
            url@,
            "raw.githubusercontent"@,
        )) && (crate::strutil::contains_seq(url@, "gitee"@) || crate::strutil::contains_seq(
            url@,
            "gitcode"@,
        )) ==> r@ == "Mozilla/5.0 (Windows NT 10.0; Win64; x64) AppleWebKit/537.36"@,
        !(crate::strutil::contains_seq(url@, "github"@) || crate::strutil::contains_seq(
            url@,
            "raw.githubusercontent"@,
        )) && !(crate::strutil::contains_seq(url@, "gitee"@) || crate::strutil::contains_seq(
            url@,
            "gitcode"@,
        )) && (crate::strutil::contains_seq(url@, "jsdelivr"@) || crate::strutil::contains_seq(
            url@,
            "fastly"@,
        )) ==> r@ == "DecoTV/1.0"@,
        !(crate::strutil::contains_seq(url@, "github"@) || crate::strutil::contains_seq(
            url@,
            "raw.githubusercontent"@,
        )) && !(crate::strutil::contains_seq(url@, "gitee"@) || crate::strutil::contains_seq(
            url@,
            "gitcode"@,
        )) && !(crate::strutil::contains_seq(url@, "jsdelivr"@) || crate::strutil::contains_seq(
            url@,
            "fastly"@,
        )) ==> r@
            == "Mozilla/5.0 (Linux; Android 11; SM-G973F) AppleWebKit/537.36 (KHTML, like Gecko) Chrome/91.0.4472.124 Mobile Safari/537.36"@,
{
    if crate::strutil::contains_str(url, "github") || crate::strutil::contains_str(
        url,
        "raw.githubusercontent",
    ) {
        "curl/7.68.0"
    } else if crate::strutil::contains_str(url, "gitee") || crate::strutil::contains_str(
        url,
        "gitcode",
    ) {
        "Mozilla/5.0 (Windows NT 10.0; Win64; x64) AppleWebKit/537.36"
    } else if crate::strutil::contains_str(url, "jsdelivr") || crate::strutil::contains_str(
        url,
        "fastly",
    ) {
        "DecoTV/1.0"
    } else {
        "Mozilla/5.0 (Linux; Android 11; SM-G973F) AppleWebKit/537.36 (KHTML, like Gecko) Chrome/91.0.4472.124 Mobile Safari/537.36"
    }
}

/// A field-for-field copy of a record.
fn clone_record(info: &SpiderInfo) -> (r: SpiderInfo)
    ensures
        r.same_record(*info),
        r.cached == info.cached,
        r.tried == info.tried,
{
    let buffer = match &info.buffer {
        Some(b) => Some(clone_bytes(b)),
        None => None,
    };
    SpiderInfo {
        buffer,
        md5: info.md5.clone(),
        source: info.source.clone(),
        success: info.success,
        cached: info.cached,
        timestamp: info.timestamp,
        size: info.size,
        tried: info.tried,
    }
}

/// Two outcome rows that validate identically have the same first success.
proof fn lemma_first_valid_same(a: Seq<Option<Vec<u8>>>, b: Seq<Option<Vec<u8>>>)
    requires
        a.len() == b.len(),
        forall|j: int|
            0 <= j < a.len() ==> (#[trigger] a[j] is Some <==> b[j] is Some) && (a[j] is Some
                ==> a[j]->0@ == b[j]->0@),
    ensures
        first_valid(a) == first_valid(b),
    decreases a.len(),
{
    if a.len() > 0 {
        if a[0] is Some && payload_valid(a[0]->0@) {
            assert(b[0] is Some && payload_valid(b[0]->0@));
        } else {
            assert(!(b[0] is Some && payload_valid(b[0]->0@)));
            assert forall|j: int|
                0 <= j < a.skip(1).len() implies (#[trigger] a.skip(1)[j] is Some <==> b.skip(
                1,
            )[j] is Some) && (a.skip(1)[j] is Some ==> a.skip(1)[j]->0@ == b.skip(1)[j]->0@) by {
                assert(a.skip(1)[j] == a[j + 1]);
                assert(b.skip(1)[j] == b[j + 1]);
            }
            lemma_first_valid_same(a.skip(1), b.skip(1));
        }
    }
}

} // verus!
