//! HLS playlist ad filtering: a line-oriented state machine that removes
//! `CUE-OUT`/`CUE-IN` ad spans, ad-classified `DATERANGE` tags, ad-URL
//! `PART` tags, and whole segments whose URI matches an ad heuristic.
//!
//! The machine is specified over line indices: `state_at` gives the parser
//! state before each line, `out_upto` the indices emitted so far, and the
//! executable filter is proved to emit exactly those lines.

use vstd::prelude::*;

use crate::strutil::{
    contains_ci, contains_ci_str, has_prefix, push_char, starts_with_str, trim_spec, trim_str,
};

verus! {

/// A tag that opens an ad break.
pub open spec fn is_cue_open(t: Seq<char>) -> bool {
    has_prefix(t, "#EXT-X-CUE-OUT"@) || has_prefix(t, "#EXT-OATCLS-SCTE35"@)
}

/// A tag that closes an ad break.
pub open spec fn is_cue_close(t: Seq<char>) -> bool {
    has_prefix(t, "#EXT-X-CUE-IN"@)
}

/// A `DATERANGE` tag line.
pub open spec fn is_daterange(t: Seq<char>) -> bool {
    has_prefix(t, "#EXT-X-DATERANGE"@)
}

/// A low-latency HLS partial-segment tag line.
pub open spec fn is_part(t: Seq<char>) -> bool {
    has_prefix(t, "#EXT-X-PART"@)
}

/// The tag that opens a segment description.
pub open spec fn is_extinf(t: Seq<char>) -> bool {
    has_prefix(t, "#EXTINF"@)
}

/// Any tag or comment line.
pub open spec fn is_tag(t: Seq<char>) -> bool {
    t.len() > 0 && t[0] == '#'
}

/// The ad-URL heuristic: a case-insensitive substring match against the
/// known advertising markers.
pub open spec fn ad_url(t: Seq<char>) -> bool {
    contains_ci(t, "/ad/"@) || contains_ci(t, "_ad_"@) || contains_ci(t, "-ad-"@) || contains_ci(
        t,
        "promo"@,
    ) || contains_ci(t, "doubleclick"@)
}

/// A `DATERANGE` tag is ad-classified when it carries an ad class,
/// an interstitial marker, an `X-AD-` attribute, or an SCTE35 attribute.
pub open spec fn ad_daterange(t: Seq<char>) -> bool {
    contains_ci(t, "CLASS=\"AD\""@) || contains_ci(t, "INTERSTITIAL"@) || contains_ci(t, "X-AD-"@)
        || contains_ci(t, "SCTE35"@)
}

/// Parser state before a line: whether we are inside a `CUE-OUT` span,
/// whether a segment is being collected, and the indices buffered for it.
pub struct FilterState {
    pub skip: bool,
    pub collecting: bool,
    pub buf: Seq<int>,
}

/// The initial parser state.
pub open spec fn init_state() -> FilterState {
    FilterState { skip: false, collecting: false, buf: Seq::empty() }
}

/// Line indices emitted when the machine processes line `i` in state `st`.
pub open spec fn line_emits(lines: Seq<Seq<char>>, st: FilterState, i: int) -> Seq<int> {
    let t = trim_spec(lines[i]);
    if is_cue_open(t) {
        Seq::empty()
    } else if is_cue_close(t) {
        Seq::empty()
    } else if st.skip {
        Seq::empty()
    } else if is_daterange(t) && ad_daterange(t) {
        Seq::empty()
    } else if is_part(t) {
        if ad_url(t) {
            Seq::empty()
        } else {
            seq![i]
        }
    } else if is_extinf(t) {
        Seq::empty()
    } else if st.collecting {
        if is_tag(t) {
            Seq::empty()
        } else if ad_url(t) {
            Seq::empty()
        } else {
            st.buf.push(i)
        }
    } else {
        seq![i]
    }
}

/// Parser state after the machine processes line `i` in state `st`.
pub open spec fn line_next(lines: Seq<Seq<char>>, st: FilterState, i: int) -> FilterState {
    let t = trim_spec(lines[i]);
    if is_cue_open(t) {
        FilterState { skip: true, collecting: false, buf: Seq::empty() }
    } else if is_cue_close(t) {
        FilterState { skip: false, collecting: st.collecting, buf: st.buf }
    } else if st.skip {
        FilterState { skip: true, collecting: false, buf: Seq::empty() }
    } else if is_daterange(t) && ad_daterange(t) {
        st
    } else if is_part(t) {
        st
    } else if is_extinf(t) {
        FilterState { skip: false, collecting: true, buf: seq![i] }
    } else if st.collecting {
        if is_tag(t) {
            FilterState { skip: false, collecting: true, buf: st.buf.push(i) }
        } else {
            init_state()
        }
    } else {
        st
    }
}

/// Parser state before line `k`.
pub open spec fn state_at(lines: Seq<Seq<char>>, k: int) -> FilterState
    decreases k,
{
    if k <= 0 {
        init_state()
    } else {
        line_next(lines, state_at(lines, k - 1), k - 1)
    }
}

/// Indices emitted by the first `k` lines, in emission order.
pub open spec fn out_upto(lines: Seq<Seq<char>>, k: int) -> Seq<int>
    decreases k,
{
    if k <= 0 {
        Seq::empty()
    } else {
        out_upto(lines, k - 1) + line_emits(lines, state_at(lines, k - 1), k - 1)
    }
}

/// Indices of the lines the filter keeps, in emission order.
pub open spec fn filter_indices(lines: Seq<Seq<char>>) -> Seq<int> {
    out_upto(lines, lines.len() as int)
}

/// The filtered playlist, as a sequence of lines.
pub open spec fn filter_lines(lines: Seq<Seq<char>>) -> Seq<Seq<char>> {
    filter_indices(lines).map_values(|j: int| lines[j])
}

/// Position of the first `'\n'` in `s`, or `s.len()` if there is none.
pub open spec fn first_nl(s: Seq<char>) -> int
    decreases s.len(),
{
    if s.len() == 0 {
        0
    } else if s[0] == '\n' {
        0
    } else {
        1 + first_nl(s.skip(1))
    }
}

/// One trailing `'\r'` removed, as `str::lines` does before a `'\n'`.
pub open spec fn strip_cr(l: Seq<char>) -> Seq<char> {
    if l.len() > 0 && l[l.len() - 1] == '\r' {
        l.take(l.len() - 1)
    } else {
        l
    }
}

/// The lines of `s`, as `str::lines` yields them: split at `'\n'`, one
/// `'\r'` stripped before each `'\n'`, no final empty line.
pub open spec fn split_lines(s: Seq<char>) -> Seq<Seq<char>>
    decreases s.len(),
    via split_lines_decreases
{
    if s.len() == 0 {
        Seq::empty()
    } else {
        let i = first_nl(s);
        if i == s.len() {
            seq![s]
        } else {
            seq![strip_cr(s.take(i))] + split_lines(s.skip(i + 1))
        }
    }
}

#[via_fn]
proof fn split_lines_decreases(s: Seq<char>) {
    lemma_first_nl(s);
}

/// The lines joined with `'\n'` separators and no trailing newline.
pub open spec fn join_lines(ls: Seq<Seq<char>>) -> Seq<char>
    decreases ls.len(),
{
    if ls.len() == 0 {
        Seq::empty()
    } else if ls.len() == 1 {
        ls[0]
    } else {
        ls[0] + seq!['\n'] + join_lines(ls.drop_first())
    }
}

proof fn lemma_first_nl(s: Seq<char>)
    ensures
        0 <= first_nl(s) <= s.len(),
        forall|j: int| 0 <= j < first_nl(s) ==> s[j] != '\n',
        first_nl(s) < s.len() ==> s[first_nl(s)] == '\n',
    decreases s.len(),
{
    if s.len() > 0 && s[0] != '\n' {
        lemma_first_nl(s.skip(1));
        assert forall|j: int| 0 <= j < first_nl(s) implies s[j] != '\n' by {
            if j > 0 {
                assert(s.skip(1)[j - 1] == s[j]);
            }
        }
        if first_nl(s) < s.len() {
            assert(s.skip(1)[first_nl(s.skip(1))] == s[first_nl(s)]);
        }
    }
}

proof fn lemma_first_nl_count(s: Seq<char>, e: int)
    requires
        0 <= e <= s.len(),
        forall|j: int| 0 <= j < e ==> s[j] != '\n',
        e < s.len() ==> s[e] == '\n',
    ensures
        first_nl(s) == e,
    decreases s.len(),
{
    if s.len() > 0 && s[0] != '\n' {
        assert(e >= 1);
        lemma_first_nl_count(s.skip(1), e - 1);
    }
}

/// Splits `content` into its lines, as `str::lines` does.
pub(crate) fn split_into_lines<'a>(content: &'a str) -> (lines: Vec<&'a str>)
    ensures
        lines@.map_values(|l: &str| l@) == split_lines(content@),
{
    let n = content.unicode_len();
    let mut lines: Vec<&str> = Vec::new();
    let mut pos: usize = 0;
    proof {
        assert(content@.skip(0) =~= content@);
    }
    while pos < n
        invariant
            n == content@.len(),
            0 <= pos <= n,
            lines@.map_values(|l: &str| l@) + split_lines(content@.skip(pos as int))
                =~= split_lines(content@),
        decreases n - pos,
    {
        let ghost rest = content@.skip(pos as int);
        let mut end: usize = pos;
        while end < n && content.get_char(end) != '\n'
            invariant
                n == content@.len(),
                pos <= end <= n,
                forall|j: int| pos <= j < end ==> content@[j] != '\n',
            decreases n - end,
        {
            end += 1;
        }
        proof {
            assert forall|j: int| 0 <= j < end - pos implies rest[j] != '\n' by {
                assert(rest[j] == content@[pos + j]);
            }
            if (end as int) < n {
                assert(rest[end - pos as int] == content@[end as int]);
            }
            lemma_first_nl_count(rest, end - pos as int);
        }
        if end == n {
            // final line, no terminator: kept as is
            let line = content.substring_char(pos, n);
            lines.push(line);
            proof {
                assert(rest =~= content@.subrange(pos as int, n as int));
                assert(rest =~= line@);
                assert(split_lines(rest) =~= seq![line@]);
                assert(lines@.map_values(|l: &str| l@) =~= lines@.map_values(
                    |l: &str| l@,
                ).drop_last().push(line@));
                assert(content@.skip(n as int) =~= Seq::<char>::empty());
                assert(lines@.map_values(|l: &str| l@) + split_lines(content@.skip(n as int))
                    =~= split_lines(content@));
            }
            pos = n;
        } else {
            let line_end = if end > pos && content.get_char(end - 1) == '\r' {
                end - 1
            } else {
                end
            };
            let line = content.substring_char(pos, line_end);
            lines.push(line);
            proof {
                let i = first_nl(rest);
                assert(i == end - pos);
                assert(rest.take(i) =~= content@.subrange(pos as int, end as int));
                assert(strip_cr(rest.take(i)) =~= line@) by {
                    let seg = content@.subrange(pos as int, end as int);
                    if end > pos && content@[end - 1] == '\r' {
                        assert(seg[seg.len() - 1] == '\r');
                        assert(seg.take(seg.len() - 1) =~= content@.subrange(
                            pos as int,
                            end - 1,
                        ));
                    } else {
                        if seg.len() > 0 {
                            assert(seg[seg.len() - 1] == content@[end - 1]);
                        }
                    }
                }
                assert(rest.skip(i + 1) =~= content@.skip(end + 1));
                assert(split_lines(rest) =~= seq![line@] + split_lines(content@.skip(end + 1)));
                assert(lines@.map_values(|l: &str| l@) =~= lines@.map_values(
                    |l: &str| l@,
                ).drop_last().push(line@));
            }
            pos = end + 1;
        }
    }
    proof {
        assert(content@.skip(pos as int) =~= Seq::<char>::empty());
        assert(lines@.map_values(|l: &str| l@) =~= split_lines(content@));
    }
    lines
}

/// Whether a trimmed line matches the ad-URL heuristic.
fn ad_url_exec(t: &str) -> (r: bool)
    ensures
        r == ad_url(t@),
{
    contains_ci_str(t, "/ad/") || contains_ci_str(t, "_ad_") || contains_ci_str(t, "-ad-")
        || contains_ci_str(t, "promo") || contains_ci_str(t, "doubleclick")
}

/// Whether a trimmed `DATERANGE` line is ad-classified.
fn ad_daterange_exec(t: &str) -> (r: bool)
    ensures
        r == ad_daterange(t@),
{
    contains_ci_str(t, "CLASS=\"AD\"") || contains_ci_str(t, "INTERSTITIAL") || contains_ci_str(
        t,
        "X-AD-",
    ) || contains_ci_str(t, "SCTE35")
}

/// Removes advertising content from an HLS playlist: everything inside a
/// `CUE-OUT`/`CUE-IN` span, ad-classified `DATERANGE` tag lines, `PART`
/// tags matching the ad-URL heuristic, and each segment (its `EXTINF` tag,
/// buffered attribute tags and URI) whose URI matches the heuristic.
/// Every other line passes through unchanged; the output has no trailing
/// newline.
pub fn filter_ads_from_m3_u8(content: &str) -> (r: String)
    ensures
        r@ == join_lines(filter_lines(split_lines(content@))),
{
    let lines = split_into_lines(content);
    let ghost lv = lines@.map_values(|l: &str| l@);
    let n = lines.len();

    let mut skip: bool = false;
    let mut collecting: bool = false;
    let mut buf: Vec<&str> = Vec::new();
    let ghost mut buf_idx: Seq<int> = Seq::empty();
    let mut out: Vec<&str> = Vec::new();
    let ghost mut out_idx: Seq<int> = Seq::empty();

    let mut i: usize = 0;
    while i < n
        invariant
            n == lines@.len(),
            lv == lines@.map_values(|l: &str| l@),
            0 <= i <= n,
            skip == state_at(lv, i as int).skip,
            collecting == state_at(lv, i as int).collecting,
            buf_idx == state_at(lv, i as int).buf,
            out_idx == out_upto(lv, i as int),
            buf@.len() == buf_idx.len(),
            forall|m: int|
                0 <= m < buf_idx.len() ==> 0 <= #[trigger] buf_idx[m] < lv.len() && buf@[m]@ == lv[buf_idx[m]],
            out@.len() == out_idx.len(),
            forall|m: int|
                0 <= m < out_idx.len() ==> 0 <= #[trigger] out_idx[m] < lv.len() && out@[m]@ == lv[out_idx[m]],
        decreases n - i,
    {
        let line = lines[i];
        proof {
            assert(lv[i as int] == line@);
        }
        let t = trim_str(line);
        let ghost st = state_at(lv, i as int);
        proof {
            assert(state_at(lv, i as int + 1) == line_next(lv, st, i as int));
            assert(out_upto(lv, i as int + 1) == out_upto(lv, i as int) + line_emits(
                lv,
                st,
                i as int,
            ));
        }
        if starts_with_str(t, "#EXT-X-CUE-OUT") || starts_with_str(t, "#EXT-OATCLS-SCTE35") {
            skip = true;
            collecting = false;
            buf.clear();
            proof {
                buf_idx = Seq::empty();
                out_idx = out_upto(lv, i as int + 1);
            }
        } else if starts_with_str(t, "#EXT-X-CUE-IN") {
            skip = false;
            proof {
                out_idx = out_upto(lv, i as int + 1);
            }
        } else if skip {
            collecting = false;
            buf.clear();
            proof {
                buf_idx = Seq::empty();
                out_idx = out_upto(lv, i as int + 1);
            }
        } else if starts_with_str(t, "#EXT-X-DATERANGE") && ad_daterange_exec(t) {
            proof {
                out_idx = out_upto(lv, i as int + 1);
            }
        } else if starts_with_str(t, "#EXT-X-PART") {
            if !ad_url_exec(t) {
                out.push(line);
                proof {
                    out_idx = out_idx.push(i as int);
                    assert(out_idx =~= out_upto(lv, i as int + 1));
                }
            } else {
                proof {
                    out_idx = out_upto(lv, i as int + 1);
                }
            }
        } else if starts_with_str(t, "#EXTINF") {
            buf.clear();
            buf.push(line);
            collecting = true;
            proof {
                buf_idx = seq![i as int];
                out_idx = out_upto(lv, i as int + 1);
            }
        } else if collecting {
            let is_tag_line = t.unicode_len() > 0 && t.get_char(0) == '#';
            proof {
                assert(is_tag_line == is_tag(t@));
            }
            if is_tag_line {
                buf.push(line);
                proof {
                    buf_idx = buf_idx.push(i as int);
                    out_idx = out_upto(lv, i as int + 1);
                }
            } else {
                if !ad_url_exec(t) {
                    let mut m: usize = 0;
                    let blen = buf.len();
                    while m < blen
                        invariant
                            blen == buf@.len(),
                            blen == st.buf.len(),
                            0 <= m <= blen,
                            forall|k: int|
                                0 <= k < buf_idx.len() ==> 0 <= #[trigger] buf_idx[k] < lv.len()
                                    && buf@[k]@ == lv[buf_idx[k]],
                            buf_idx == st.buf,
                            out@.len() == out_idx.len(),
                            forall|k: int|
                                0 <= k < out_idx.len() ==> 0 <= #[trigger] out_idx[k] < lv.len()
                                    && out@[k]@ == lv[out_idx[k]],
                            out_idx == out_upto(lv, i as int) + st.buf.take(m as int),
                        decreases blen - m,
                    {
                        let b = buf[m];
                        out.push(b);
                        proof {
                            out_idx = out_idx.push(st.buf[m as int]);
                            assert(out_idx =~= out_upto(lv, i as int) + st.buf.take(
                                m as int + 1,
                            ));
                        }
                        m += 1;
                    }
                    out.push(line);
                    proof {
                        assert(st.buf.take(blen as int) =~= st.buf);
                        out_idx = out_idx.push(i as int);
                        assert(out_idx =~= out_upto(lv, i as int) + st.buf.push(i as int));
                        assert(line_emits(lv, st, i as int) == st.buf.push(i as int));
                        assert(out_idx =~= out_upto(lv, i as int + 1));
                    }
                } else {
                    proof {
                        out_idx = out_upto(lv, i as int + 1);
                    }
                }
                collecting = false;
                buf.clear();
                proof {
                    buf_idx = Seq::empty();
                }
            }
        } else {
            out.push(line);
            proof {
                out_idx = out_idx.push(i as int);
                assert(out_idx =~= out_upto(lv, i as int + 1));
            }
        }
        i += 1;
    }

    // join the kept lines with '\n' and no trailing newline
    let ghost out_lines = filter_lines(lv);
    proof {
        assert(out_idx == filter_indices(lv));
        assert(out@.map_values(|l: &str| l@) =~= out_lines);
    }
    let mut r = String::new();
    let mut k: usize = 0;
    let on = out.len();
    while k < on
        invariant
            on == out@.len(),
            on == out_lines.len(),
            0 <= k <= on,
            forall|m: int| 0 <= m < on ==> out@[m]@ == out_lines[m],
            r@ == join_lines(out_lines.take(k as int)),
        decreases on - k,
    {
        if k > 0 {
            push_char(&mut r, '\n');
        }
        r.append(out[k]);
        proof {
            lemma_join_push(out_lines.take(k as int), out_lines[k as int]);
            assert(out_lines.take(k as int).push(out_lines[k as int]) =~= out_lines.take(
                k as int + 1,
            ));
            if k == 0 {
                assert(r@ =~= join_lines(out_lines.take(k as int + 1)));
            } else {
                assert(r@ =~= join_lines(out_lines.take(k as int + 1)));
            }
        }
        k += 1;
    }
    proof {
        assert(out_lines.take(on as int) =~= out_lines);
    }
    r
}

proof fn lemma_state_inv(lines: Seq<Seq<char>>, k: int)
    requires
        0 <= k,
    ensures
        state_at(lines, k).skip ==> !state_at(lines, k).collecting,
        !state_at(lines, k).collecting ==> state_at(lines, k).buf == Seq::<int>::empty(),
        forall|m: int|
            0 <= m < state_at(lines, k).buf.len() ==> 0 <= #[trigger] state_at(lines, k).buf[m]
                < k,
        forall|m: int|
            0 <= m < out_upto(lines, k).len() ==> 0 <= #[trigger] out_upto(lines, k)[m] < k,
        forall|j: int|
            #[trigger] state_at(lines, k).buf.contains(j) ==> !out_upto(lines, k).contains(j),
    decreases k,
{
    if k > 0 {
        lemma_state_inv(lines, k - 1);
        let st = state_at(lines, k - 1);
        let em = line_emits(lines, st, k - 1);
        let nx = line_next(lines, st, k - 1);
        let out0 = out_upto(lines, k - 1);
        assert(state_at(lines, k) == nx);
        assert(out_upto(lines, k) == out0 + em);
        assert(!st.collecting ==> st.buf == Seq::<int>::empty());
        // every emitted index comes from the buffer or is the current line
        assert forall|m: int| 0 <= m < em.len() implies 0 <= #[trigger] em[m] < k by {
            if em == st.buf.push(k - 1) {
                if m < st.buf.len() {
                    assert(em[m] == st.buf[m]);
                }
            }
        }
        assert forall|m: int| 0 <= m < nx.buf.len() implies 0 <= #[trigger] nx.buf[m] < k by {
            if nx.buf == st.buf.push(k - 1) && m < st.buf.len() {
                assert(nx.buf[m] == st.buf[m]);
            }
        }
        assert forall|m: int|
            0 <= m < out_upto(lines, k).len() implies 0 <= #[trigger] out_upto(lines, k)[m]
            < k by {
            if m < out0.len() {
                assert(out_upto(lines, k)[m] == out0[m]);
            } else {
                assert(out_upto(lines, k)[m] == em[m - out0.len()]);
            }
        }
        // a buffered index is never among the emitted ones
        assert forall|j: int| #[trigger] nx.buf.contains(j) implies !out_upto(lines, k).contains(
            j,
        ) by {
            let m = choose|m: int| 0 <= m < nx.buf.len() && nx.buf[m] == j;
            if nx.buf == st.buf.push(k - 1) {
                if m < st.buf.len() {
                    assert(st.buf.contains(j));
                } else {
                    assert(j == k - 1);
                }
            } else if nx.buf == st.buf {
                assert(st.buf.contains(j));
            } else if nx.buf == seq![k - 1] {
                assert(j == k - 1);
            }
            // j is either an old buffered index (not in out0, and the step
            // emitted nothing from the buffer on branches that keep it), or
            // the current line (emitted never together with buffering it)
            if out_upto(lines, k).contains(j) {
                let mm = choose|mm: int|
                    0 <= mm < out_upto(lines, k).len() && out_upto(lines, k)[mm] == j;
                if mm < out0.len() {
                    assert(out0.contains(j));
                    assert(0 <= out0[mm] < k - 1);
                } else {
                    assert(em[mm - out0.len()] == j);
                    assert(em.contains(j));
                    if em == st.buf.push(k - 1) {
                        assert(nx.buf == Seq::<int>::empty());
                    } else if em == seq![k - 1] {
                        assert(j == k - 1);
                        assert(nx.buf == st.buf || nx.buf == Seq::<int>::empty());
                        assert(!st.buf.contains(k - 1));
                    }
                }
            }
        }
    }
}

proof fn lemma_dead_index(lines: Seq<Seq<char>>, j: int, k: int, k2: int)
    requires
        0 <= j,
        j < k <= k2,
        !out_upto(lines, k).contains(j),
        !state_at(lines, k).buf.contains(j),
    ensures
        !out_upto(lines, k2).contains(j),
        !state_at(lines, k2).buf.contains(j),
    decreases k2 - k,
{
    if k2 > k {
        lemma_dead_index(lines, j, k, k2 - 1);
        lemma_state_inv(lines, k2 - 1);
        let st = state_at(lines, k2 - 1);
        let em = line_emits(lines, st, k2 - 1);
        let nx = line_next(lines, st, k2 - 1);
        let out0 = out_upto(lines, k2 - 1);
        assert(!em.contains(j)) by {
            if em.contains(j) {
                let m = choose|m: int| 0 <= m < em.len() && em[m] == j;
                if em == st.buf.push(k2 - 1) {
                    if m < st.buf.len() {
                        assert(st.buf.contains(j));
                    } else {
                        assert(j == k2 - 1);
                    }
                } else if em == seq![k2 - 1] {
                    assert(j == k2 - 1);
                }
            }
        }
        assert(!out_upto(lines, k2).contains(j)) by {
            if out_upto(lines, k2).contains(j) {
                let m = choose|m: int|
                    0 <= m < out_upto(lines, k2).len() && out_upto(lines, k2)[m] == j;
                if m < out0.len() {
                    assert(out0.contains(j));
                } else {
                    assert(em[m - out0.len()] == j);
                    assert(em.contains(j));
                }
            }
        }
        assert(!nx.buf.contains(j)) by {
            if nx.buf.contains(j) {
                let m = choose|m: int| 0 <= m < nx.buf.len() && nx.buf[m] == j;
                if nx.buf == st.buf.push(k2 - 1) {
                    if m < st.buf.len() {
                        assert(st.buf.contains(j));
                    } else {
                        assert(j == k2 - 1);
                    }
                } else if nx.buf == st.buf {
                    assert(st.buf.contains(j));
                } else if nx.buf == seq![k2 - 1] {
                    assert(j == k2 - 1);
                }
            }
        }
    }
}

/// Law: a line inside a `CUE-OUT`…`CUE-IN` ad span never appears in the
/// filtered output — neither the cue tags themselves nor any line seen
/// while the span is open.
pub proof fn lemma_cue_span_dropped(lines: Seq<Seq<char>>, j: int)
    requires
        0 <= j < lines.len(),
        state_at(lines, j).skip || is_cue_open(trim_spec(lines[j])) || is_cue_close(
            trim_spec(lines[j]),
        ),
    ensures
        !filter_indices(lines).contains(j),
{
    lemma_state_inv(lines, j);
    let st = state_at(lines, j);
    let em = line_emits(lines, st, j);
    let nx = line_next(lines, st, j);
    // on every branch a cue tag or a skipped line emits nothing and is not buffered
    assert(em == Seq::<int>::empty());
    assert(!nx.buf.contains(j)) by {
        if nx.buf.contains(j) {
            let m = choose|m: int| 0 <= m < nx.buf.len() && nx.buf[m] == j;
            assert(nx.buf == st.buf);
            assert(0 <= st.buf[m] < j);
        }
    }
    let o1 = out_upto(lines, j + 1);
    assert(!o1.contains(j)) by {
        if o1.contains(j) {
            let m = choose|m: int| 0 <= m < o1.len() && o1[m] == j;
            assert(o1[m] == out_upto(lines, j)[m]);
            assert(0 <= out_upto(lines, j)[m] < j);
        }
    }
    lemma_dead_index(lines, j, j + 1, lines.len() as int);
}

/// Law: a segment whose URI line matches the ad-URL heuristic is wholly
/// absent from the output: the URI line itself and every line buffered
/// for that segment (its `EXTINF` tag and attribute tags).
pub proof fn lemma_ad_segment_dropped(lines: Seq<Seq<char>>, j: int)
    requires
        0 <= j < lines.len(),
        !state_at(lines, j).skip,
        state_at(lines, j).collecting,
        !is_tag(trim_spec(lines[j])),
        ad_url(trim_spec(lines[j])),
    ensures
        !filter_indices(lines).contains(j),
        forall|m: int|
            #[trigger] state_at(lines, j).buf.contains(m) ==> !filter_indices(lines).contains(m),
{
    lemma_state_inv(lines, j);
    let st = state_at(lines, j);
    let t = trim_spec(lines[j]);
    lemma_prefix_tags(t);
    let em = line_emits(lines, st, j);
    let nx = line_next(lines, st, j);
    assert(em == Seq::<int>::empty());
    assert(nx.buf == Seq::<int>::empty());
    let o1 = out_upto(lines, j + 1);
    assert(!o1.contains(j)) by {
        if o1.contains(j) {
            let mm = choose|mm: int| 0 <= mm < o1.len() && o1[mm] == j;
            assert(o1[mm] == out_upto(lines, j)[mm]);
            assert(0 <= out_upto(lines, j)[mm] < j);
        }
    }
    lemma_dead_index(lines, j, j + 1, lines.len() as int);
    assert forall|m: int| #[trigger] st.buf.contains(m) implies !filter_indices(lines).contains(
        m,
    ) by {
        let bi = choose|bi: int| 0 <= bi < st.buf.len() && st.buf[bi] == m;
        assert(0 <= m < j);
        assert(!o1.contains(m)) by {
            if o1.contains(m) {
                let mm = choose|mm: int| 0 <= mm < o1.len() && o1[mm] == m;
                assert(o1[mm] == out_upto(lines, j)[mm]);
                assert(out_upto(lines, j).contains(m));
            }
        }
        lemma_dead_index(lines, m, j + 1, lines.len() as int);
    }
}

/// Law: an ad-classified `DATERANGE` tag line is never emitted, whatever
/// the surrounding state; sibling lines are untouched by this rule.
pub proof fn lemma_ad_daterange_dropped(lines: Seq<Seq<char>>, j: int)
    requires
        0 <= j < lines.len(),
        is_daterange(trim_spec(lines[j])),
        ad_daterange(trim_spec(lines[j])),
    ensures
        !filter_indices(lines).contains(j),
{
    lemma_state_inv(lines, j);
    let st = state_at(lines, j);
    let em = line_emits(lines, st, j);
    let nx = line_next(lines, st, j);
    // the line hits the cue, skip, or ad-daterange branch; each emits
    // nothing and leaves the line unbuffered
    assert(em == Seq::<int>::empty());
    assert(!nx.buf.contains(j)) by {
        if nx.buf.contains(j) {
            let m = choose|m: int| 0 <= m < nx.buf.len() && nx.buf[m] == j;
            if nx.buf == st.buf {
                assert(0 <= st.buf[m] < j);
            }
        }
    }
    let o1 = out_upto(lines, j + 1);
    assert(!o1.contains(j)) by {
        if o1.contains(j) {
            let m = choose|m: int| 0 <= m < o1.len() && o1[m] == j;
            assert(o1[m] == out_upto(lines, j)[m]);
            assert(0 <= out_upto(lines, j)[m] < j);
        }
    }
    lemma_dead_index(lines, j, j + 1, lines.len() as int);
}

/// Every special tag classification implies the line is a tag line.
proof fn lemma_prefix_tags(t: Seq<char>)
    ensures
        is_cue_open(t) ==> is_tag(t),
        is_cue_close(t) ==> is_tag(t),
        is_daterange(t) ==> is_tag(t),
        is_part(t) ==> is_tag(t),
        is_extinf(t) ==> is_tag(t),
{
    reveal_strlit("#EXT-X-CUE-OUT");
    reveal_strlit("#EXT-OATCLS-SCTE35");
    reveal_strlit("#EXT-X-CUE-IN");
    reveal_strlit("#EXT-X-DATERANGE");
    reveal_strlit("#EXT-X-PART");
    reveal_strlit("#EXTINF");
    if is_cue_open(t) {
        if has_prefix(t, "#EXT-X-CUE-OUT"@) {
            assert(t.subrange(0, "#EXT-X-CUE-OUT"@.len() as int)[0] == t[0]);
        } else {
            assert(t.subrange(0, "#EXT-OATCLS-SCTE35"@.len() as int)[0] == t[0]);
        }
    }
    if is_cue_close(t) {
        assert(t.subrange(0, "#EXT-X-CUE-IN"@.len() as int)[0] == t[0]);
    }
    if is_daterange(t) {
        assert(t.subrange(0, "#EXT-X-DATERANGE"@.len() as int)[0] == t[0]);
    }
    if is_part(t) {
        assert(t.subrange(0, "#EXT-X-PART"@.len() as int)[0] == t[0]);
    }
    if is_extinf(t) {
        assert(t.subrange(0, "#EXTINF"@.len() as int)[0] == t[0]);
    }
}


/// The value-level filter machine: what the filter emits from the
/// remaining lines, given the current state and the buffered lines.
pub open spec fn vrun(
    lines: Seq<Seq<char>>,
    skip: bool,
    collecting: bool,
    buf: Seq<Seq<char>>,
) -> Seq<Seq<char>>
    decreases lines.len(),
{
    if lines.len() == 0 {
        Seq::empty()
    } else {
        let l = lines[0];
        let rest = lines.drop_first();
        let t = trim_spec(l);
        if is_cue_open(t) {
            vrun(rest, true, false, Seq::empty())
        } else if is_cue_close(t) {
            vrun(rest, false, collecting, buf)
        } else if skip {
            vrun(rest, true, false, Seq::empty())
        } else if is_daterange(t) && ad_daterange(t) {
            vrun(rest, skip, collecting, buf)
        } else if is_part(t) {
            if ad_url(t) {
                vrun(rest, skip, collecting, buf)
            } else {
                seq![l] + vrun(rest, skip, collecting, buf)
            }
        } else if is_extinf(t) {
            vrun(rest, false, true, seq![l])
        } else if collecting {
            if is_tag(t) {
                vrun(rest, false, true, buf.push(l))
            } else if ad_url(t) {
                vrun(rest, false, false, Seq::empty())
            } else {
                buf.push(l) + vrun(rest, false, false, Seq::empty())
            }
        } else {
            seq![l] + vrun(rest, skip, collecting, buf)
        }
    }
}

/// The filtered lines, by the value-level machine.
pub open spec fn vfilter(lines: Seq<Seq<char>>) -> Seq<Seq<char>> {
    vrun(lines, false, false, Seq::empty())
}

proof fn lemma_map_push(buf: Seq<int>, lines: Seq<Seq<char>>, j: int)
    ensures
        buf.push(j).map_values(|k: int| lines[k]) =~= buf.map_values(|k: int| lines[k]).push(
            lines[j],
        ),
{
}

/// One step of equivalence: the cumulative index output plus the value
/// machine on the rest is invariant as the machine advances.
proof fn lemma_bridge_step(lines: Seq<Seq<char>>, i: int)
    requires
        0 <= i < lines.len(),
    ensures
        out_upto(lines, i).map_values(|j: int| lines[j]) + vrun(
            lines.skip(i),
            state_at(lines, i).skip,
            state_at(lines, i).collecting,
            state_at(lines, i).buf.map_values(|j: int| lines[j]),
        ) =~= out_upto(lines, i + 1).map_values(|j: int| lines[j]) + vrun(
            lines.skip(i + 1),
            state_at(lines, i + 1).skip,
            state_at(lines, i + 1).collecting,
            state_at(lines, i + 1).buf.map_values(|j: int| lines[j]),
        ),
{
    let st = state_at(lines, i);
    let em = line_emits(lines, st, i);
    let nx = line_next(lines, st, i);
    let t = trim_spec(lines[i]);
    let mapl = |j: int| lines[j];
    assert(lines.skip(i)[0] == lines[i]);
    assert(lines.skip(i).drop_first() =~= lines.skip(i + 1));
    assert(state_at(lines, i + 1) == nx);
    assert(out_upto(lines, i + 1) =~= out_upto(lines, i) + em);
    assert((out_upto(lines, i) + em).map_values(mapl) =~= out_upto(lines, i).map_values(mapl)
        + em.map_values(mapl));
    let vb = st.buf.map_values(mapl);
    let lhs_tail = vrun(lines.skip(i), st.skip, st.collecting, vb);
    if is_cue_open(t) {
        assert(em.map_values(mapl) =~= Seq::<Seq<char>>::empty());
        assert(nx.buf.map_values(mapl) =~= Seq::<Seq<char>>::empty());
        assert(lhs_tail == vrun(lines.skip(i + 1), true, false, Seq::empty()));
    } else if is_cue_close(t) {
        assert(em.map_values(mapl) =~= Seq::<Seq<char>>::empty());
        assert(lhs_tail == vrun(lines.skip(i + 1), false, st.collecting, vb));
    } else if st.skip {
        assert(em.map_values(mapl) =~= Seq::<Seq<char>>::empty());
        assert(nx.buf.map_values(mapl) =~= Seq::<Seq<char>>::empty());
        assert(lhs_tail == vrun(lines.skip(i + 1), true, false, Seq::empty()));
    } else if is_daterange(t) && ad_daterange(t) {
        assert(em.map_values(mapl) =~= Seq::<Seq<char>>::empty());
        assert(lhs_tail == vrun(lines.skip(i + 1), st.skip, st.collecting, vb));
    } else if is_part(t) {
        if ad_url(t) {
            assert(em.map_values(mapl) =~= Seq::<Seq<char>>::empty());
            assert(lhs_tail == vrun(lines.skip(i + 1), st.skip, st.collecting, vb));
        } else {
            assert(em =~= seq![i]);
            assert(em.map_values(mapl) =~= seq![lines[i]]);
            assert(lhs_tail == seq![lines[i]] + vrun(lines.skip(i + 1), st.skip, st.collecting, vb));
        }
    } else if is_extinf(t) {
        assert(em.map_values(mapl) =~= Seq::<Seq<char>>::empty());
        assert(nx.buf =~= seq![i]);
        assert(nx.buf.map_values(mapl) =~= seq![lines[i]]);
        assert(lhs_tail == vrun(lines.skip(i + 1), false, true, seq![lines[i]]));
    } else if st.collecting {
        if is_tag(t) {
            assert(em.map_values(mapl) =~= Seq::<Seq<char>>::empty());
            lemma_map_push(st.buf, lines, i);
            assert(nx.buf =~= st.buf.push(i));
            assert(nx.buf.map_values(mapl) =~= vb.push(lines[i]));
            assert(lhs_tail == vrun(lines.skip(i + 1), false, true, vb.push(lines[i])));
        } else if ad_url(t) {
            assert(em.map_values(mapl) =~= Seq::<Seq<char>>::empty());
            assert(nx.buf.map_values(mapl) =~= Seq::<Seq<char>>::empty());
            assert(lhs_tail == vrun(lines.skip(i + 1), false, false, Seq::empty()));
        } else {
            lemma_map_push(st.buf, lines, i);
            assert(em =~= st.buf.push(i));
            assert(em.map_values(mapl) =~= vb.push(lines[i]));
            assert(nx.buf.map_values(mapl) =~= Seq::<Seq<char>>::empty());
            assert(lhs_tail == vb.push(lines[i]) + vrun(lines.skip(i + 1), false, false, Seq::empty()));
        }
    } else {
        assert(em =~= seq![i]);
        assert(em.map_values(mapl) =~= seq![lines[i]]);
        assert(lhs_tail == seq![lines[i]] + vrun(lines.skip(i + 1), st.skip, st.collecting, vb));
    }
    assert(out_upto(lines, i).map_values(mapl) + em.map_values(mapl) + vrun(
        lines.skip(i + 1),
        nx.skip,
        nx.collecting,
        nx.buf.map_values(mapl),
    ) =~= out_upto(lines, i + 1).map_values(mapl) + vrun(
        lines.skip(i + 1),
        nx.skip,
        nx.collecting,
        nx.buf.map_values(mapl),
    ));
    assert(out_upto(lines, i).map_values(mapl) + lhs_tail =~= out_upto(lines, i).map_values(mapl)
        + em.map_values(mapl) + vrun(
        lines.skip(i + 1),
        nx.skip,
        nx.collecting,
        nx.buf.map_values(mapl),
    ));
}

/// The index-machine output equals the value-machine output.
proof fn lemma_bridge(lines: Seq<Seq<char>>, i: int)
    requires
        0 <= i <= lines.len(),
    ensures
        filter_lines(lines) =~= out_upto(lines, i).map_values(|j: int| lines[j]) + vrun(
            lines.skip(i),
            state_at(lines, i).skip,
            state_at(lines, i).collecting,
            state_at(lines, i).buf.map_values(|j: int| lines[j]),
        ),
    decreases lines.len() - i,
{
    if i == lines.len() {
        assert(lines.skip(i).len() == 0);
        assert(vrun(lines.skip(i), state_at(lines, i).skip, state_at(lines, i).collecting,
            state_at(lines, i).buf.map_values(|j: int| lines[j])) =~= Seq::<Seq<char>>::empty());
        assert(filter_lines(lines) =~= out_upto(lines, i).map_values(|j: int| lines[j]));
    } else {
        lemma_bridge(lines, i + 1);
        lemma_bridge_step(lines, i);
    }
}

/// Law (part): the filter computes the value-level machine's output.
pub proof fn lemma_filter_is_vfilter(lines: Seq<Seq<char>>)
    ensures
        filter_lines(lines) == vfilter(lines),
{
    lemma_bridge(lines, 0);
    assert(lines.skip(0) =~= lines);
    assert(out_upto(lines, 0).map_values(|j: int| lines[j]) =~= Seq::<Seq<char>>::empty());
    assert(state_at(lines, 0).buf.map_values(|j: int| lines[j]) =~= Seq::<Seq<char>>::empty());
    assert(filter_lines(lines) =~= vfilter(lines));
}

/// A tag the filter buffers inside a segment: any tag that is not one of
/// the specially handled kinds.
pub open spec fn is_kept_tag(t: Seq<char>) -> bool {
    is_tag(t) && !is_cue_open(t) && !is_cue_close(t) && !(is_daterange(t) && ad_daterange(t))
        && !is_part(t) && !is_extinf(t)
}

/// The position of the first non-tag line at or after `i`, or the length.
pub open spec fn first_nontag(ls: Seq<Seq<char>>, i: int) -> int
    decreases ls.len() - i when 0 <= i <= ls.len()
{
    if i >= ls.len() {
        ls.len() as int
    } else if !is_tag(trim_spec(ls[i])) {
        i
    } else {
        first_nontag(ls, i + 1)
    }
}

/// A line sequence in the filter's image: no cue tags, no ad `DATERANGE`
/// tags, no ad `PART` tags, and every `EXTINF` opens a block of kept tags
/// closed by a non-ad URI.
pub open spec fn canonical(ls: Seq<Seq<char>>) -> bool
    decreases ls.len() via canonical_decreases
{
    if ls.len() == 0 {
        true
    } else {
        let t = trim_spec(ls[0]);
        if is_cue_open(t) || is_cue_close(t) {
            false
        } else if is_daterange(t) && ad_daterange(t) {
            false
        } else if is_part(t) {
            !ad_url(t) && canonical(ls.drop_first())
        } else if is_extinf(t) {
            let k = first_nontag(ls, 1);
            &&& k < ls.len()
            &&& forall|j: int| 1 <= j < k ==> is_kept_tag(trim_spec(#[trigger] ls[j]))
            &&& !ad_url(trim_spec(ls[k]))
            &&& canonical(ls.skip(k + 1))
        } else {
            canonical(ls.drop_first())
        }
    }
}

#[via_fn]
proof fn canonical_decreases(ls: Seq<Seq<char>>) {
    if ls.len() > 0 {
        lemma_first_nontag(ls, 1);
    }
}

proof fn lemma_first_nontag(ls: Seq<Seq<char>>, i: int)
    requires
        0 <= i <= ls.len(),
    ensures
        i <= first_nontag(ls, i) <= ls.len(),
        forall|j: int| i <= j < first_nontag(ls, i) ==> is_tag(trim_spec(#[trigger] ls[j])),
        first_nontag(ls, i) < ls.len() ==> !is_tag(trim_spec(ls[first_nontag(ls, i)])),
    decreases ls.len() - i,
{
    if i < ls.len() && is_tag(trim_spec(ls[i])) {
        lemma_first_nontag(ls, i + 1);
    }
}

/// The buffered lines are an `EXTINF` tag followed by kept tags.
pub open spec fn wf_vbuf(buf: Seq<Seq<char>>, collecting: bool, skip: bool) -> bool {
    &&& (skip ==> !collecting)
    &&& (!collecting ==> buf.len() == 0)
    &&& (collecting ==> buf.len() >= 1 && is_extinf(trim_spec(buf[0])) && forall|m: int|
        1 <= m < buf.len() ==> is_kept_tag(trim_spec(#[trigger] buf[m])))
}

/// Law (part): everything the machine emits is canonical.
proof fn lemma_vrun_canonical(
    lines: Seq<Seq<char>>,
    skip: bool,
    collecting: bool,
    buf: Seq<Seq<char>>,
)
    requires
        wf_vbuf(buf, collecting, skip),
    ensures
        canonical(vrun(lines, skip, collecting, buf)),
    decreases lines.len(),
{
    if lines.len() == 0 {
    } else {
        let l = lines[0];
        let rest = lines.drop_first();
        let t = trim_spec(l);
        if is_cue_open(t) {
            lemma_vrun_canonical(rest, true, false, Seq::empty());
        } else if is_cue_close(t) {
            lemma_vrun_canonical(rest, false, collecting, buf);
        } else if skip {
            lemma_vrun_canonical(rest, true, false, Seq::empty());
        } else if is_daterange(t) && ad_daterange(t) {
            lemma_vrun_canonical(rest, skip, collecting, buf);
        } else if is_part(t) {
            lemma_vrun_canonical(rest, skip, collecting, buf);
            if !ad_url(t) {
                let out = seq![l] + vrun(rest, skip, collecting, buf);
                assert(out[0] == l);
                assert(out.drop_first() =~= vrun(rest, skip, collecting, buf));
                lemma_prefix_tags(t);
            }
        } else if is_extinf(t) {
            lemma_vrun_canonical(rest, false, true, seq![l]);
        } else if collecting {
            if is_tag(t) {
                assert(wf_vbuf(buf.push(l), true, false)) by {
                    assert(forall|m: int|
                        1 <= m < buf.len() ==> is_kept_tag(trim_spec(#[trigger] buf.push(l)[m])));
                    assert(buf.push(l)[buf.len() as int] == l);
                }
                lemma_vrun_canonical(rest, false, true, buf.push(l));
            } else if ad_url(t) {
                lemma_vrun_canonical(rest, false, false, Seq::empty());
            } else {
                lemma_vrun_canonical(rest, false, false, Seq::empty());
                lemma_block_canonical(buf, l, vrun(rest, false, false, Seq::empty()));
            }
        } else {
            lemma_vrun_canonical(rest, skip, collecting, buf);
            let out = seq![l] + vrun(rest, skip, collecting, buf);
            assert(out[0] == l);
            assert(out.drop_first() =~= vrun(rest, skip, collecting, buf));
        }
    }
}

/// An `EXTINF` block followed by canonical lines is canonical.
proof fn lemma_block_canonical(buf: Seq<Seq<char>>, uri: Seq<char>, rest: Seq<Seq<char>>)
    requires
        buf.len() >= 1,
        is_extinf(trim_spec(buf[0])),
        forall|m: int| 1 <= m < buf.len() ==> is_kept_tag(trim_spec(#[trigger] buf[m])),
        !is_tag(trim_spec(uri)),
        !ad_url(trim_spec(uri)),
        canonical(rest),
    ensures
        canonical(buf.push(uri) + rest),
{
    let out = buf.push(uri) + rest;
    let k = buf.len() as int;
    assert(out[0] == buf[0]);
    lemma_prefix_tags(trim_spec(out[0]));
    assert forall|j: int| 1 <= j < k implies is_tag(trim_spec(#[trigger] out[j])) by {
        assert(out[j] == buf[j]);
    }
    assert(out[k] == uri);
    lemma_first_nontag_count(out, 1, k);
    assert(first_nontag(out, 1) == k);
    assert(out.skip(k + 1) =~= rest);
    assert forall|j: int| 1 <= j < k implies is_kept_tag(trim_spec(#[trigger] out[j])) by {
        assert(out[j] == buf[j]);
    }
    let t = trim_spec(out[0]);
    assert(is_extinf(t));
    assert(!is_cue_open(t) && !is_cue_close(t)) by {
        lemma_extinf_disjoint(t);
    }
    assert(!(is_daterange(t) && ad_daterange(t)) && !is_part(t)) by {
        lemma_extinf_disjoint(t);
    }
}

proof fn lemma_first_nontag_count(ls: Seq<Seq<char>>, i: int, e: int)
    requires
        0 <= i <= e <= ls.len(),
        forall|j: int| i <= j < e ==> is_tag(trim_spec(#[trigger] ls[j])),
        e < ls.len() ==> !is_tag(trim_spec(ls[e])),
    ensures
        first_nontag(ls, i) == e,
    decreases ls.len() - i,
{
    if i < ls.len() && is_tag(trim_spec(ls[i])) {
        lemma_first_nontag_count(ls, i + 1, e);
    }
}

/// An `EXTINF` prefix excludes every other special tag kind.
proof fn lemma_extinf_disjoint(t: Seq<char>)
    requires
        is_extinf(t),
    ensures
        !is_cue_open(t),
        !is_cue_close(t),
        !is_daterange(t),
        !is_part(t),
{
    reveal_strlit("#EXTINF");
    reveal_strlit("#EXT-X-CUE-OUT");
    reveal_strlit("#EXT-OATCLS-SCTE35");
    reveal_strlit("#EXT-X-CUE-IN");
    reveal_strlit("#EXT-X-DATERANGE");
    reveal_strlit("#EXT-X-PART");
    assert(t.subrange(0, "#EXTINF"@.len() as int)[4] == t[4]);
    if has_prefix(t, "#EXT-X-CUE-OUT"@) {
        assert(t.subrange(0, "#EXT-X-CUE-OUT"@.len() as int)[4] == t[4]);
    }
    if has_prefix(t, "#EXT-OATCLS-SCTE35"@) {
        assert(t.subrange(0, "#EXT-OATCLS-SCTE35"@.len() as int)[4] == t[4]);
    }
    if has_prefix(t, "#EXT-X-CUE-IN"@) {
        assert(t.subrange(0, "#EXT-X-CUE-IN"@.len() as int)[4] == t[4]);
    }
    if has_prefix(t, "#EXT-X-DATERANGE"@) {
        assert(t.subrange(0, "#EXT-X-DATERANGE"@.len() as int)[4] == t[4]);
    }
    if has_prefix(t, "#EXT-X-PART"@) {
        assert(t.subrange(0, "#EXT-X-PART"@.len() as int)[4] == t[4]);
    }
}

/// Law (part): the machine leaves canonical lines unchanged.
proof fn lemma_vrun_fixpoint(ls: Seq<Seq<char>>)
    requires
        canonical(ls),
    ensures
        vrun(ls, false, false, Seq::empty()) == ls,
    decreases ls.len(),
{
    if ls.len() == 0 {
        assert(vrun(ls, false, false, Seq::empty()) =~= ls);
    } else {
        let l = ls[0];
        let rest = ls.drop_first();
        let t = trim_spec(l);
        if is_part(t) {
            lemma_vrun_fixpoint(rest);
            assert(vrun(ls, false, false, Seq::empty()) =~= seq![l] + rest);
            assert(seq![l] + rest =~= ls);
        } else if is_extinf(t) {
            let k = first_nontag(ls, 1);
            lemma_first_nontag(ls, 1);
            lemma_vrun_fixpoint(ls.skip(k + 1));
            lemma_vrun_block(ls, 1, k, seq![l]);
            assert(seq![l] =~= ls.subrange(0, 1));
            assert(vrun(ls.skip(1), false, true, ls.subrange(0, 1)) =~= ls.subrange(0, k + 1)
                + vrun(ls.skip(k + 1), false, false, Seq::empty()));
            assert(vrun(ls, false, false, Seq::empty()) =~= vrun(
                ls.skip(1),
                false,
                true,
                seq![l],
            )) by {
                assert(ls.drop_first() =~= ls.skip(1));
            }
            assert(ls.subrange(0, k + 1) + ls.skip(k + 1) =~= ls);
        } else {
            lemma_vrun_fixpoint(rest);
            assert(vrun(ls, false, false, Seq::empty()) =~= seq![l] + rest);
            assert(seq![l] + rest =~= ls);
        }
    }
}

/// Inside a canonical `EXTINF` block the machine buffers each tag and
/// flushes the block at its URI.
proof fn lemma_vrun_block(ls: Seq<Seq<char>>, j: int, k: int, buf: Seq<Seq<char>>)
    requires
        0 < j <= k,
        k == first_nontag(ls, 1),
        k < ls.len(),
        forall|m: int| 1 <= m < k ==> is_kept_tag(trim_spec(#[trigger] ls[m])),
        !ad_url(trim_spec(ls[k])),
        !is_tag(trim_spec(ls[k])),
        buf =~= ls.subrange(0, j),
    ensures
        vrun(ls.skip(j), false, true, buf) == ls.subrange(0, k + 1) + vrun(
            ls.skip(k + 1),
            false,
            false,
            Seq::empty(),
        ),
    decreases k - j,
{
    let l = ls.skip(j)[0];
    assert(l == ls[j]);
    assert(ls.skip(j).drop_first() =~= ls.skip(j + 1));
    let t = trim_spec(l);
    if j == k {
        // the URI line flushes the buffer
        assert(!is_tag(t));
        lemma_nontag_plain(t);
        assert(vrun(ls.skip(j), false, true, buf) =~= buf.push(l) + vrun(
            ls.skip(j + 1),
            false,
            false,
            Seq::empty(),
        ));
        assert(buf.push(l) =~= ls.subrange(0, k + 1));
    } else {
        // a kept tag is buffered
        assert(is_kept_tag(t));
        lemma_vrun_block(ls, j + 1, k, buf.push(l));
        assert(buf.push(l) =~= ls.subrange(0, j + 1));
        assert(vrun(ls.skip(j), false, true, buf) =~= vrun(ls.skip(j + 1), false, true, buf.push(l)));
    }
}

/// A non-tag line is none of the special tag kinds.
proof fn lemma_nontag_plain(t: Seq<char>)
    requires
        !is_tag(t),
    ensures
        !is_cue_open(t),
        !is_cue_close(t),
        !is_daterange(t),
        !is_part(t),
        !is_extinf(t),
{
    lemma_prefix_tags(t);
}

/// Law: the filter is idempotent on line sequences — filtering a playlist
/// already filtered yields the same lines, so segments outside any ad
/// marker are preserved byte for byte by a second pass.
pub proof fn lemma_filter_idempotent(lines: Seq<Seq<char>>)
    ensures
        filter_lines(filter_lines(lines)) == filter_lines(lines),
{
    lemma_filter_is_vfilter(lines);
    lemma_filter_is_vfilter(filter_lines(lines));
    lemma_vrun_canonical(lines, false, false, Seq::empty());
    lemma_vrun_fixpoint(vfilter(lines));
}


/// No line produced by the splitter contains a newline.
proof fn lemma_split_no_nl(s: Seq<char>)
    ensures
        forall|i: int|
            0 <= i < split_lines(s).len() ==> forall|c: int|
                0 <= c < (#[trigger] split_lines(s)[i]).len() ==> split_lines(s)[i][c] != '\n',
    decreases s.len(),
{
    if s.len() > 0 {
        lemma_first_nl(s);
        let k = first_nl(s);
        if k == s.len() {
            assert forall|i: int|
                0 <= i < split_lines(s).len() implies forall|c: int|
                0 <= c < (#[trigger] split_lines(s)[i]).len() ==> split_lines(s)[i][c]
                != '\n' by {
                assert(split_lines(s)[i] == s);
            }
        } else {
            lemma_split_no_nl(s.skip(k + 1));
            assert forall|i: int|
                0 <= i < split_lines(s).len() implies forall|c: int|
                0 <= c < (#[trigger] split_lines(s)[i]).len() ==> split_lines(s)[i][c]
                != '\n' by {
                if i == 0 {
                    assert(split_lines(s)[0] == strip_cr(s.take(k)));
                    assert(forall|c: int| 0 <= c < s.take(k).len() ==> s.take(k)[c] != '\n');
                } else {
                    assert(split_lines(s)[i] == split_lines(s.skip(k + 1))[i - 1]);
                }
            }
        }
    }
}

/// Joining lines and splitting again recovers them, provided no line
/// contains a newline, no line ends with a carriage return, and the last
/// line is not empty.
proof fn lemma_join_split(out: Seq<Seq<char>>)
    requires
        forall|i: int|
            0 <= i < out.len() ==> forall|c: int|
                0 <= c < (#[trigger] out[i]).len() ==> out[i][c] != '\n',
        forall|i: int|
            0 <= i < out.len() ==> ((#[trigger] out[i]).len() == 0 || out[i][out[i].len() - 1]
                != '\r'),
        out.len() > 0 ==> out.last().len() > 0,
    ensures
        split_lines(join_lines(out)) == out,
    decreases out.len(),
{
    if out.len() == 0 {
        assert(split_lines(join_lines(out)) =~= out);
    } else if out.len() == 1 {
        let s = join_lines(out);
        assert(s == out[0]);
        assert(s.len() > 0);
        lemma_first_nl_count(s, s.len() as int);
        assert(split_lines(s) =~= seq![s]);
        assert(split_lines(s) =~= out);
    } else {
        let rest = out.drop_first();
        assert(rest.last() == out.last());
        assert forall|i: int|
            0 <= i < rest.len() implies forall|c: int|
            0 <= c < (#[trigger] rest[i]).len() ==> rest[i][c] != '\n' by {
            assert(rest[i] == out[i + 1]);
        }
        assert forall|i: int|
            0 <= i < rest.len() implies ((#[trigger] rest[i]).len() == 0 || rest[i][rest[i].len()
            - 1] != '\r') by {
            assert(rest[i] == out[i + 1]);
        }
        lemma_join_split(rest);
        let s = join_lines(out);
        assert(s == out[0] + seq!['\n'] + join_lines(rest));
        let k = out[0].len() as int;
        assert forall|j: int| 0 <= j < k implies s[j] != '\n' by {
            assert(s[j] == out[0][j]);
        }
        assert(s[k] == '\n');
        lemma_first_nl_count(s, k);
        assert(first_nl(s) == k);
        assert(k < s.len());
        assert(s.take(k) =~= out[0]);
        assert(strip_cr(s.take(k)) == out[0]);
        assert(s.skip(k + 1) =~= join_lines(rest));
        assert(split_lines(s) =~= seq![out[0]] + split_lines(join_lines(rest)));
        assert(seq![out[0]] + rest =~= out);
    }
}

/// Every kept line is one of the input lines.
proof fn lemma_filter_values_from_input(lines: Seq<Seq<char>>)
    ensures
        forall|m: int|
            0 <= m < filter_lines(lines).len() ==> exists|j: int|
                0 <= j < lines.len() && #[trigger] filter_lines(lines)[m] == lines[j],
{
    lemma_state_inv(lines, lines.len() as int);
    assert forall|m: int|
        0 <= m < filter_lines(lines).len() implies exists|j: int|
        0 <= j < lines.len() && #[trigger] filter_lines(lines)[m] == lines[j] by {
        let idx = filter_indices(lines)[m];
        assert(0 <= idx < lines.len());
        assert(filter_lines(lines)[m] == lines[idx]);
    }
}

/// Law: the filter is idempotent on playlist text whose lines are
/// non-empty and do not end in a carriage return — filtering an already
/// filtered playlist returns it unchanged. A text with a line ending in
/// `'\r'` before its newline, or whose last kept line is empty, can
/// change on a second pass only because the line splitter re-normalizes
/// those endings.
pub proof fn lemma_filter_text_idempotent(content: Seq<char>)
    requires
        forall|i: int|
            0 <= i < split_lines(content).len() ==> (#[trigger] split_lines(content)[i]).len()
                > 0,
        forall|i: int|
            0 <= i < split_lines(content).len() ==> (#[trigger] split_lines(content)[i])[
                split_lines(content)[i].len() - 1
            ] != '\r',
    ensures
        ({
            let once = join_lines(filter_lines(split_lines(content)));
            join_lines(filter_lines(split_lines(once))) == once
        }),
{
    let lines = split_lines(content);
    let out = filter_lines(lines);
    let once = join_lines(out);
    lemma_split_no_nl(content);
    lemma_filter_values_from_input(lines);
    assert forall|m: int|
        0 <= m < out.len() implies forall|c: int|
        0 <= c < (#[trigger] out[m]).len() ==> out[m][c] != '\n' by {
        let j = choose|j: int| 0 <= j < lines.len() && out[m] == lines[j];
    }
    assert forall|m: int| 0 <= m < out.len() implies (#[trigger] out[m]).len() > 0 && out[m][
        out[m].len() - 1
    ] != '\r' by {
        let j = choose|j: int| 0 <= j < lines.len() && out[m] == lines[j];
    }
    lemma_join_split(out);
    assert(split_lines(once) == out);
    lemma_filter_idempotent(lines);
    assert(filter_lines(split_lines(once)) == out);
}

proof fn lemma_join_push(ls: Seq<Seq<char>>, x: Seq<char>)
    ensures
        join_lines(ls.push(x)) == if ls.len() == 0 {
            x
        } else {
            join_lines(ls) + seq!['\n'] + x
        },
    decreases ls.len(),
{
    if ls.len() == 0 {
        assert(ls.push(x)[0] =~= x);
        assert(join_lines(ls.push(x)) == x);
    } else {
        lemma_join_push(ls.drop_first(), x);
        assert(ls.push(x).drop_first() =~= ls.drop_first().push(x));
        assert(ls.push(x)[0] == ls[0]);
        if ls.len() == 1 {
            assert(join_lines(ls.push(x)) == ls[0] + seq!['\n'] + join_lines(
                ls.drop_first().push(x),
            ));
            assert(join_lines(ls.drop_first().push(x)) == x);
            assert(join_lines(ls) == ls[0]);
        } else {
            assert(join_lines(ls) == ls[0] + seq!['\n'] + join_lines(ls.drop_first()));
            assert(join_lines(ls.push(x)) == ls[0] + seq!['\n'] + (join_lines(ls.drop_first())
                + seq!['\n'] + x));
            assert(ls[0] + seq!['\n'] + (join_lines(ls.drop_first()) + seq!['\n'] + x) =~= (ls[0]
                + seq!['\n'] + join_lines(ls.drop_first())) + seq!['\n'] + x);
        }
    }
}

} // verus!
