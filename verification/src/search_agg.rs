//! Search-result aggregation: relevance filtering against the query,
//! grouping by title+year+kind, per-group statistics, filter application
//! and year ordering.

use core::cmp::Ordering;
use vstd::multiset::Multiset;
use vstd::prelude::*;

use crate::strutil::{
    contains_seq, contains_str, lower_of, lowercase, parse_i32_str, push_char, remove_spaces,
    spec_no_spaces, spec_parse_int, str_eq, trim_spec, trim_str,
};
use crate::types::SearchResult;

verus! {

/// Summary of one aggregated group.
pub struct AggregatedGroup {
    pub representative: SearchResult,
    pub episodes: usize,
    pub source_names: Vec<String>,
    pub douban_id: Option<i32>,
}

/// The search-page filter selections; `"all"` disables a criterion.
pub struct SearchFilter {
    pub source: String,
    pub title: String,
    pub year: String,
    pub year_order: YearOrder,
}

/// Requested ordering of results by year.
#[derive(Clone, PartialEq, Eq, Structural)]
pub enum YearOrder {
    Unordered,
    Asc,
    Desc,
}

/// `p` is a subsequence of `t`: all its characters occur in `t` in order.
pub open spec fn is_subseq_of(p: Seq<char>, t: Seq<char>) -> bool
    decreases t.len(),
{
    if p.len() == 0 {
        true
    } else if t.len() == 0 {
        false
    } else if p[0] == t[0] {
        is_subseq_of(p.skip(1), t.skip(1))
    } else {
        is_subseq_of(p.skip(0), t.skip(1))
    }
}

/// Whether every character of `pattern` occurs in `text` in order.
pub fn subsequence_match(text: &str, pattern: &str) -> (r: bool)
    ensures
        r == is_subseq_of(pattern@, text@),
{
    let tn = text.unicode_len();
    let pn = pattern.unicode_len();
    let mut ti: usize = 0;
    let mut pi: usize = 0;
    proof {
        assert(pattern@.skip(0) =~= pattern@);
        assert(text@.skip(0) =~= text@);
    }
    while ti < tn
        invariant
            tn == text@.len(),
            pn == pattern@.len(),
            0 <= ti <= tn,
            0 <= pi <= pn,
            is_subseq_of(pattern@, text@) == is_subseq_of(
                pattern@.skip(pi as int),
                text@.skip(ti as int),
            ),
        decreases tn - ti,
    {
        if pi == pn {
            proof {
                assert(pattern@.skip(pi as int).len() == 0);
            }
            return true;
        }
        proof {
            assert(pattern@.skip(pi as int)[0] == pattern@[pi as int]);
            assert(text@.skip(ti as int)[0] == text@[ti as int]);
            assert(pattern@.skip(pi as int).skip(1) =~= pattern@.skip(pi as int + 1));
            assert(text@.skip(ti as int).skip(1) =~= text@.skip(ti as int + 1));
            assert(pattern@.skip(pi as int).skip(0) =~= pattern@.skip(pi as int));
        }
        if text.get_char(ti) == pattern.get_char(pi) {
            pi += 1;
        }
        ti += 1;
    }
    proof {
        assert(text@.skip(ti as int).len() == 0);
        if pi == pn {
            assert(pattern@.skip(pi as int).len() == 0);
        }
    }
    pi == pn
}

/// Relevance of a title to the lowercased query forms: the query or the
/// normalized query occurs in the lowercased title (with or without
/// spaces), or all its characters occur in order.
pub open spec fn spec_relevant(
    title: Seq<char>,
    ql: Seq<char>,
    qns: Seq<char>,
    nql: Seq<char>,
    nqns: Seq<char>,
    norm_differs: bool,
) -> bool {
    let tl = lower_of(title);
    let tns = spec_no_spaces(tl);
    contains_seq(tl, ql) || contains_seq(tns, qns) || contains_seq(tl, nql) || contains_seq(
        tns,
        nqns,
    ) || is_subseq_of(qns, tns) || (norm_differs && is_subseq_of(nqns, tns))
}

fn relevant_item(
    title: &str,
    ql: &str,
    qns: &str,
    nql: &str,
    nqns: &str,
    norm_differs: bool,
) -> (r: bool)
    ensures
        r == spec_relevant(title@, ql@, qns@, nql@, nqns@, norm_differs),
{
    let tl = lowercase(title);
    let tns = remove_spaces(tl.as_str());
    contains_str(tl.as_str(), ql) || contains_str(tns.as_str(), qns) || contains_str(
        tl.as_str(),
        nql,
    ) || contains_str(tns.as_str(), nqns) || subsequence_match(tns.as_str(), qns) || (norm_differs
        && subsequence_match(tns.as_str(), nqns))
}

/// The grouping key of one result: its title without spaces, its year (or
/// `unknown`), and whether it is a single-episode movie or a series.
pub open spec fn group_key(it: SearchResult) -> Seq<char> {
    spec_no_spaces(it.title@) + "-"@ + (match it.year {
        Some(y) => y@,
        None => "unknown"@,
    }) + "-"@ + (if it.episodes@.len() == 1 {
        "movie"@
    } else {
        "tv"@
    })
}

/// The first group with the given key, or the group count.
pub open spec fn spec_key_index(gs: Seq<(Seq<char>, Seq<SearchResult>)>, key: Seq<char>) -> int
    decreases gs.len(),
{
    if gs.len() == 0 {
        0
    } else if gs[0].0 == key {
        0
    } else {
        1 + spec_key_index(gs.skip(1), key)
    }
}

/// One result added to the groups: appended to its key's group, or opening
/// a new group at the end.
pub open spec fn spec_insert(
    gs: Seq<(Seq<char>, Seq<SearchResult>)>,
    it: SearchResult,
) -> Seq<(Seq<char>, Seq<SearchResult>)> {
    let k = group_key(it);
    let i = spec_key_index(gs, k);
    if i < gs.len() {
        gs.update(i, (gs[i].0, gs[i].1.push(it)))
    } else {
        gs.push((k, seq![it]))
    }
}

/// The results grouped by key, group order by first occurrence.
pub open spec fn spec_group_acc(
    items: Seq<SearchResult>,
    acc: Seq<(Seq<char>, Seq<SearchResult>)>,
) -> Seq<(Seq<char>, Seq<SearchResult>)>
    decreases items.len(),
{
    if items.len() == 0 {
        acc
    } else {
        spec_group_acc(items.skip(1), spec_insert(acc, items[0]))
    }
}

/// The grouping of a result list.
pub open spec fn spec_group(items: Seq<SearchResult>) -> Seq<(Seq<char>, Seq<SearchResult>)> {
    spec_group_acc(items, Seq::empty())
}

/// The view of an aggregated group list.
pub open spec fn groups_view(gs: Seq<(String, Vec<SearchResult>)>) -> Seq<(Seq<
    char,
>, Seq<SearchResult>)> {
    gs.map_values(|g: (String, Vec<SearchResult>)| (g.0@, g.1@))
}

proof fn lemma_key_index(gs: Seq<(Seq<char>, Seq<SearchResult>)>, key: Seq<char>)
    ensures
        0 <= spec_key_index(gs, key) <= gs.len(),
        forall|j: int| 0 <= j < spec_key_index(gs, key) ==> (#[trigger] gs[j]).0 != key,
        spec_key_index(gs, key) < gs.len() ==> gs[spec_key_index(gs, key)].0 == key,
    decreases gs.len(),
{
    if gs.len() > 0 && gs[0].0 != key {
        lemma_key_index(gs.skip(1), key);
        assert forall|j: int| 0 <= j < spec_key_index(gs, key) implies (#[trigger] gs[j]).0
            != key by {
            if j > 0 {
                assert(gs.skip(1)[j - 1] == gs[j]);
            }
        }
        if spec_key_index(gs, key) < gs.len() {
            assert(gs.skip(1)[spec_key_index(gs.skip(1), key)] == gs[spec_key_index(gs, key)]);
        }
    }
}

/// The key of one result, in executable form.
fn build_group_key(it: &SearchResult) -> (r: String)
    ensures
        r@ == group_key(*it),
{
    let mut r = remove_spaces(it.title.as_str());
    push_char(&mut r, '-');
    match &it.year {
        Some(y) => r.append(y.as_str()),
        None => r.append("unknown"),
    }
    push_char(&mut r, '-');
    if it.episodes.len() == 1 {
        r.append("movie");
    } else {
        r.append("tv");
    }
    proof {
        reveal_strlit("-");
        assert("-"@ =~= seq!['-']);
        assert(r@ =~= group_key(*it));
    }
    r
}

/// The normalized query source: the caller's normalized form, or the
/// lowercased query itself.
pub open spec fn agg_norm_src(q_lower: Seq<char>, normalized: Option<Seq<char>>) -> Seq<char> {
    match normalized {
        Some(s) => s,
        None => q_lower,
    }
}

/// Relevance of one result to a raw query and optional normalized form.
pub open spec fn spec_agg_relevant(
    it: SearchResult,
    query: Seq<char>,
    normalized: Option<Seq<char>>,
) -> bool {
    let ql = lower_of(trim_spec(query));
    let nsrc = agg_norm_src(ql, normalized);
    let nql = lower_of(trim_spec(nsrc));
    spec_relevant(it.title@, ql, spec_no_spaces(ql), nql, spec_no_spaces(nql), nsrc != ql)
}

/// The view of the optional normalized query.
pub open spec fn norm_view(normalized_query: Option<&str>) -> Option<Seq<char>> {
    match normalized_query {
        Some(s) => Some(s@),
        None => None,
    }
}

/// Groups search results relevant to the query by title+year+kind, in
/// order of first occurrence: a result is relevant when the lowercased
/// query (or the caller's normalized form of it) occurs in its lowercased
/// title, with or without spaces, or character-by-character in order.
pub fn aggregate_search_results(
    results: Vec<SearchResult>,
    query: &str,
    normalized_query: Option<&str>,
) -> (r: Vec<(String, Vec<SearchResult>)>)
    ensures
        groups_view(r@) == spec_group(
            results@.filter(
                |it: SearchResult| spec_agg_relevant(it, query@, norm_view(normalized_query)),
            ),
        ),
{
    let ghost nv = norm_view(normalized_query);
    let qt = trim_str(query);
    let query_lower = lowercase(qt);
    let query_no_space = remove_spaces(query_lower.as_str());
    let mut norm_differs: bool = false;
    let norm_src: &str = match normalized_query {
        Some(s) => {
            norm_differs = !str_eq(s, query_lower.as_str());
            s
        },
        None => query_lower.as_str(),
    };
    let nt = trim_str(norm_src);
    let norm_lower = lowercase(nt);
    let norm_no_space = remove_spaces(norm_lower.as_str());

    let ghost ql = lower_of(trim_spec(query@));
    proof {
        assert(query_lower@ == ql);
        assert(norm_src@ == agg_norm_src(ql, nv));
        assert(norm_differs == (agg_norm_src(ql, nv) != ql));
    }

    let n = results.len();
    let ghost rv = results@;
    let mut results = results;
    let mut kept: Vec<SearchResult> = Vec::new();
    let mut i: usize = 0;
    proof {
        assert(results@ =~= rv.skip(0));
        assert(rv.take(0int).filter(
            |it: SearchResult| spec_agg_relevant(it, query@, nv),
        ) =~= Seq::<SearchResult>::empty());
    }
    while i < n
        invariant
            n == rv.len(),
            results@ =~= rv.skip(i as int),
            0 <= i <= n,
            kept@ == rv.take(i as int).filter(
                |it: SearchResult| spec_agg_relevant(it, query@, nv),
            ),
            nv == norm_view(normalized_query),
            ql == lower_of(trim_spec(query@)),
            query_lower@ == ql,
            query_no_space@ == spec_no_spaces(ql),
            norm_lower@ == lower_of(trim_spec(agg_norm_src(ql, nv))),
            norm_no_space@ == spec_no_spaces(norm_lower@),
            norm_differs == (agg_norm_src(ql, nv) != ql),
        decreases n - i,
    {
        proof {
            assert(rv.skip(i as int)[0] == rv[i as int]);
            assert(rv.skip(i as int).skip(1) =~= rv.skip(i as int + 1));
            assert(rv.take(i as int + 1).drop_last() =~= rv.take(i as int));
            reveal_with_fuel(Seq::filter, 2);
            assert(rv.take(i as int + 1).last() == rv[i as int]);
        }
        let it = results.remove(0);
        if relevant_item(
            it.title.as_str(),
            query_lower.as_str(),
            query_no_space.as_str(),
            norm_lower.as_str(),
            norm_no_space.as_str(),
            norm_differs,
        ) {
            kept.push(it);
        }
        i += 1;
    }
    proof {
        assert(rv.take(n as int) =~= rv);
    }

    // group the relevant results by key, keeping first-occurrence order
    let ghost kv = kept@;
    let kn = kept.len();
    let mut kept = kept;
    let mut groups: Vec<(String, Vec<SearchResult>)> = Vec::new();
    let mut j: usize = 0;
    proof {
        assert(kept@ =~= kv.skip(0));
        assert(groups_view(groups@) =~= Seq::<(Seq<char>, Seq<SearchResult>)>::empty());
    }
    while j < kn
        invariant
            kn == kv.len(),
            kept@ =~= kv.skip(j as int),
            0 <= j <= kn,
            spec_group_acc(kv.skip(j as int), groups_view(groups@)) == spec_group(kv),
        decreases kn - j,
    {
        proof {
            assert(kv.skip(j as int)[0] == kv[j as int]);
            assert(kv.skip(j as int).skip(1) =~= kv.skip(j as int + 1));
        }
        let it = kept.remove(0);
        let key = build_group_key(&it);
        let ghost gv = groups_view(groups@);
        proof {
            lemma_key_index(gv, key@);
        }
        // find this key's group
        let gn = groups.len();
        let mut idx: usize = 0;
        let mut found: bool = false;
        while idx < gn && !found
            invariant
                gn == groups@.len(),
                gv == groups_view(groups@),
                0 <= idx <= gn,
                forall|m: int| 0 <= m < idx ==> (#[trigger] gv[m]).0 != key@,
                found ==> idx < gn && gv[idx as int].0 == key@,
            decreases gn - idx + (if found {
                0int
            } else {
                1int
            }),
        {
            if str_eq(groups[idx].0.as_str(), key.as_str()) {
                found = true;
            } else {
                idx += 1;
            }
        }
        proof {
            if found {
                lemma_key_index_count(gv, key@, idx as int);
            } else {
                lemma_key_index_count(gv, key@, gv.len() as int);
            }
        }
        if found {
            let mut pair = groups.remove(idx);
            pair.1.push(it);
            groups.insert(idx, pair);
            proof {
                assert(groups_view(groups@) =~= spec_insert(gv, kv[j as int]));
            }
        } else {
            let mut members: Vec<SearchResult> = Vec::new();
            members.push(it);
            groups.push((key, members));
            proof {
                assert(groups_view(groups@) =~= spec_insert(gv, kv[j as int]));
            }
        }
        j += 1;
    }
    proof {
        assert(kv.skip(kn as int) =~= Seq::<SearchResult>::empty());
    }
    groups
}

proof fn lemma_key_index_count(gs: Seq<(Seq<char>, Seq<SearchResult>)>, key: Seq<char>, e: int)
    requires
        0 <= e <= gs.len(),
        forall|j: int| 0 <= j < e ==> (#[trigger] gs[j]).0 != key,
        e < gs.len() ==> gs[e].0 == key,
    ensures
        spec_key_index(gs, key) == e,
    decreases gs.len(),
{
    if gs.len() > 0 && gs[0].0 != key {
        assert(e >= 1);
        lemma_key_index_count(gs.skip(1), key, e - 1);
    }
}

/// How many results in a group have exactly `len` episodes.
pub open spec fn count_eps(g: Seq<SearchResult>, len: int) -> int {
    g.filter(|x: SearchResult| x.episodes@.len() == len).len() as int
}

fn count_eps_exec(group: &[SearchResult], len: usize) -> (r: usize)
    ensures
        r == count_eps(group@, len as int),
{
    let n = group.len();
    let mut r: usize = 0;
    let mut i: usize = 0;
    proof {
        assert(group@.take(0int).filter(|x: SearchResult| x.episodes@.len() == len as int)
            =~= Seq::<SearchResult>::empty());
    }
    while i < n
        invariant
            n == group@.len(),
            0 <= i <= n,
            r == group@.take(i as int).filter(
                |x: SearchResult| x.episodes@.len() == len as int,
            ).len(),
            r <= i,
        decreases n - i,
    {
        proof {
            assert(group@.take(i as int + 1).drop_last() =~= group@.take(i as int));
            reveal_with_fuel(Seq::filter, 2);
            assert(group@.take(i as int + 1).last() == group@[i as int]);
            broadcast use vstd::seq_lib::group_seq_properties;
        }
        if group[i].episodes.len() == len {
            r += 1;
        }
        proof {
            assert(group@.take(i as int + 1).filter(
                |x: SearchResult| x.episodes@.len() == len as int,
            ).len() <= group@.take(i as int + 1).len()) by {
                lemma_filter_len_le(
                    group@.take(i as int + 1),
                    |x: SearchResult| x.episodes@.len() == len as int,
                );
            }
        }
        i += 1;
    }
    proof {
        assert(group@.take(n as int) =~= group@);
    }
    r
}

proof fn lemma_filter_len_le<A>(s: Seq<A>, pred: spec_fn(A) -> bool)
    ensures
        s.filter(pred).len() <= s.len(),
    decreases s.len(),
{
    reveal_with_fuel(Seq::filter, 2);
    if s.len() > 0 {
        lemma_filter_len_le(s.drop_last(), pred);
    }
}

proof fn lemma_count_pos_exists(g: Seq<SearchResult>, len: int)
    requires
        count_eps(g, len) >= 1,
    ensures
        exists|i: int| 0 <= i < g.len() && #[trigger] g[i].episodes@.len() == len,
    decreases g.len(),
{
    reveal_with_fuel(Seq::filter, 2);
    if g.len() > 0 {
        if g.last().episodes@.len() == len {
            assert(g[g.len() - 1].episodes@.len() == len);
        } else {
            lemma_count_pos_exists(g.drop_last(), len);
            let i = choose|i: int|
                0 <= i < g.drop_last().len() && #[trigger] g.drop_last()[i].episodes@.len() == len;
            assert(g[i].episodes@.len() == len);
        }
    }
}

/// The most common non-zero episode count of a group, or 0 when every
/// result has no episodes. Ties resolve to some maximal count.
pub fn calculate_most_common_episodes(group: &[SearchResult]) -> (r: usize)
    ensures
        (exists|i: int| 0 <= i < group@.len() && #[trigger] group@[i].episodes@.len() > 0) ==> (r
            > 0 && count_eps(group@, r as int) >= 1 && forall|len: int|
            len > 0 ==> #[trigger] count_eps(group@, len) <= count_eps(group@, r as int)),
        !(exists|i: int| 0 <= i < group@.len() && #[trigger] group@[i].episodes@.len() > 0) ==> r
            == 0,
{
    let n = group.len();
    let mut best_len: usize = 0;
    let mut best_count: usize = 0;
    let mut i: usize = 0;
    while i < n
        invariant
            n == group@.len(),
            0 <= i <= n,
            best_len == 0 ==> best_count == 0 && forall|j: int|
                0 <= j < i ==> #[trigger] group@[j].episodes@.len() == 0,
            best_len > 0 ==> best_count == count_eps(group@, best_len as int) && best_count >= 1,
            forall|j: int|
                0 <= j < i && #[trigger] group@[j].episodes@.len() > 0 ==> count_eps(
                    group@,
                    group@[j].episodes@.len() as int,
                ) <= best_count,
        decreases n - i,
    {
        let len = group[i].episodes.len();
        if len > 0 {
            let count = count_eps_exec(group, len);
            proof {
                lemma_count_self(group@, i as int);
            }
            if count > best_count {
                best_count = count;
                best_len = len;
            }
        }
        i += 1;
    }
    proof {
        if !(exists|i: int| 0 <= i < group@.len() && #[trigger] group@[i].episodes@.len() > 0) {
            if best_len > 0 {
                lemma_count_pos_exists(group@, best_len as int);
                let j = choose|j: int|
                    0 <= j < group@.len() && #[trigger] group@[j].episodes@.len()
                        == best_len as int;
                assert(false);
            }
        }
        if exists|i: int| 0 <= i < group@.len() && #[trigger] group@[i].episodes@.len() > 0 {
            let w = choose|i: int|
                0 <= i < group@.len() && #[trigger] group@[i].episodes@.len() > 0;
            assert(best_len > 0);
            assert forall|len: int| len > 0 implies #[trigger] count_eps(group@, len)
                <= count_eps(group@, best_len as int) by {
                if count_eps(group@, len) >= 1 {
                    lemma_count_pos_exists(group@, len);
                    let j = choose|j: int|
                        0 <= j < group@.len() && #[trigger] group@[j].episodes@.len() == len;
                } else {
                    lemma_count_nonneg(group@, best_len as int);
                }
            }
        }
    }
    best_len
}

proof fn lemma_count_nonneg(g: Seq<SearchResult>, len: int)
    ensures
        count_eps(g, len) >= 0,
{
    lemma_filter_len_le(g, |x: SearchResult| x.episodes@.len() == len);
    assert(g.filter(|x: SearchResult| x.episodes@.len() == len).len() as int >= 0);
}

proof fn lemma_count_self(g: Seq<SearchResult>, i: int)
    requires
        0 <= i < g.len(),
        g[i].episodes@.len() > 0,
    ensures
        count_eps(g, g[i].episodes@.len() as int) >= 1,
    decreases g.len(),
{
    reveal_with_fuel(Seq::filter, 2);
    if i == g.len() - 1 {
        lemma_count_nonneg(g.drop_last(), g[i].episodes@.len() as int);
    } else {
        assert(g.drop_last()[i] == g[i]);
        lemma_count_self(g.drop_last(), i);
        if g.last().episodes@.len() == g[i].episodes@.len() {
        }
    }
}

/// How many results in a group carry the douban id `d`.
pub open spec fn count_id(g: Seq<SearchResult>, d: i32) -> int {
    g.filter(|x: SearchResult| x.douban_id == Some(d)).len() as int
}

fn count_id_exec(group: &[SearchResult], d: i32) -> (r: usize)
    requires
        d > 0,
    ensures
        r == count_id(group@, d),
{
    let n = group.len();
    let mut r: usize = 0;
    let mut i: usize = 0;
    proof {
        assert(group@.take(0int).filter(|x: SearchResult| x.douban_id == Some(d))
            =~= Seq::<SearchResult>::empty());
    }
    while i < n
        invariant
            n == group@.len(),
            d > 0,
            0 <= i <= n,
            r == group@.take(i as int).filter(|x: SearchResult| x.douban_id == Some(d)).len(),
            r <= i,
        decreases n - i,
    {
        proof {
            assert(group@.take(i as int + 1).drop_last() =~= group@.take(i as int));
            reveal_with_fuel(Seq::filter, 2);
            assert(group@.take(i as int + 1).last() == group@[i as int]);
            lemma_filter_len_le(
                group@.take(i as int + 1),
                |x: SearchResult| x.douban_id == Some(d),
            );
        }
        let matches = match group[i].douban_id {
            Some(v) => v == d,
            None => false,
        };
        if matches {
            r += 1;
        }
        i += 1;
    }
    proof {
        assert(group@.take(n as int) =~= group@);
    }
    r
}

proof fn lemma_count_id_pos_exists(g: Seq<SearchResult>, d: i32)
    requires
        count_id(g, d) >= 1,
    ensures
        exists|i: int| 0 <= i < g.len() && #[trigger] g[i].douban_id == Some(d),
    decreases g.len(),
{
    reveal_with_fuel(Seq::filter, 2);
    if g.len() > 0 {
        if g.last().douban_id == Some(d) {
            assert(g[g.len() - 1].douban_id == Some(d));
        } else {
            lemma_count_id_pos_exists(g.drop_last(), d);
            let i = choose|i: int|
                0 <= i < g.drop_last().len() && #[trigger] g.drop_last()[i].douban_id == Some(d);
            assert(g[i].douban_id == Some(d));
        }
    }
}

proof fn lemma_count_id_nonneg(g: Seq<SearchResult>, d: i32)
    ensures
        count_id(g, d) >= 0,
{
    lemma_filter_len_le(g, |x: SearchResult| x.douban_id == Some(d));
}

proof fn lemma_count_id_self(g: Seq<SearchResult>, i: int)
    requires
        0 <= i < g.len(),
        g[i].douban_id is Some,
        g[i].douban_id->0 > 0,
    ensures
        count_id(g, g[i].douban_id->0) >= 1,
    decreases g.len(),
{
    reveal_with_fuel(Seq::filter, 2);
    if i == g.len() - 1 {
        lemma_count_id_nonneg(g.drop_last(), g[i].douban_id->0);
    } else {
        assert(g.drop_last()[i] == g[i]);
        lemma_count_id_self(g.drop_last(), i);
    }
}

/// The most common positive douban id of a group, or none. Ties resolve
/// to some maximal count.
pub fn calculate_most_common_douban_id(group: &[SearchResult]) -> (r: Option<i32>)
    ensures
        (exists|i: int|
            0 <= i < group@.len() && #[trigger] group@[i].douban_id is Some
                && group@[i].douban_id->0 > 0) ==> (r is Some && r->0 > 0 && count_id(
            group@,
            r->0,
        ) >= 1 && forall|d: i32|
            d > 0 ==> #[trigger] count_id(group@, d) <= count_id(group@, r->0)),
        !(exists|i: int|
            0 <= i < group@.len() && #[trigger] group@[i].douban_id is Some
                && group@[i].douban_id->0 > 0) ==> r is None,
{
    let n = group.len();
    let mut best_id: Option<i32> = None;
    let mut best_count: usize = 0;
    let mut i: usize = 0;
    while i < n
        invariant
            n == group@.len(),
            0 <= i <= n,
            best_id is None ==> best_count == 0 && forall|j: int|
                0 <= j < i ==> !(#[trigger] group@[j].douban_id is Some && group@[j].douban_id->0
                    > 0),
            best_id is Some ==> best_id->0 > 0 && best_count == count_id(group@, best_id->0)
                && best_count >= 1,
            forall|j: int|
                0 <= j < i && (#[trigger] group@[j].douban_id is Some && group@[j].douban_id->0
                    > 0) ==> count_id(group@, group@[j].douban_id->0) <= best_count,
        decreases n - i,
    {
        let mut id_opt: Option<i32> = None;
        match group[i].douban_id {
            Some(v) => {
                if v > 0 {
                    id_opt = Some(v);
                }
            },
            None => {},
        }
        match id_opt {
            Some(d) => {
                let count = count_id_exec(group, d);
                proof {
                    lemma_count_id_self(group@, i as int);
                }
                if count > best_count {
                    best_count = count;
                    best_id = Some(d);
                }
            },
            None => {},
        }
        i += 1;
    }
    proof {
        if !(exists|i: int|
            0 <= i < group@.len() && #[trigger] group@[i].douban_id is Some
                && group@[i].douban_id->0 > 0) {
            match best_id {
                Some(b) => {
                    lemma_count_id_pos_exists(group@, b);
                    let j = choose|j: int|
                        0 <= j < group@.len() && #[trigger] group@[j].douban_id == Some(b);
                    assert(group@[j].douban_id is Some && group@[j].douban_id->0 > 0);
                    assert(false);
                },
                None => {},
            }
        }
        if exists|i: int|
            0 <= i < group@.len() && #[trigger] group@[i].douban_id is Some
                && group@[i].douban_id->0 > 0 {
            let w = choose|i: int|
                0 <= i < group@.len() && #[trigger] group@[i].douban_id is Some
                    && group@[i].douban_id->0 > 0;
            assert(best_id is Some);
            assert forall|d: i32| d > 0 implies #[trigger] count_id(group@, d) <= count_id(
                group@,
                best_id->0,
            ) by {
                if count_id(group@, d) >= 1 {
                    lemma_count_id_pos_exists(group@, d);
                    let j = choose|j: int|
                        0 <= j < group@.len() && #[trigger] group@[j].douban_id == Some(d);
                    assert(count_id(group@, group@[j].douban_id->0) <= best_count);
                } else {
                    lemma_count_id_nonneg(group@, best_id->0);
                }
            }
        }
    }
    best_id
}

/// Lexicographic order on character sequences by code point; UTF-8 byte
/// order, as `String`'s own ordering uses, agrees with it.
pub open spec fn lex_le(a: Seq<char>, b: Seq<char>) -> bool
    decreases a.len(),
{
    if a.len() == 0 {
        true
    } else if b.len() == 0 {
        false
    } else if (a[0] as u32) < (b[0] as u32) {
        true
    } else if (a[0] as u32) > (b[0] as u32) {
        false
    } else {
        lex_le(a.skip(1), b.skip(1))
    }
}

proof fn lemma_lex_refl(a: Seq<char>)
    ensures
        lex_le(a, a),
    decreases a.len(),
{
    if a.len() > 0 {
        lemma_lex_refl(a.skip(1));
    }
}

proof fn lemma_lex_total(a: Seq<char>, b: Seq<char>)
    ensures
        lex_le(a, b) || lex_le(b, a),
    decreases a.len(),
{
    if a.len() > 0 && b.len() > 0 && !((a[0] as u32) < (b[0] as u32)) && !((a[0] as u32) > (
    b[0] as u32)) {
        lemma_lex_total(a.skip(1), b.skip(1));
    }
}

proof fn lemma_lex_trans(a: Seq<char>, b: Seq<char>, c: Seq<char>)
    requires
        lex_le(a, b),
        lex_le(b, c),
    ensures
        lex_le(a, c),
    decreases a.len(),
{
    if a.len() > 0 && b.len() > 0 && c.len() > 0 && (a[0] as u32) == (b[0] as u32) && (
    b[0] as u32) == (c[0] as u32) {
        lemma_lex_trans(a.skip(1), b.skip(1), c.skip(1));
    }
}

/// Whether `a` is lexicographically at most `b`.
pub fn str_le(a: &str, b: &str) -> (r: bool)
    ensures
        r == lex_le(a@, b@),
{
    let an = a.unicode_len();
    let bn = b.unicode_len();
    let mut i: usize = 0;
    proof {
        assert(a@.skip(0) =~= a@);
        assert(b@.skip(0) =~= b@);
    }
    while i < an && i < bn
        invariant
            an == a@.len(),
            bn == b@.len(),
            0 <= i <= an,
            0 <= i <= bn,
            lex_le(a@, b@) == lex_le(a@.skip(i as int), b@.skip(i as int)),
        decreases an - i,
    {
        proof {
            assert(a@.skip(i as int)[0] == a@[i as int]);
            assert(b@.skip(i as int)[0] == b@[i as int]);
            assert(a@.skip(i as int).skip(1) =~= a@.skip(i as int + 1));
            assert(b@.skip(i as int).skip(1) =~= b@.skip(i as int + 1));
        }
        let ca = a.get_char(i);
        let cb = b.get_char(i);
        if (ca as u32) < (cb as u32) {
            return true;
        }
        if (ca as u32) > (cb as u32) {
            return false;
        }
        i += 1;
    }
    proof {
        if i == an {
            assert(a@.skip(i as int).len() == 0);
        } else {
            assert(b@.skip(i as int).len() == 0);
            assert(a@.skip(i as int).len() > 0);
        }
    }
    i == an
}

/// Membership of a text among a list of strings.
pub open spec fn spec_mem(v: Seq<String>, s: Seq<char>) -> bool {
    exists|i: int| 0 <= i < v.len() && v[i]@ == s
}

/// The distinct non-empty source names of a group, in ascending
/// lexicographic order.
pub fn extract_unique_source_names(group: &[SearchResult]) -> (r: Vec<String>)
    ensures
        forall|m: int| 0 <= m < r@.len() - 1 ==> lex_le(#[trigger] r@[m]@, r@[m + 1]@),
        forall|i: int, j: int| 0 <= i < j < r@.len() ==> r@[i]@ != r@[j]@,
        forall|s: Seq<char>|
            #[trigger] spec_mem(r@, s) <==> (s.len() > 0 && exists|i: int|
                0 <= i < group@.len() && #[trigger] group@[i].source_name@ == s),
{
    // collect the distinct non-empty names, first occurrences first
    let n = group.len();
    let mut pool: Vec<String> = Vec::new();
    let mut i: usize = 0;
    while i < n
        invariant
            n == group@.len(),
            0 <= i <= n,
            forall|p: int, q: int| 0 <= p < q < pool@.len() ==> pool@[p]@ != pool@[q]@,
            forall|p: int| 0 <= p < pool@.len() ==> (#[trigger] pool@[p]@).len() > 0,
            forall|s: Seq<char>|
                #[trigger] spec_mem(pool@, s) <==> (s.len() > 0 && exists|j: int|
                    0 <= j < i && #[trigger] group@[j].source_name@ == s),
        decreases n - i,
    {
        let name = &group[i].source_name;
        let mut present: bool = name.as_str().unicode_len() == 0;
        let pl = pool.len();
        let mut m: usize = 0;
        while m < pl && !present
            invariant
                pl == pool@.len(),
                0 <= m <= pl,
                !present ==> name@.len() > 0 && forall|q: int|
                    0 <= q < m ==> pool@[q]@ != name@,
                present ==> name@.len() == 0 || spec_mem(pool@, name@),
            decreases pl - m + (if present {
                0int
            } else {
                1int
            }),
        {
            if str_eq(pool[m].as_str(), name.as_str()) {
                present = true;
            } else {
                m += 1;
            }
        }
        let ghost pool0 = pool@;
        if !present {
            pool.push(name.clone());
            proof {
                assert forall|s: Seq<char>| #[trigger]
                    spec_mem(pool@, s) <==> (s.len() > 0 && exists|j: int|
                        0 <= j < i + 1 && #[trigger] group@[j].source_name@ == s) by {
                    if spec_mem(pool@, s) {
                        let p = choose|p: int| 0 <= p < pool@.len() && pool@[p]@ == s;
                        if p < pool0.len() {
                            assert(spec_mem(pool0, s));
                        } else {
                            assert(group@[i as int].source_name@ == s);
                        }
                    }
                    if s.len() > 0 && exists|j: int|
                        0 <= j < i + 1 && #[trigger] group@[j].source_name@ == s {
                        let j = choose|j: int|
                            0 <= j < i + 1 && #[trigger] group@[j].source_name@ == s;
                        if j < i {
                            assert(spec_mem(pool0, s));
                            let p = choose|p: int| 0 <= p < pool0.len() && pool0[p]@ == s;
                            assert(pool@[p]@ == s);
                        } else {
                            assert(pool@[pool@.len() - 1]@ == s);
                        }
                    }
                }
            }
        } else {
            proof {
                assert forall|s: Seq<char>| #[trigger]
                    spec_mem(pool@, s) <==> (s.len() > 0 && exists|j: int|
                        0 <= j < i + 1 && #[trigger] group@[j].source_name@ == s) by {
                    if s.len() > 0 && exists|j: int|
                        0 <= j < i + 1 && #[trigger] group@[j].source_name@ == s {
                        let j = choose|j: int|
                            0 <= j < i + 1 && #[trigger] group@[j].source_name@ == s;
                        if j == i {
                            assert(spec_mem(pool@, s));
                        }
                    }
                }
            }
        }
        i += 1;
    }

    let out = sort_unique_strings(pool);
    proof {
        assert forall|s: Seq<char>| #[trigger]
            spec_mem(out@, s) <==> (s.len() > 0 && exists|i: int|
                0 <= i < group@.len() && #[trigger] group@[i].source_name@ == s) by {}
    }
    out
}

/// Sorts pairwise-distinct strings ascending; membership and distinctness
/// are preserved.
pub fn sort_unique_strings(pool: Vec<String>) -> (out: Vec<String>)
    requires
        forall|p: int, q: int| 0 <= p < q < pool@.len() ==> pool@[p]@ != pool@[q]@,
    ensures
        forall|m: int| 0 <= m < out@.len() - 1 ==> lex_le(#[trigger] out@[m]@, out@[m + 1]@),
        forall|i: int, j: int| 0 <= i < j < out@.len() ==> out@[i]@ != out@[j]@,
        forall|s: Seq<char>| #[trigger] spec_mem(out@, s) <==> spec_mem(pool@, s),
{
    let ghost names = pool@;
    let mut pool = pool;
    let mut out: Vec<String> = Vec::new();
    while pool.len() > 0
        invariant
            forall|p: int, q: int| 0 <= p < q < pool@.len() ==> pool@[p]@ != pool@[q]@,
            forall|p: int, q: int| 0 <= p < q < out@.len() ==> out@[p]@ != out@[q]@,
            forall|p: int, q: int|
                0 <= p < out@.len() && 0 <= q < pool@.len() ==> out@[p]@ != pool@[q]@,
            forall|m: int| 0 <= m < out@.len() - 1 ==> lex_le(#[trigger] out@[m]@, out@[m + 1]@),
            out@.len() > 0 ==> forall|q: int|
                0 <= q < pool@.len() ==> lex_le(out@.last()@, #[trigger] pool@[q]@),
            forall|s: Seq<char>|
                #[trigger] spec_mem(names, s) <==> (spec_mem(out@, s) || spec_mem(pool@, s)),
        decreases pool@.len(),
    {
        let pl = pool.len();
        let mut min_idx: usize = 0;
        let mut m: usize = 1;
        proof {
            lemma_lex_refl(pool@[0int]@);
        }
        while m < pl
            invariant
                pl == pool@.len(),
                0 <= min_idx < pl,
                min_idx < m <= pl || (min_idx == 0 && m <= pl),
                0 <= m <= pl,
                forall|q: int| 0 <= q < m ==> lex_le(pool@[min_idx as int]@, #[trigger] pool@[q]@),
            decreases pl - m,
        {
            if !str_le(pool[min_idx].as_str(), pool[m].as_str()) {
                proof {
                    lemma_lex_total(pool@[min_idx as int]@, pool@[m as int]@);
                }
                let ghost old_min = min_idx;
                min_idx = m;
                proof {
                    assert forall|q: int| 0 <= q < m + 1 implies lex_le(
                        pool@[min_idx as int]@,
                        #[trigger] pool@[q]@,
                    ) by {
                        if q < m {
                            lemma_lex_trans(
                                pool@[min_idx as int]@,
                                pool@[old_min as int]@,
                                pool@[q]@,
                            );
                        } else {
                            lemma_lex_refl(pool@[min_idx as int]@);
                        }
                    }
                }
            }
            m += 1;
        }
        let ghost pool0 = pool@;
        let ghost out0 = out@;
        let picked = pool.remove(min_idx);
        out.push(picked);
        proof {
            broadcast use vstd::seq_lib::group_seq_properties;
            assert(pool@ =~= pool0.remove(min_idx as int));
            assert forall|p: int, q: int|
                0 <= p < q < pool@.len() implies pool@[p]@ != pool@[q]@ by {
                assert(pool@[p] == (if p < min_idx {
                    pool0[p]
                } else {
                    pool0[p + 1]
                }));
                assert(pool@[q] == (if q < min_idx {
                    pool0[q]
                } else {
                    pool0[q + 1]
                }));
            }
            assert forall|p: int, q: int|
                0 <= p < out@.len() && 0 <= q < pool@.len() implies out@[p]@ != pool@[q]@ by {
                assert(pool@[q] == (if q < min_idx {
                    pool0[q]
                } else {
                    pool0[q + 1]
                }));
                if p < out0.len() {
                    assert(out@[p] == out0[p]);
                } else {
                    assert(out@[p] == pool0[min_idx as int]);
                }
            }
            assert forall|m2: int| 0 <= m2 < out@.len() - 1 implies lex_le(
                #[trigger] out@[m2]@,
                out@[m2 + 1]@,
            ) by {
                if m2 < out0.len() - 1 {
                    assert(out@[m2] == out0[m2] && out@[m2 + 1] == out0[m2 + 1]);
                } else {
                    assert(out@[m2] == out0[m2]);
                    assert(out@[m2 + 1] == pool0[min_idx as int]);
                }
            }
            assert forall|q: int| 0 <= q < pool@.len() implies lex_le(
                out@.last()@,
                #[trigger] pool@[q]@,
            ) by {
                assert(pool@[q] == (if q < min_idx {
                    pool0[q]
                } else {
                    pool0[q + 1]
                }));
            }
            assert forall|s: Seq<char>| #[trigger]
                spec_mem(names, s) <==> (spec_mem(out@, s) || spec_mem(pool@, s)) by {
                if spec_mem(names, s) {
                    if spec_mem(out0, s) {
                        let p = choose|p: int| 0 <= p < out0.len() && out0[p]@ == s;
                        assert(out@[p]@ == s);
                    } else {
                        assert(spec_mem(pool0, s));
                        let q = choose|q: int| 0 <= q < pool0.len() && pool0[q]@ == s;
                        if q == min_idx {
                            assert(out@[out@.len() - 1]@ == s);
                        } else if q < min_idx {
                            assert(pool@[q]@ == s);
                        } else {
                            assert(pool@[q - 1]@ == s);
                        }
                    }
                }
                if spec_mem(out@, s) {
                    let p = choose|p: int| 0 <= p < out@.len() && out@[p]@ == s;
                    if p < out0.len() {
                        assert(spec_mem(out0, s));
                    } else {
                        assert(pool0[min_idx as int]@ == s);
                        assert(spec_mem(pool0, s));
                    }
                }
                if spec_mem(pool@, s) {
                    let q = choose|q: int| 0 <= q < pool@.len() && pool@[q]@ == s;
                    assert(pool@[q] == (if q < min_idx {
                        pool0[q]
                    } else {
                        pool0[q + 1]
                    }));
                    assert(spec_mem(pool0, s));
                }
            }
        }
    }
    proof {
        assert forall|s: Seq<char>| #[trigger]
            spec_mem(out@, s) <==> spec_mem(names, s) by {
            assert(!spec_mem(pool@, s));
        }
    }
    out
}


/// A field-for-field copy of a string list.
fn clone_string_vec(v: &Vec<String>) -> (r: Vec<String>)
    ensures
        r@ == v@,
{
    let mut r: Vec<String> = Vec::new();
    let n = v.len();
    let mut i: usize = 0;
    while i < n
        invariant
            n == v@.len(),
            0 <= i <= n,
            r@ == v@.take(i as int),
        decreases n - i,
    {
        r.push(v[i].clone());
        proof {
            assert(r@ =~= v@.take(i as int + 1));
        }
        i += 1;
    }
    proof {
        assert(v@.take(n as int) =~= v@);
    }
    r
}

fn clone_opt_string(v: &Option<String>) -> (r: Option<String>)
    ensures
        r == v,
{
    match v {
        Some(s) => Some(s.clone()),
        None => None,
    }
}

/// Field-wise sameness of two results, list fields compared by view.
pub open spec fn same_result(a: SearchResult, b: SearchResult) -> bool {
    &&& a.id == b.id
    &&& a.title == b.title
    &&& a.poster == b.poster
    &&& a.episodes@ == b.episodes@
    &&& a.episodes_titles@ == b.episodes_titles@
    &&& a.source == b.source
    &&& a.source_name == b.source_name
    &&& a.class == b.class
    &&& a.year == b.year
    &&& a.desc == b.desc
    &&& a.kind_name == b.kind_name
    &&& a.douban_id == b.douban_id
}

/// A field-for-field copy of one search result.
pub fn clone_search_result(it: &SearchResult) -> (r: SearchResult)
    ensures
        same_result(r, *it),
{
    let r = SearchResult {
        id: it.id.clone(),
        title: it.title.clone(),
        poster: it.poster.clone(),
        episodes: clone_string_vec(&it.episodes),
        episodes_titles: clone_string_vec(&it.episodes_titles),
        source: it.source.clone(),
        source_name: it.source_name.clone(),
        class: clone_opt_string(&it.class),
        year: clone_opt_string(&it.year),
        desc: clone_opt_string(&it.desc),
        kind_name: clone_opt_string(&it.kind_name),
        douban_id: it.douban_id,
    };
    r
}

/// Summarizes one aggregated group: its first result, most common episode
/// count, distinct source names, and most common douban id.
pub fn compute_group_stats(group: &[SearchResult]) -> (r: AggregatedGroup)
    requires
        group@.len() > 0,
    ensures
        same_result(r.representative, group@[0]),
        (exists|i: int| 0 <= i < group@.len() && #[trigger] group@[i].episodes@.len() > 0)
            ==> (r.episodes > 0 && count_eps(group@, r.episodes as int) >= 1 && forall|len: int|
            len > 0 ==> #[trigger] count_eps(group@, len) <= count_eps(
                group@,
                r.episodes as int,
            )),
        !(exists|i: int| 0 <= i < group@.len() && #[trigger] group@[i].episodes@.len() > 0)
            ==> r.episodes == 0,
        forall|m: int|
            0 <= m < r.source_names@.len() - 1 ==> lex_le(
                #[trigger] r.source_names@[m]@,
                r.source_names@[m + 1]@,
            ),
        forall|i: int, j: int|
            0 <= i < j < r.source_names@.len() ==> r.source_names@[i]@ != r.source_names@[j]@,
        forall|s: Seq<char>|
            #[trigger] spec_mem(r.source_names@, s) <==> (s.len() > 0 && exists|i: int|
                0 <= i < group@.len() && #[trigger] group@[i].source_name@ == s),
        (exists|i: int|
            0 <= i < group@.len() && #[trigger] group@[i].douban_id is Some
                && group@[i].douban_id->0 > 0) ==> (r.douban_id is Some && count_id(
            group@,
            r.douban_id->0,
        ) >= 1 && forall|d: i32|
            d > 0 ==> #[trigger] count_id(group@, d) <= count_id(group@, r.douban_id->0)),
        !(exists|i: int|
            0 <= i < group@.len() && #[trigger] group@[i].douban_id is Some
                && group@[i].douban_id->0 > 0) ==> r.douban_id is None,
{
    let episodes = calculate_most_common_episodes(group);
    let source_names = extract_unique_source_names(group);
    let douban_id = calculate_most_common_douban_id(group);
    AggregatedGroup {
        representative: clone_search_result(&group[0]),
        episodes,
        source_names,
        douban_id,
    }
}

/// Whether one result passes the search filter: each criterion either
/// disabled by `"all"` or matched exactly; a missing year counts as
/// `unknown`.
pub open spec fn spec_passes_filter(it: SearchResult, f: SearchFilter) -> bool {
    &&& (f.source@ == "all"@ || it.source@ == f.source@)
    &&& (f.title@ == "all"@ || it.title@ == f.title@)
    &&& (f.year@ == "all"@ || (match it.year {
        Some(y) => y@,
        None => "unknown"@,
    }) == f.year@)
}

fn passes_filter(it: &SearchResult, f: &SearchFilter) -> (r: bool)
    ensures
        r == spec_passes_filter(*it, *f),
{
    if !str_eq(f.source.as_str(), "all") && !str_eq(it.source.as_str(), f.source.as_str()) {
        return false;
    }
    if !str_eq(f.title.as_str(), "all") && !str_eq(it.title.as_str(), f.title.as_str()) {
        return false;
    }
    if !str_eq(f.year.as_str(), "all") {
        let item_year: &str = match &it.year {
            Some(y) => y.as_str(),
            None => "unknown",
        };
        if !str_eq(item_year, f.year.as_str()) {
            return false;
        }
    }
    true
}

/// Keeps the results that pass the filter, in order.
pub fn apply_filter(results: Vec<SearchResult>, filter: &SearchFilter) -> (r: Vec<SearchResult>)
    ensures
        r@ == results@.filter(|it: SearchResult| spec_passes_filter(it, *filter)),
{
    let n = results.len();
    let ghost rv = results@;
    let mut results = results;
    let mut kept: Vec<SearchResult> = Vec::new();
    let mut i: usize = 0;
    proof {
        assert(results@ =~= rv.skip(0));
        assert(rv.take(0int).filter(|it: SearchResult| spec_passes_filter(it, *filter))
            =~= Seq::<SearchResult>::empty());
    }
    while i < n
        invariant
            n == rv.len(),
            results@ =~= rv.skip(i as int),
            0 <= i <= n,
            kept@ == rv.take(i as int).filter(
                |it: SearchResult| spec_passes_filter(it, *filter),
            ),
        decreases n - i,
    {
        proof {
            assert(rv.skip(i as int)[0] == rv[i as int]);
            assert(rv.skip(i as int).skip(1) =~= rv.skip(i as int + 1));
            assert(rv.take(i as int + 1).drop_last() =~= rv.take(i as int));
            reveal_with_fuel(Seq::filter, 2);
            assert(rv.take(i as int + 1).last() == rv[i as int]);
        }
        let it = results.remove(0);
        if passes_filter(&it, filter) {
            kept.push(it);
        }
        i += 1;
    }
    proof {
        assert(rv.take(n as int) =~= rv);
    }
    kept
}

/// A year text counts as missing when empty or `unknown`.
pub open spec fn year_empty(y: Seq<char>) -> bool {
    y.len() == 0 || y == "unknown"@
}

/// The numeric value of a year text, 0 when unparsable or out of range,
/// as `str::parse::<i32>().unwrap_or(0)` yields it.
pub open spec fn year_num(y: Seq<char>) -> int {
    match spec_parse_int(y) {
        Some(v) => if i32::MIN <= v <= i32::MAX {
            v
        } else {
            0
        },
        None => 0,
    }
}

/// How two year texts order: unordered mode compares equal; missing years
/// sort after real ones; real years compare numerically, reversed in
/// descending mode.
pub open spec fn spec_compare_year(a: Seq<char>, b: Seq<char>, order: YearOrder) -> Ordering {
    if order is Unordered {
        Ordering::Equal
    } else if year_empty(a) && year_empty(b) {
        Ordering::Equal
    } else if year_empty(a) {
        Ordering::Greater
    } else if year_empty(b) {
        Ordering::Less
    } else {
        let an = year_num(a);
        let bn = year_num(b);
        let (x, y) = if order is Asc {
            (an, bn)
        } else {
            (bn, an)
        };
        if x < y {
            Ordering::Less
        } else if x > y {
            Ordering::Greater
        } else {
            Ordering::Equal
        }
    }
}

/// Compares two year texts under the requested order.
pub fn compare_year(a_year: &str, b_year: &str, order: &YearOrder) -> (r: Ordering)
    ensures
        r == spec_compare_year(a_year@, b_year@, *order),
{
    if matches!(order, YearOrder::Unordered) {
        return Ordering::Equal;
    }
    let a_is_empty = a_year.unicode_len() == 0 || str_eq(a_year, "unknown");
    let b_is_empty = b_year.unicode_len() == 0 || str_eq(b_year, "unknown");
    if a_is_empty && b_is_empty {
        return Ordering::Equal;
    }
    if a_is_empty {
        return Ordering::Greater;
    }
    if b_is_empty {
        return Ordering::Less;
    }
    let a_num: i32 = match parse_i32_str(a_year) {
        Some(v) => v,
        None => 0,
    };
    let b_num: i32 = match parse_i32_str(b_year) {
        Some(v) => v,
        None => 0,
    };
    let (x, y) = if matches!(order, YearOrder::Asc) {
        (a_num, b_num)
    } else {
        (b_num, a_num)
    };
    if x < y {
        Ordering::Less
    } else if x > y {
        Ordering::Greater
    } else {
        Ordering::Equal
    }
}

/// The year text a result sorts by.
pub open spec fn year_of(it: SearchResult) -> Seq<char> {
    match it.year {
        Some(y) => y@,
        None => "unknown"@,
    }
}

/// `a` sorts at or before `b` under the requested year order.
pub open spec fn year_le(a: SearchResult, b: SearchResult, order: YearOrder) -> bool {
    spec_compare_year(year_of(a), year_of(b), order) != Ordering::Greater
}

fn year_le_exec(a: &SearchResult, b: &SearchResult, order: &YearOrder) -> (r: bool)
    ensures
        r == year_le(*a, *b, *order),
{
    let ay: &str = match &a.year {
        Some(y) => y.as_str(),
        None => "unknown",
    };
    let by: &str = match &b.year {
        Some(y) => y.as_str(),
        None => "unknown",
    };
    !matches!(compare_year(ay, by, order), Ordering::Greater)
}

proof fn lemma_year_total(a: SearchResult, b: SearchResult, order: YearOrder)
    ensures
        year_le(a, b, order) || year_le(b, a, order),
{
}

proof fn lemma_year_trans(a: SearchResult, b: SearchResult, c: SearchResult, order: YearOrder)
    requires
        year_le(a, b, order),
        year_le(b, c, order),
    ensures
        year_le(a, c, order),
{
}

/// Results with years comparing equal are interchangeable in the order.
proof fn lemma_year_equal_le(a: SearchResult, b: SearchResult, order: YearOrder)
    requires
        spec_compare_year(year_of(a), year_of(b), order) == Ordering::Equal,
    ensures
        year_le(a, b, order),
        year_le(b, a, order),
{
}

/// Sorts results by year under the requested order; unordered mode keeps
/// the list as it is. The result is a permutation of the input, pairwise
/// ordered by [`year_le`], and stable: results whose years compare equal
/// keep their input order.
#[verifier::rlimit(100)]
pub fn sort_by_year(results: Vec<SearchResult>, order: YearOrder) -> (r: Vec<SearchResult>)
    ensures
        order is Unordered ==> r@ == results@,
        r@.to_multiset() == results@.to_multiset(),
        forall|m: int| 0 <= m < r@.len() - 1 ==> year_le(#[trigger] r@[m], r@[m + 1], order),
        exists|perm: Seq<int>|
            {
                &&& (#[trigger] perm.len()) == results@.len()
                &&& r@.len() == results@.len()
                &&& forall|m: int| 0 <= m < perm.len() ==> 0 <= #[trigger] perm[m] < results@.len()
                &&& forall|m1: int, m2: int|
                    0 <= m1 < m2 < perm.len() ==> #[trigger] perm[m1] != #[trigger] perm[m2]
                &&& forall|m: int| 0 <= m < perm.len() ==> r@[m] == results@[#[trigger] perm[m]]
                &&& forall|m1: int, m2: int|
                    0 <= m1 < m2 < perm.len() && spec_compare_year(
                        year_of(r@[m1]),
                        year_of(r@[m2]),
                        order,
                    ) == Ordering::Equal ==> #[trigger] perm[m1] < #[trigger] perm[m2]
            },
{
    let ghost n = results@.len() as int;
    if matches!(order, YearOrder::Unordered) {
        proof {
            assert forall|m: int|
                0 <= m < results@.len() - 1 implies year_le(
                #[trigger] results@[m],
                results@[m + 1],
                order,
            ) by {}
            let perm = Seq::new(n as nat, |m: int| m);
            assert(perm.len() == results@.len());
            assert(forall|m: int| 0 <= m < perm.len() ==> #[trigger] perm[m] == m);
        }
        return results;
    }
    let ghost orig = results@;
    let mut pool = results;
    let mut out: Vec<SearchResult> = Vec::new();
    let ghost mut pool_idx: Seq<int> = Seq::new(n as nat, |m: int| m);
    let ghost mut out_idx: Seq<int> = Seq::empty();
    proof {
        broadcast use vstd::seq_lib::group_to_multiset_ensures;

        assert(out@.to_multiset().add(pool@.to_multiset()) =~= orig.to_multiset());
    }
    while pool.len() > 0
        invariant
            out@.to_multiset().add(pool@.to_multiset()) == orig.to_multiset(),
            forall|m: int| 0 <= m < out@.len() - 1 ==> year_le(#[trigger] out@[m], out@[m + 1], order),
            out@.len() > 0 ==> forall|q: int|
                0 <= q < pool@.len() ==> year_le(out@.last(), #[trigger] pool@[q], order),
            n == orig.len(),
            pool_idx.len() == pool@.len(),
            out_idx.len() == out@.len(),
            out_idx.len() + pool_idx.len() == n,
            forall|q: int|
                0 <= q < pool_idx.len() ==> 0 <= #[trigger] pool_idx[q] < n && pool@[q] == orig[
                    pool_idx[q]
                ],
            forall|m: int|
                0 <= m < out_idx.len() ==> 0 <= #[trigger] out_idx[m] < n && out@[m] == orig[
                    out_idx[m]
                ],
            forall|q1: int, q2: int|
                0 <= q1 < q2 < pool_idx.len() ==> #[trigger] pool_idx[q1] < #[trigger] pool_idx[
                    q2
                ],
            forall|m1: int, m2: int|
                0 <= m1 < m2 < out_idx.len() ==> #[trigger] out_idx[m1] != #[trigger] out_idx[m2],
            forall|m: int, q: int|
                0 <= m < out_idx.len() && 0 <= q < pool_idx.len() ==> #[trigger] out_idx[m]
                    != #[trigger] pool_idx[q],
            forall|m1: int, m2: int|
                0 <= m1 < m2 < out_idx.len() && spec_compare_year(
                    year_of(out@[m1]),
                    year_of(out@[m2]),
                    order,
                ) == Ordering::Equal ==> #[trigger] out_idx[m1] < #[trigger] out_idx[m2],
            forall|m: int, q: int|
                0 <= m < out_idx.len() && 0 <= q < pool_idx.len() && spec_compare_year(
                    year_of(out@[m]),
                    year_of(pool@[q]),
                    order,
                ) == Ordering::Equal ==> #[trigger] out_idx[m] < #[trigger] pool_idx[q],
        decreases pool@.len(),
    {
        let pl = pool.len();
        let mut min_idx: usize = 0;
        let mut m: usize = 1;
        proof {
            lemma_year_total(pool@[0int], pool@[0int], order);
        }
        while m < pl
            invariant
                pl == pool@.len(),
                0 <= min_idx < pl,
                0 <= m <= pl,
                forall|q: int| 0 <= q < m ==> year_le(pool@[min_idx as int], #[trigger] pool@[q], order),
                forall|q: int| 0 <= q < min_idx ==> !year_le(#[trigger] pool@[q], pool@[min_idx as int], order),
            decreases pl - m,
        {
            if !year_le_exec(&pool[min_idx], &pool[m], &order) {
                proof {
                    lemma_year_total(pool@[min_idx as int], pool@[m as int], order);
                }
                let ghost old_min = min_idx;
                min_idx = m;
                proof {
                    assert forall|q: int| 0 <= q < m + 1 implies year_le(
                        pool@[min_idx as int],
                        #[trigger] pool@[q],
                        order,
                    ) by {
                        if q < m {
                            lemma_year_trans(
                                pool@[min_idx as int],
                                pool@[old_min as int],
                                pool@[q],
                                order,
                            );
                        } else {
                            lemma_year_total(pool@[q], pool@[q], order);
                        }
                    }
                    assert forall|q: int| 0 <= q < min_idx implies !year_le(
                        #[trigger] pool@[q],
                        pool@[min_idx as int],
                        order,
                    ) by {
                        if year_le(pool@[q], pool@[min_idx as int], order) {
                            lemma_year_trans(
                                pool@[old_min as int],
                                pool@[q],
                                pool@[min_idx as int],
                                order,
                            );
                        }
                    }
                }
            }
            m += 1;
        }
        let ghost pool0 = pool@;
        let ghost pool_idx0 = pool_idx;
        let ghost out0 = out@;
        let ghost out_idx0 = out_idx;
        let ghost picked_idx = pool_idx[min_idx as int];
        let picked = pool.remove(min_idx);
        out.push(picked);
        proof {
            pool_idx = pool_idx0.remove(min_idx as int);
            out_idx = out_idx0.push(picked_idx);
            broadcast use vstd::seq_lib::group_to_multiset_ensures;

            assert(pool@ =~= pool0.remove(min_idx as int));
            assert(pool@.to_multiset() =~= pool0.to_multiset().remove(pool0[min_idx as int]));
            assert(out@.to_multiset() =~= out0.to_multiset().insert(pool0[min_idx as int]));
            assert(out@.to_multiset().add(pool@.to_multiset()) =~= orig.to_multiset());
            // the shifted pool positions keep their mapping and order
            assert forall|q: int|
                0 <= q < pool_idx.len() implies 0 <= #[trigger] pool_idx[q] < n && pool@[q]
                == orig[pool_idx[q]] by {
                assert(pool_idx[q] == (if q < min_idx {
                    pool_idx0[q]
                } else {
                    pool_idx0[q + 1]
                }));
                assert(pool@[q] == (if q < min_idx {
                    pool0[q]
                } else {
                    pool0[q + 1]
                }));
            }
            assert forall|q1: int, q2: int|
                0 <= q1 < q2 < pool_idx.len() implies #[trigger] pool_idx[q1] < #[trigger] pool_idx[
                q2
            ] by {
                assert(pool_idx[q1] == (if q1 < min_idx {
                    pool_idx0[q1]
                } else {
                    pool_idx0[q1 + 1]
                }));
                assert(pool_idx[q2] == (if q2 < min_idx {
                    pool_idx0[q2]
                } else {
                    pool_idx0[q2 + 1]
                }));
            }
            assert forall|m2: int, q: int|
                0 <= m2 < out_idx.len() && 0 <= q < pool_idx.len() implies #[trigger] out_idx[m2]
                != #[trigger] pool_idx[q] by {
                assert(pool_idx[q] == (if q < min_idx {
                    pool_idx0[q]
                } else {
                    pool_idx0[q + 1]
                }));
                if m2 < out_idx0.len() {
                    assert(out_idx[m2] == out_idx0[m2]);
                } else {
                    assert(out_idx[m2] == picked_idx);
                }
            }
            assert forall|m1: int, m2: int|
                0 <= m1 < m2 < out_idx.len() implies #[trigger] out_idx[m1] != #[trigger] out_idx[
                m2
            ] by {
                assert(out_idx[m1] == out_idx0[m1]);
                if m2 < out_idx0.len() {
                    assert(out_idx[m2] == out_idx0[m2]);
                } else {
                    assert(out_idx[m2] == picked_idx);
                }
            }
            assert forall|m2: int| 0 <= m2 < out_idx.len() implies 0 <= #[trigger] out_idx[m2] < n
                && out@[m2] == orig[out_idx[m2]] by {
                if m2 < out_idx0.len() {
                    assert(out_idx[m2] == out_idx0[m2] && out@[m2] == out0[m2]);
                } else {
                    assert(out_idx[m2] == picked_idx && out@[m2] == pool0[min_idx as int]);
                }
            }
            // order of the kept lines
            assert forall|m2: int| 0 <= m2 < out@.len() - 1 implies year_le(
                #[trigger] out@[m2],
                out@[m2 + 1],
                order,
            ) by {
                if m2 < out0.len() - 1 {
                    assert(out@[m2] == out0[m2] && out@[m2 + 1] == out0[m2 + 1]);
                } else {
                    assert(out@[m2] == out0[m2]);
                    assert(out@[m2 + 1] == pool0[min_idx as int]);
                }
            }
            assert forall|q: int| 0 <= q < pool@.len() implies year_le(
                out@.last(),
                #[trigger] pool@[q],
                order,
            ) by {
                assert(pool@[q] == (if q < min_idx {
                    pool0[q]
                } else {
                    pool0[q + 1]
                }));
            }
            // stability: an equal-year element still in the pool came later
            // in the input than the one just extracted
            assert forall|m2: int, q: int|
                0 <= m2 < out_idx.len() && 0 <= q < pool_idx.len() && spec_compare_year(
                    year_of(out@[m2]),
                    year_of(pool@[q]),
                    order,
                ) == Ordering::Equal implies #[trigger] out_idx[m2] < #[trigger] pool_idx[q] by {
                let q0 = if q < min_idx {
                    q
                } else {
                    q + 1
                };
                assert(pool@[q] == pool0[q0] && pool_idx[q] == pool_idx0[q0]);
                if m2 < out_idx0.len() {
                    assert(out_idx[m2] == out_idx0[m2] && out@[m2] == out0[m2]);
                } else {
                    assert(out_idx[m2] == picked_idx && out@[m2] == pool0[min_idx as int]);
                    lemma_year_equal_le(pool0[min_idx as int], pool0[q0], order);
                    if q0 < min_idx {
                        assert(!year_le(pool0[q0], pool0[min_idx as int], order));
                        lemma_year_equal_le(pool0[q0], pool0[min_idx as int], order);
                        assert(false);
                    } else {
                        assert(pool_idx0[min_idx as int] < pool_idx0[q0]);
                    }
                }
            }
            assert forall|m1: int, m2: int|
                0 <= m1 < m2 < out_idx.len() && spec_compare_year(
                    year_of(out@[m1]),
                    year_of(out@[m2]),
                    order,
                ) == Ordering::Equal implies #[trigger] out_idx[m1] < #[trigger] out_idx[m2] by {
                assert(out@[m1] == out0[m1] && out_idx[m1] == out_idx0[m1]);
                if m2 < out_idx0.len() {
                    assert(out@[m2] == out0[m2] && out_idx[m2] == out_idx0[m2]);
                } else {
                    assert(out@[m2] == pool0[min_idx as int] && out_idx[m2] == picked_idx);
                }
            }
        }
    }
    proof {
        broadcast use vstd::seq_lib::group_to_multiset_ensures;

        assert(pool@.to_multiset() =~= Multiset::<SearchResult>::empty());
        assert(out@.to_multiset().add(pool@.to_multiset()) =~= out@.to_multiset());
        let perm = out_idx;
        assert(perm.len() == orig.len());
        assert(forall|m: int| 0 <= m < perm.len() ==> out@[m] == orig[#[trigger] perm[m]]);
    }
    out
}

} // verus!
