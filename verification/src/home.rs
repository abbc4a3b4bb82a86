//! Home-page assembly: favorite cards joined with play progress, the
//! continue-watching list, and weekday resolution.

use vstd::prelude::*;

use crate::douban::{DoubanItem, DoubanResult};
use crate::strutil::{push_char, str_eq, trim_spec, trim_str};

verus! {

/// One favorite shown on the home page.
pub struct FavoriteCard {
    pub id: String,
    pub source: String,
    pub title: String,
    pub year: String,
    pub poster: String,
    pub episodes: i32,
    pub source_name: String,
    pub current_episode: Option<i32>,
    pub search_title: String,
}

/// One continue-watching entry.
pub struct ContinueWatchingItem {
    pub key: String,
    pub title: String,
    pub source_name: String,
    pub year: String,
    pub cover: String,
    pub episode_index: i32,
    pub total_episodes: i32,
    pub play_time: i32,
    pub total_time: i32,
    pub save_time: i32,
    pub search_title: String,
}

/// A stored favorite as read from the database.
pub struct FavoriteRecord {
    pub key: String,
    pub title: String,
    pub source_name: String,
    pub year: String,
    pub cover: String,
    pub total_episodes: i32,
    pub save_time: i32,
    pub search_title: String,
}

/// The play-progress row of one storage key.
pub struct PlayRecordMeta {
    pub key: String,
    pub episode_index: i32,
}

/// The source part of a storage key: everything before the first `+`,
/// or the whole key when it has none.
pub open spec fn spec_key_source(key: Seq<char>) -> Seq<char>
    decreases key.len(),
{
    if key.len() == 0 {
        Seq::empty()
    } else if key[0] == '+' {
        Seq::empty()
    } else {
        seq![key[0]] + spec_key_source(key.skip(1))
    }
}

/// The id part of a storage key: everything after the first `+`, empty
/// when it has none.
pub open spec fn spec_key_id(key: Seq<char>) -> Seq<char>
    decreases key.len(),
{
    if key.len() == 0 {
        Seq::empty()
    } else if key[0] == '+' {
        key.skip(1)
    } else {
        spec_key_id(key.skip(1))
    }
}

/// Splits a storage key at its first `+` into source and id; a key
/// without `+` is all source and an empty id.
pub fn split_storage_key(key: &str) -> (r: (String, String))
    ensures
        r.0@ == spec_key_source(key@),
        r.1@ == spec_key_id(key@),
{
    let n = key.unicode_len();
    let mut source = String::new();
    let mut i: usize = 0;
    proof {
        assert(key@.skip(0) =~= key@);
    }
    while i < n
        invariant
            n == key@.len(),
            0 <= i <= n,
            forall|j: int| 0 <= j < i ==> key@[j] != '+',
            source@.len() == i,
            spec_key_source(key@) == source@ + spec_key_source(key@.skip(i as int)),
            spec_key_id(key@) == spec_key_id(key@.skip(i as int)),
        decreases n - i,
    {
        proof {
            assert(key@.skip(i as int)[0] == key@[i as int]);
            assert(key@.skip(i as int).skip(1) =~= key@.skip(i as int + 1));
        }
        let c = key.get_char(i);
        if c == '+' {
            let id = key.substring_char(i + 1, n).to_owned();
            proof {
                assert(spec_key_source(key@.skip(i as int)) =~= Seq::<char>::empty());
                assert(source@ + Seq::<char>::empty() =~= source@);
                assert(key@.skip(i as int).skip(1) =~= id@);
            }
            return (source, id);
        }
        push_char(&mut source, c);
        proof {
            assert(seq![key@[i as int]] + spec_key_source(key@.skip(i as int + 1)) =~= spec_key_source(
                key@.skip(i as int),
            ));
            assert(source@ + spec_key_source(key@.skip(i as int + 1)) =~= source@.drop_last()
                + spec_key_source(key@.skip(i as int)));
        }
        i += 1;
    }
    proof {
        assert(key@.skip(n as int).len() == 0);
        assert(spec_key_source(key@) =~= source@);
        assert(spec_key_id(key@) =~= Seq::<char>::empty());
    }
    (source, String::new())
}

/// The episode index stored for a key: the last row with that key wins,
/// as rebuilding a keyed map from the rows would have it.
pub open spec fn spec_play_lookup(records: Seq<PlayRecordMeta>, key: Seq<char>) -> Option<i32>
    decreases records.len(),
{
    if records.len() == 0 {
        None
    } else if records.last().key@ == key {
        Some(records.last().episode_index)
    } else {
        spec_play_lookup(records.drop_last(), key)
    }
}

fn play_lookup(records: &Vec<PlayRecordMeta>, key: &str) -> (r: Option<i32>)
    ensures
        r == spec_play_lookup(records@, key@),
{
    let mut i: usize = records.len();
    proof {
        assert(records@.take(records@.len() as int) =~= records@);
    }
    while i > 0
        invariant
            0 <= i <= records@.len(),
            spec_play_lookup(records@, key@) == spec_play_lookup(records@.take(i as int), key@),
        decreases i,
    {
        proof {
            assert(records@.take(i as int).last() == records@[i - 1]);
            assert(records@.take(i as int).drop_last() =~= records@.take(i as int - 1));
        }
        if str_eq(records[i - 1].key.as_str(), key) {
            return Some(records[i - 1].episode_index);
        }
        i -= 1;
    }
    None
}

/// Descending order by save time.
pub open spec fn fav_ge(a: FavoriteRecord, b: FavoriteRecord) -> bool {
    a.save_time >= b.save_time
}

/// Sorts favorites by save time, most recent first: a permutation of
/// the input, pairwise ordered by [`fav_ge`], and stable — entries with
/// equal save times keep their input order.
#[verifier::rlimit(100)]
pub fn sort_favorites(favorites: Vec<FavoriteRecord>) -> (r: Vec<FavoriteRecord>)
    ensures
        r@.to_multiset() == favorites@.to_multiset(),
        forall|m: int| 0 <= m < r@.len() - 1 ==> fav_ge(#[trigger] r@[m], r@[m + 1]),
        exists|perm: Seq<int>|
            {
                &&& (#[trigger] perm.len()) == favorites@.len()
                &&& r@.len() == favorites@.len()
                &&& forall|m: int| 0 <= m < perm.len() ==> 0 <= #[trigger] perm[m] < favorites@.len()
                &&& forall|m1: int, m2: int|
                    0 <= m1 < m2 < perm.len() ==> #[trigger] perm[m1] != #[trigger] perm[m2]
                &&& forall|m: int| 0 <= m < perm.len() ==> r@[m] == favorites@[#[trigger] perm[m]]
                &&& forall|m1: int, m2: int|
                    0 <= m1 < m2 < perm.len() && r@[m1].save_time == r@[m2].save_time
                        ==> #[trigger] perm[m1] < #[trigger] perm[m2]
            },
{
    let ghost n = favorites@.len() as int;
    let ghost orig = favorites@;
    let mut pool = favorites;
    let mut out: Vec<FavoriteRecord> = Vec::new();
    let ghost mut pool_idx: Seq<int> = Seq::new(n as nat, |m: int| m);
    let ghost mut out_idx: Seq<int> = Seq::empty();
    proof {
        broadcast use vstd::seq_lib::group_to_multiset_ensures;

        assert(out@.to_multiset().add(pool@.to_multiset()) =~= orig.to_multiset());
    }
    while pool.len() > 0
        invariant
            out@.to_multiset().add(pool@.to_multiset()) == orig.to_multiset(),
            forall|m: int| 0 <= m < out@.len() - 1 ==> fav_ge(#[trigger] out@[m], out@[m + 1]),
            out@.len() > 0 ==> forall|q: int|
                0 <= q < pool@.len() ==> fav_ge(out@.last(), #[trigger] pool@[q]),
            n == orig.len(),
            pool_idx.len() == pool@.len(),
            out_idx.len() == out@.len(),
            out_idx.len() + pool_idx.len() == n,
            forall|q: int|
                0 <= q < pool_idx.len() ==> 0 <= #[trigger] pool_idx[q] < n && pool@[q] == orig[
                    pool_idx[q]
                ],
            forall|m: int|
                0 <= m < out_idx.len() ==> 0 <= #[trigger] out_idx[m] < n && out@[m] == orig[
                    out_idx[m]
                ],
            forall|q1: int, q2: int|
                0 <= q1 < q2 < pool_idx.len() ==> #[trigger] pool_idx[q1] < #[trigger] pool_idx[
                    q2
                ],
            forall|m1: int, m2: int|
                0 <= m1 < m2 < out_idx.len() ==> #[trigger] out_idx[m1] != #[trigger] out_idx[m2],
            forall|m: int, q: int|
                0 <= m < out_idx.len() && 0 <= q < pool_idx.len() ==> #[trigger] out_idx[m]
                    != #[trigger] pool_idx[q],
            forall|m1: int, m2: int|
                0 <= m1 < m2 < out_idx.len() && out@[m1].save_time == out@[m2].save_time
                    ==> #[trigger] out_idx[m1] < #[trigger] out_idx[m2],
            forall|m: int, q: int|
                0 <= m < out_idx.len() && 0 <= q < pool_idx.len() && out@[m].save_time
                    == pool@[q].save_time ==> #[trigger] out_idx[m] < #[trigger] pool_idx[q],
        decreases pool@.len(),
    {
        let pl = pool.len();
        let mut max_idx: usize = 0;
        let mut m: usize = 1;
        while m < pl
            invariant
                pl == pool@.len(),
                0 <= max_idx < pl,
                0 <= m <= pl,
                forall|q: int| 0 <= q < m ==> fav_ge(pool@[max_idx as int], #[trigger] pool@[q]),
                forall|q: int|
                    0 <= q < max_idx ==> (#[trigger] pool@[q]).save_time < pool@[
                        max_idx as int
                    ].save_time,
            decreases pl - m,
        {
            if pool[m].save_time > pool[max_idx].save_time {
                max_idx = m;
            }
            m += 1;
        }
        let ghost pool0 = pool@;
        let ghost pool_idx0 = pool_idx;
        let ghost out0 = out@;
        let ghost out_idx0 = out_idx;
        let ghost picked_idx = pool_idx[max_idx as int];
        let picked = pool.remove(max_idx);
        out.push(picked);
        proof {
            pool_idx = pool_idx0.remove(max_idx as int);
            out_idx = out_idx0.push(picked_idx);
            broadcast use vstd::seq_lib::group_to_multiset_ensures;

            assert(pool@ =~= pool0.remove(max_idx as int));
            assert(pool@.to_multiset() =~= pool0.to_multiset().remove(pool0[max_idx as int]));
            assert(out@.to_multiset() =~= out0.to_multiset().insert(pool0[max_idx as int]));
            assert(out@.to_multiset().add(pool@.to_multiset()) =~= orig.to_multiset());
            assert forall|q: int|
                0 <= q < pool_idx.len() implies 0 <= #[trigger] pool_idx[q] < n && pool@[q]
                == orig[pool_idx[q]] by {
                assert(pool_idx[q] == (if q < max_idx {
                    pool_idx0[q]
                } else {
                    pool_idx0[q + 1]
                }));
                assert(pool@[q] == (if q < max_idx {
                    pool0[q]
                } else {
                    pool0[q + 1]
                }));
            }
            assert forall|q1: int, q2: int|
                0 <= q1 < q2 < pool_idx.len() implies #[trigger] pool_idx[q1] < #[trigger] pool_idx[
                q2
            ] by {
                assert(pool_idx[q1] == (if q1 < max_idx {
                    pool_idx0[q1]
                } else {
                    pool_idx0[q1 + 1]
                }));
                assert(pool_idx[q2] == (if q2 < max_idx {
                    pool_idx0[q2]
                } else {
                    pool_idx0[q2 + 1]
                }));
            }
            assert forall|m2: int, q: int|
                0 <= m2 < out_idx.len() && 0 <= q < pool_idx.len() implies #[trigger] out_idx[m2]
                != #[trigger] pool_idx[q] by {
                assert(pool_idx[q] == (if q < max_idx {
                    pool_idx0[q]
                } else {
                    pool_idx0[q + 1]
                }));
                if m2 < out_idx0.len() {
                    assert(out_idx[m2] == out_idx0[m2]);
                } else {
                    assert(out_idx[m2] == picked_idx);
                }
            }
            assert forall|m1: int, m2: int|
                0 <= m1 < m2 < out_idx.len() implies #[trigger] out_idx[m1] != #[trigger] out_idx[
                m2
            ] by {
                assert(out_idx[m1] == out_idx0[m1]);
                if m2 < out_idx0.len() {
                    assert(out_idx[m2] == out_idx0[m2]);
                } else {
                    assert(out_idx[m2] == picked_idx);
                }
            }
            assert forall|m2: int| 0 <= m2 < out_idx.len() implies 0 <= #[trigger] out_idx[m2] < n
                && out@[m2] == orig[out_idx[m2]] by {
                if m2 < out_idx0.len() {
                    assert(out_idx[m2] == out_idx0[m2] && out@[m2] == out0[m2]);
                } else {
                    assert(out_idx[m2] == picked_idx && out@[m2] == pool0[max_idx as int]);
                }
            }
            assert forall|m2: int| 0 <= m2 < out@.len() - 1 implies fav_ge(
                #[trigger] out@[m2],
                out@[m2 + 1],
            ) by {
                if m2 < out0.len() - 1 {
                    assert(out@[m2] == out0[m2] && out@[m2 + 1] == out0[m2 + 1]);
                } else {
                    assert(out@[m2] == out0[m2]);
                    assert(out@[m2 + 1] == pool0[max_idx as int]);
                }
            }
            assert forall|q: int| 0 <= q < pool@.len() implies fav_ge(
                out@.last(),
                #[trigger] pool@[q],
            ) by {
                assert(pool@[q] == (if q < max_idx {
                    pool0[q]
                } else {
                    pool0[q + 1]
                }));
            }
            // stability: an equal-time element still in the pool came later
            // in the input than the one just extracted
            assert forall|m2: int, q: int|
                0 <= m2 < out_idx.len() && 0 <= q < pool_idx.len() && out@[m2].save_time
                    == pool@[q].save_time implies #[trigger] out_idx[m2] < #[trigger] pool_idx[
                q
            ] by {
                let q0 = if q < max_idx {
                    q
                } else {
                    q + 1
                };
                assert(pool@[q] == pool0[q0] && pool_idx[q] == pool_idx0[q0]);
                if m2 < out_idx0.len() {
                    assert(out_idx[m2] == out_idx0[m2] && out@[m2] == out0[m2]);
                } else {
                    assert(out_idx[m2] == picked_idx && out@[m2] == pool0[max_idx as int]);
                    if q0 < max_idx {
                        assert(pool0[q0].save_time < pool0[max_idx as int].save_time);
                        assert(false);
                    } else {
                        assert(pool_idx0[max_idx as int] < pool_idx0[q0]);
                    }
                }
            }
            assert forall|m1: int, m2: int|
                0 <= m1 < m2 < out_idx.len() && out@[m1].save_time == out@[m2].save_time
                    implies #[trigger] out_idx[m1] < #[trigger] out_idx[m2] by {
                assert(out@[m1] == out0[m1] && out_idx[m1] == out_idx0[m1]);
                if m2 < out_idx0.len() {
                    assert(out@[m2] == out0[m2] && out_idx[m2] == out_idx0[m2]);
                } else {
                    assert(out@[m2] == pool0[max_idx as int] && out_idx[m2] == picked_idx);
                }
            }
        }
    }
    proof {
        broadcast use vstd::seq_lib::group_to_multiset_ensures;

        assert(pool@.to_multiset() =~= vstd::multiset::Multiset::<FavoriteRecord>::empty());
        assert(out@.to_multiset().add(pool@.to_multiset()) =~= out@.to_multiset());
        let perm = out_idx;
        assert(perm.len() == orig.len());
        assert(forall|m: int| 0 <= m < perm.len() ==> out@[m] == orig[#[trigger] perm[m]]);
    }
    out
}

/// The card of one favorite, joined with the stored play progress.
pub open spec fn card_matches(
    card: FavoriteCard,
    fav: FavoriteRecord,
    records: Seq<PlayRecordMeta>,
) -> bool {
    &&& card.id@ == spec_key_id(fav.key@)
    &&& card.source@ == spec_key_source(fav.key@)
    &&& card.title == fav.title
    &&& card.year == fav.year
    &&& card.poster == fav.cover
    &&& card.episodes == fav.total_episodes
    &&& card.source_name == fav.source_name
    &&& card.current_episode == spec_play_lookup(records, fav.key@)
    &&& card.search_title == fav.search_title
}

/// Builds the favorite cards: favorites sorted by save time descending,
/// each joined with its stored play progress.
pub fn build_favorite_cards(
    favorites: Vec<FavoriteRecord>,
    play_records: Vec<PlayRecordMeta>,
) -> (r: Vec<FavoriteCard>)
    ensures
        ({
            exists|sorted: Seq<FavoriteRecord>|
                {
                    &&& (#[trigger] sorted.to_multiset()) == favorites@.to_multiset()
                    &&& forall|m: int|
                        0 <= m < sorted.len() - 1 ==> fav_ge(#[trigger] sorted[m], sorted[m + 1])
                    &&& r@.len() == sorted.len()
                    &&& forall|i: int|
                        0 <= i < r@.len() ==> card_matches(
                            #[trigger] r@[i],
                            sorted[i],
                            play_records@,
                        )
                }
        }),
{
    let sorted = sort_favorites(favorites);
    let ghost sorted_view = sorted@;
    let n = sorted.len();
    let mut sorted = sorted;
    let mut r: Vec<FavoriteCard> = Vec::new();
    let mut i: usize = 0;
    proof {
        assert(sorted@ =~= sorted_view.skip(0));
    }
    while i < n
        invariant
            n == sorted_view.len(),
            sorted@ =~= sorted_view.skip(i as int),
            0 <= i <= n,
            r@.len() == i,
            forall|j: int|
                0 <= j < i ==> card_matches(#[trigger] r@[j], sorted_view[j], play_records@),
        decreases n - i,
    {
        proof {
            assert(sorted_view.skip(i as int)[0] == sorted_view[i as int]);
            assert(sorted_view.skip(i as int).skip(1) =~= sorted_view.skip(i as int + 1));
        }
        let fav = sorted.remove(0);
        let (source, id) = split_storage_key(fav.key.as_str());
        let current_episode = play_lookup(&play_records, fav.key.as_str());
        r.push(
            FavoriteCard {
                id,
                source,
                title: fav.title,
                year: fav.year,
                poster: fav.cover,
                episodes: fav.total_episodes,
                source_name: fav.source_name,
                current_episode,
                search_title: fav.search_title,
            },
        );
        i += 1;
    }
    r
}

/// Descending order by save time.
pub open spec fn watch_ge(a: ContinueWatchingItem, b: ContinueWatchingItem) -> bool {
    a.save_time >= b.save_time
}

/// Sorts the continue-watching list by save time, most recent first: a permutation of
/// the input, pairwise ordered by [`watch_ge`], and stable — entries with
/// equal save times keep their input order.
#[verifier::rlimit(100)]
pub fn sort_continue_watching(records: Vec<ContinueWatchingItem>) -> (r: Vec<ContinueWatchingItem>)
    ensures
        r@.to_multiset() == records@.to_multiset(),
        forall|m: int| 0 <= m < r@.len() - 1 ==> watch_ge(#[trigger] r@[m], r@[m + 1]),
        exists|perm: Seq<int>|
            {
                &&& (#[trigger] perm.len()) == records@.len()
                &&& r@.len() == records@.len()
                &&& forall|m: int| 0 <= m < perm.len() ==> 0 <= #[trigger] perm[m] < records@.len()
                &&& forall|m1: int, m2: int|
                    0 <= m1 < m2 < perm.len() ==> #[trigger] perm[m1] != #[trigger] perm[m2]
                &&& forall|m: int| 0 <= m < perm.len() ==> r@[m] == records@[#[trigger] perm[m]]
                &&& forall|m1: int, m2: int|
                    0 <= m1 < m2 < perm.len() && r@[m1].save_time == r@[m2].save_time
                        ==> #[trigger] perm[m1] < #[trigger] perm[m2]
            },
{
    let ghost n = records@.len() as int;
    let ghost orig = records@;
    let mut pool = records;
    let mut out: Vec<ContinueWatchingItem> = Vec::new();
    let ghost mut pool_idx: Seq<int> = Seq::new(n as nat, |m: int| m);
    let ghost mut out_idx: Seq<int> = Seq::empty();
    proof {
        broadcast use vstd::seq_lib::group_to_multiset_ensures;

        assert(out@.to_multiset().add(pool@.to_multiset()) =~= orig.to_multiset());
    }
    while pool.len() > 0
        invariant
            out@.to_multiset().add(pool@.to_multiset()) == orig.to_multiset(),
            forall|m: int| 0 <= m < out@.len() - 1 ==> watch_ge(#[trigger] out@[m], out@[m + 1]),
            out@.len() > 0 ==> forall|q: int|
                0 <= q < pool@.len() ==> watch_ge(out@.last(), #[trigger] pool@[q]),
            n == orig.len(),
            pool_idx.len() == pool@.len(),
            out_idx.len() == out@.len(),
            out_idx.len() + pool_idx.len() == n,
            forall|q: int|
                0 <= q < pool_idx.len() ==> 0 <= #[trigger] pool_idx[q] < n && pool@[q] == orig[
                    pool_idx[q]
                ],
            forall|m: int|
                0 <= m < out_idx.len() ==> 0 <= #[trigger] out_idx[m] < n && out@[m] == orig[
                    out_idx[m]
                ],
            forall|q1: int, q2: int|
                0 <= q1 < q2 < pool_idx.len() ==> #[trigger] pool_idx[q1] < #[trigger] pool_idx[
                    q2
                ],
            forall|m1: int, m2: int|
                0 <= m1 < m2 < out_idx.len() ==> #[trigger] out_idx[m1] != #[trigger] out_idx[m2],
            forall|m: int, q: int|
                0 <= m < out_idx.len() && 0 <= q < pool_idx.len() ==> #[trigger] out_idx[m]
                    != #[trigger] pool_idx[q],
            forall|m1: int, m2: int|
                0 <= m1 < m2 < out_idx.len() && out@[m1].save_time == out@[m2].save_time
                    ==> #[trigger] out_idx[m1] < #[trigger] out_idx[m2],
            forall|m: int, q: int|
                0 <= m < out_idx.len() && 0 <= q < pool_idx.len() && out@[m].save_time
                    == pool@[q].save_time ==> #[trigger] out_idx[m] < #[trigger] pool_idx[q],
        decreases pool@.len(),
    {
        let pl = pool.len();
        let mut max_idx: usize = 0;
        let mut m: usize = 1;
        while m < pl
            invariant
                pl == pool@.len(),
                0 <= max_idx < pl,
                0 <= m <= pl,
                forall|q: int| 0 <= q < m ==> watch_ge(pool@[max_idx as int], #[trigger] pool@[q]),
                forall|q: int|
                    0 <= q < max_idx ==> (#[trigger] pool@[q]).save_time < pool@[
                        max_idx as int
                    ].save_time,
            decreases pl - m,
        {
            if pool[m].save_time > pool[max_idx].save_time {
                max_idx = m;
            }
            m += 1;
        }
        let ghost pool0 = pool@;
        let ghost pool_idx0 = pool_idx;
        let ghost out0 = out@;
        let ghost out_idx0 = out_idx;
        let ghost picked_idx = pool_idx[max_idx as int];
        let picked = pool.remove(max_idx);
        out.push(picked);
        proof {
            pool_idx = pool_idx0.remove(max_idx as int);
            out_idx = out_idx0.push(picked_idx);
            broadcast use vstd::seq_lib::group_to_multiset_ensures;

            assert(pool@ =~= pool0.remove(max_idx as int));
            assert(pool@.to_multiset() =~= pool0.to_multiset().remove(pool0[max_idx as int]));
            assert(out@.to_multiset() =~= out0.to_multiset().insert(pool0[max_idx as int]));
            assert(out@.to_multiset().add(pool@.to_multiset()) =~= orig.to_multiset());
            assert forall|q: int|
                0 <= q < pool_idx.len() implies 0 <= #[trigger] pool_idx[q] < n && pool@[q]
                == orig[pool_idx[q]] by {
                assert(pool_idx[q] == (if q < max_idx {
                    pool_idx0[q]
                } else {
                    pool_idx0[q + 1]
                }));
                assert(pool@[q] == (if q < max_idx {
                    pool0[q]
                } else {
                    pool0[q + 1]
                }));
            }
            assert forall|q1: int, q2: int|
                0 <= q1 < q2 < pool_idx.len() implies #[trigger] pool_idx[q1] < #[trigger] pool_idx[
                q2
            ] by {
                assert(pool_idx[q1] == (if q1 < max_idx {
                    pool_idx0[q1]
                } else {
                    pool_idx0[q1 + 1]
                }));
                assert(pool_idx[q2] == (if q2 < max_idx {
                    pool_idx0[q2]
                } else {
                    pool_idx0[q2 + 1]
                }));
            }
            assert forall|m2: int, q: int|
                0 <= m2 < out_idx.len() && 0 <= q < pool_idx.len() implies #[trigger] out_idx[m2]
                != #[trigger] pool_idx[q] by {
                assert(pool_idx[q] == (if q < max_idx {
                    pool_idx0[q]
                } else {
                    pool_idx0[q + 1]
                }));
                if m2 < out_idx0.len() {
                    assert(out_idx[m2] == out_idx0[m2]);
                } else {
                    assert(out_idx[m2] == picked_idx);
                }
            }
            assert forall|m1: int, m2: int|
                0 <= m1 < m2 < out_idx.len() implies #[trigger] out_idx[m1] != #[trigger] out_idx[
                m2
            ] by {
                assert(out_idx[m1] == out_idx0[m1]);
                if m2 < out_idx0.len() {
                    assert(out_idx[m2] == out_idx0[m2]);
                } else {
                    assert(out_idx[m2] == picked_idx);
                }
            }
            assert forall|m2: int| 0 <= m2 < out_idx.len() implies 0 <= #[trigger] out_idx[m2] < n
                && out@[m2] == orig[out_idx[m2]] by {
                if m2 < out_idx0.len() {
                    assert(out_idx[m2] == out_idx0[m2] && out@[m2] == out0[m2]);
                } else {
                    assert(out_idx[m2] == picked_idx && out@[m2] == pool0[max_idx as int]);
                }
            }
            assert forall|m2: int| 0 <= m2 < out@.len() - 1 implies watch_ge(
                #[trigger] out@[m2],
                out@[m2 + 1],
            ) by {
                if m2 < out0.len() - 1 {
                    assert(out@[m2] == out0[m2] && out@[m2 + 1] == out0[m2 + 1]);
                } else {
                    assert(out@[m2] == out0[m2]);
                    assert(out@[m2 + 1] == pool0[max_idx as int]);
                }
            }
            assert forall|q: int| 0 <= q < pool@.len() implies watch_ge(
                out@.last(),
                #[trigger] pool@[q],
            ) by {
                assert(pool@[q] == (if q < max_idx {
                    pool0[q]
                } else {
                    pool0[q + 1]
                }));
            }
            // stability: an equal-time element still in the pool came later
            // in the input than the one just extracted
            assert forall|m2: int, q: int|
                0 <= m2 < out_idx.len() && 0 <= q < pool_idx.len() && out@[m2].save_time
                    == pool@[q].save_time implies #[trigger] out_idx[m2] < #[trigger] pool_idx[
                q
            ] by {
                let q0 = if q < max_idx {
                    q
                } else {
                    q + 1
                };
                assert(pool@[q] == pool0[q0] && pool_idx[q] == pool_idx0[q0]);
                if m2 < out_idx0.len() {
                    assert(out_idx[m2] == out_idx0[m2] && out@[m2] == out0[m2]);
                } else {
                    assert(out_idx[m2] == picked_idx && out@[m2] == pool0[max_idx as int]);
                    if q0 < max_idx {
                        assert(pool0[q0].save_time < pool0[max_idx as int].save_time);
                        assert(false);
                    } else {
                        assert(pool_idx0[max_idx as int] < pool_idx0[q0]);
                    }
                }
            }
            assert forall|m1: int, m2: int|
                0 <= m1 < m2 < out_idx.len() && out@[m1].save_time == out@[m2].save_time
                    implies #[trigger] out_idx[m1] < #[trigger] out_idx[m2] by {
                assert(out@[m1] == out0[m1] && out_idx[m1] == out_idx0[m1]);
                if m2 < out_idx0.len() {
                    assert(out@[m2] == out0[m2] && out_idx[m2] == out_idx0[m2]);
                } else {
                    assert(out@[m2] == pool0[max_idx as int] && out_idx[m2] == picked_idx);
                }
            }
        }
    }
    proof {
        broadcast use vstd::seq_lib::group_to_multiset_ensures;

        assert(pool@.to_multiset() =~= vstd::multiset::Multiset::<ContinueWatchingItem>::empty());
        assert(out@.to_multiset().add(pool@.to_multiset()) =~= out@.to_multiset());
        let perm = out_idx;
        assert(perm.len() == orig.len());
        assert(forall|m: int| 0 <= m < perm.len() ==> out@[m] == orig[#[trigger] perm[m]]);
    }
    out
}

/// The requested weekday, trimmed, or the fallback when empty or absent.
pub fn resolve_weekday_input(selected: Option<&str>, fallback: &str) -> (r: String)
    ensures
        (match selected {
            Some(s) => trim_spec(s@).len() > 0,
            None => false,
        }) ==> r@ == trim_spec(selected->0@),
        !(match selected {
            Some(s) => trim_spec(s@).len() > 0,
            None => false,
        }) ==> r@ == fallback@,
{
    match selected {
        Some(value) => {
            let trimmed = trim_str(value);
            if trimmed.unicode_len() > 0 {
                trimmed.to_owned()
            } else {
                fallback.to_owned()
            }
        },
        None => fallback.to_owned(),
    }
}

/// The items of a successful Douban response, empty on failure.
pub fn extract_list_or_empty(result: DoubanResult) -> (r: Vec<DoubanItem>)
    ensures
        result.code == 200 ==> r == result.list,
        result.code != 200 ==> r@.len() == 0,
{
    if result.code == 200 {
        result.list
    } else {
        Vec::new()
    }
}

} // verus!
