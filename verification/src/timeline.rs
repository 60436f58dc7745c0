//! The season timeline: catalog records collapsed into a canonical,
//! densely numbered list of seasons and parts.
//!
//! Records sharing a `(season, part)` key are merged by summing their episode
//! counts; the result is sorted by key and holds one entry per distinct key,
//! carrying the first-seen title for that key.

use vstd::prelude::*;

verus! {

/// One timeline entry: a display title with its global season number, its
/// part number within the season, and its episode count.
#[derive(Debug, Clone)]
pub struct Season {
    pub title: String,
    pub season: u32,
    pub part: u32,
    pub episodes: u32,
}

/// Strict lexicographic order on `(season, part)` keys.
pub open spec fn key_lt(a: Season, b: Season) -> bool {
    a.season < b.season || (a.season == b.season && a.part < b.part)
}

/// Some entry of `t` carries the key `(se, pa)`.
pub open spec fn has_key(t: Seq<Season>, se: int, pa: int) -> bool {
    exists|i: int| 0 <= i < t.len() && t[i].season == se && t[i].part == pa
}

/// The summed episode count of all entries of `t` with key `(se, pa)`.
pub open spec fn sum_for_key(t: Seq<Season>, se: int, pa: int) -> int
    decreases t.len(),
{
    if t.len() == 0 {
        0
    } else {
        sum_for_key(t.drop_last(), se, pa) + if t.last().season == se && t.last().part == pa {
            t.last().episodes as int
        } else {
            0
        }
    }
}

/// The summed episode count of all entries of `t`.
pub open spec fn total_episodes(t: Seq<Season>) -> int
    decreases t.len(),
{
    if t.len() == 0 {
        0
    } else {
        total_episodes(t.drop_last()) + t.last().episodes
    }
}

/// The number of distinct `(season, part)` keys among the entries of `t`.
pub open spec fn num_keys(t: Seq<Season>) -> int
    decreases t.len(),
{
    if t.len() == 0 {
        0
    } else {
        num_keys(t.drop_last()) + if has_key(
            t.drop_last(),
            t.last().season as int,
            t.last().part as int,
        ) {
            0int
        } else {
            1int
        }
    }
}

/// The title of the first entry of `t` with key `(se, pa)`.
pub open spec fn first_title(t: Seq<Season>, se: int, pa: int) -> Seq<char>
    decreases t.len(),
{
    if t.len() == 0 {
        Seq::empty()
    } else if t[0].season == se && t[0].part == pa {
        t[0].title@
    } else {
        first_title(t.drop_first(), se, pa)
    }
}

/// `m` is the merge of `src`: sorted strictly by key, one entry per distinct
/// key of `src`, each holding the summed episode count and first-seen title
/// of its key.
pub open spec fn merged_form(src: Seq<Season>, m: Seq<Season>) -> bool {
    &&& forall|p: int, q: int| 0 <= p < q < m.len() ==> key_lt(m[p], m[q])
    &&& forall|p: int|
        0 <= p < m.len() ==> has_key(src, #[trigger] m[p].season as int, m[p].part as int)
    &&& forall|j: int|
        0 <= j < src.len() ==> has_key(m, #[trigger] src[j].season as int, src[j].part as int)
    &&& forall|p: int|
        0 <= p < m.len() ==> #[trigger] m[p].episodes == sum_for_key(
            src,
            m[p].season as int,
            m[p].part as int,
        )
    &&& forall|p: int|
        0 <= p < m.len() ==> #[trigger] m[p].title@ == first_title(
            src,
            m[p].season as int,
            m[p].part as int,
        )
    &&& m.len() == num_keys(src)
}

proof fn lemma_sum_nonneg(t: Seq<Season>, se: int, pa: int)
    ensures
        sum_for_key(t, se, pa) >= 0,
    decreases t.len(),
{
    if t.len() > 0 {
        lemma_sum_nonneg(t.drop_last(), se, pa);
    }
}

proof fn lemma_sum_le_total(t: Seq<Season>, se: int, pa: int)
    ensures
        sum_for_key(t, se, pa) <= total_episodes(t),
    decreases t.len(),
{
    if t.len() > 0 {
        lemma_sum_le_total(t.drop_last(), se, pa);
    }
}

proof fn lemma_total_prefix_le(t: Seq<Season>, j: int)
    requires
        0 <= j <= t.len(),
    ensures
        total_episodes(t.subrange(0, j)) <= total_episodes(t),
    decreases t.len() - j,
{
    if j < t.len() {
        lemma_total_prefix_le(t, j + 1);
        let p = t.subrange(0, j);
        let q = t.subrange(0, j + 1);
        assert(q.drop_last() =~= p);
    } else {
        assert(t.subrange(0, j) =~= t);
    }
}

proof fn lemma_sum_absent_zero(t: Seq<Season>, se: int, pa: int)
    requires
        !has_key(t, se, pa),
    ensures
        sum_for_key(t, se, pa) == 0,
    decreases t.len(),
{
    if t.len() > 0 {
        assert(!has_key(t.drop_last(), se, pa)) by {
            if has_key(t.drop_last(), se, pa) {
                let i = choose|i: int|
                    0 <= i < t.drop_last().len() && t.drop_last()[i].season == se
                        && t.drop_last()[i].part == pa;
                assert(t[i].season == se && t[i].part == pa);
            }
        }
        lemma_sum_absent_zero(t.drop_last(), se, pa);
        assert(!(t.last().season == se && t.last().part == pa));
    }
}

/// Appending an entry rewrites the first-seen title only for a key that was
/// absent and is the new entry's own.
proof fn lemma_first_title_push(t: Seq<Season>, x: Season, se: int, pa: int)
    ensures
        first_title(t.push(x), se, pa) == if has_key(t, se, pa) || !(x.season == se && x.part
            == pa) {
            first_title(t, se, pa)
        } else {
            x.title@
        },
    decreases t.len(),
{
    if t.len() == 0 {
        assert(t.push(x)[0] == x);
        assert(t.push(x).drop_first() =~= Seq::<Season>::empty());
        assert(!has_key(t, se, pa));
        if x.season == se && x.part == pa {
            assert(first_title(t.push(x), se, pa) == x.title@);
        } else {
            assert(first_title(t.push(x), se, pa) == first_title(Seq::<Season>::empty(), se, pa));
        }
    } else {
        assert(t.push(x).drop_first() =~= t.drop_first().push(x));
        assert(t.push(x)[0] == t[0]);
        if t[0].season == se && t[0].part == pa {
            assert(has_key(t, se, pa));
            assert(first_title(t.push(x), se, pa) == t[0].title@);
            assert(first_title(t, se, pa) == t[0].title@);
        } else {
            lemma_first_title_push(t.drop_first(), x, se, pa);
            assert(has_key(t, se, pa) <==> has_key(t.drop_first(), se, pa)) by {
                if has_key(t, se, pa) {
                    let i = choose|i: int|
                        0 <= i < t.len() && t[i].season == se && t[i].part == pa;
                    assert(i > 0);
                    assert(t.drop_first()[i - 1].season == se && t.drop_first()[i - 1].part == pa);
                }
                if has_key(t.drop_first(), se, pa) {
                    let i = choose|i: int|
                        0 <= i < t.drop_first().len() && t.drop_first()[i].season == se
                            && t.drop_first()[i].part == pa;
                    assert(t[i + 1].season == se && t[i + 1].part == pa);
                }
            }
            assert(first_title(t.push(x), se, pa) == first_title(t.drop_first().push(x), se, pa));
            assert(first_title(t, se, pa) == first_title(t.drop_first(), se, pa));
        }
    }
}

/// Merge entries sharing a `(season, part)` key by summing episode counts;
/// the result is sorted by key, one entry per distinct key, first-seen title.
pub fn merge_seasons(series: Vec<Season>) -> (r: Vec<Season>)
    requires
        total_episodes(series@) <= u32::MAX,
    ensures
        merged_form(series@, r@),
{
    let n = series.len();
    let mut out: Vec<Season> = Vec::new();
    let mut i: usize = 0;
    while i < n
        invariant
            n == series@.len(),
            i <= n,
            total_episodes(series@) <= u32::MAX,
            merged_form(series@.subrange(0, i as int), out@),
        decreases n - i,
    {
        let ghost pre = series@.subrange(0, i as int);
        let ghost pre1 = series@.subrange(0, i + 1);
        proof {
            assert(pre1.drop_last() =~= pre);
            assert(pre1.last() == series@[i as int]);
            assert(pre1 =~= pre.push(series@[i as int]));
        }
        let s = &series[i];
        let ghost se = s.season as int;
        let ghost pa = s.part as int;

        // Look for an existing entry with this key.
        let m = out.len();
        let mut p: usize = 0;
        let mut found = false;
        while p < m
            invariant_except_break
                m == out@.len(),
                p <= m,
                !found,
                forall|q: int|
                    0 <= q < p ==> !(out@[q].season == s.season && out@[q].part == s.part),
            ensures
                m == out@.len(),
                p <= m,
                found ==> p < m && out@[p as int].season == s.season && out@[p as int].part
                    == s.part,
                !found ==> !has_key(out@, s.season as int, s.part as int),
            decreases m - p,
        {
            if out[p].season == s.season && out[p].part == s.part {
                found = true;
                break ;
            }
            p += 1;
        }

        if found {
            // Same key seen before: add this record's episodes into it.
            let ghost old_out = out@;
            proof {
                lemma_sum_le_total(pre1, se, pa);
                lemma_total_prefix_le(series@, i + 1);
                lemma_sum_nonneg(pre, se, pa);
            }
            let updated = Season {
                title: out[p].title.clone(),
                season: out[p].season,
                part: out[p].part,
                episodes: out[p].episodes + s.episodes,
            };
            out.set(p, updated);
            proof {
                assert(has_key(pre, se, pa)) by {
                    assert(has_key(
                        pre,
                        old_out[p as int].season as int,
                        old_out[p as int].part as int,
                    ));
                }
                lemma_first_title_push(pre, series@[i as int], se, pa);
                assert forall|r0: int| 0 <= r0 < out@.len() implies #[trigger] out@[r0].episodes
                    == sum_for_key(pre1, out@[r0].season as int, out@[r0].part as int)
                    && out@[r0].title@ == first_title(
                    pre1,
                    out@[r0].season as int,
                    out@[r0].part as int,
                ) by {
                    lemma_first_title_push(
                        pre,
                        series@[i as int],
                        out@[r0].season as int,
                        out@[r0].part as int,
                    );
                    if r0 != p {
                        assert(out@[r0] == old_out[r0]);
                        if r0 < p {
                            assert(key_lt(old_out[r0], old_out[p as int]));
                        } else {
                            assert(key_lt(old_out[p as int], old_out[r0]));
                        }
                        assert(!(out@[r0].season == s.season && out@[r0].part == s.part));
                    }
                }
                assert forall|j: int| 0 <= j < i + 1 implies has_key(
                    out@,
                    #[trigger] pre1[j].season as int,
                    pre1[j].part as int,
                ) by {
                    if j < i {
                        assert(pre[j] == series@[j]);
                        assert(has_key(old_out, series@[j].season as int, series@[j].part as int));
                        let w = choose|w: int|
                            0 <= w < old_out.len() && old_out[w].season == series@[j].season
                                && old_out[w].part == series@[j].part;
                        assert(out@[w].season == series@[j].season && out@[w].part
                            == series@[j].part);
                    } else {
                        assert(out@[p as int].season == pre1[j].season && out@[p as int].part
                            == pre1[j].part);
                    }
                }
                assert(has_key(pre, se, pa));
                assert(num_keys(pre1) == num_keys(pre));
                assert forall|p0: int| 0 <= p0 < out@.len() implies has_key(
                    pre1,
                    #[trigger] out@[p0].season as int,
                    out@[p0].part as int,
                ) by {
                    assert(has_key(pre, old_out[p0].season as int, old_out[p0].part as int));
                    let w = choose|w: int|
                        0 <= w < pre.len() && pre[w].season == old_out[p0].season && pre[w].part
                            == old_out[p0].part;
                    assert(pre1[w] == pre[w]);
                }
                assert forall|p1: int, q1: int| 0 <= p1 < q1 < out@.len() implies key_lt(
                    out@[p1],
                    out@[q1],
                ) by {
                    assert(key_lt(old_out[p1], old_out[q1]));
                    assert(out@[p1].season == old_out[p1].season && out@[p1].part
                        == old_out[p1].part);
                    assert(out@[q1].season == old_out[q1].season && out@[q1].part
                        == old_out[q1].part);
                }
                assert forall|r0: int| 0 <= r0 < out@.len() implies #[trigger] out@[r0].title@
                    == first_title(pre1, out@[r0].season as int, out@[r0].part as int) by {
                    assert(out@[r0].episodes == sum_for_key(
                        pre1,
                        out@[r0].season as int,
                        out@[r0].part as int,
                    ));
                }
                assert(merged_form(pre1, out@));
            }
        } else {
            // New key: insert at its sorted position.
            let ghost old_out = out@;
            let mut q: usize = 0;
            while q < m
                invariant_except_break
                    m == out@.len(),
                    q <= m,
                    forall|r0: int| 0 <= r0 < q ==> key_lt(out@[r0], *s),
                ensures
                    m == out@.len(),
                    q <= m,
                    forall|r0: int| 0 <= r0 < q ==> key_lt(out@[r0], *s),
                    q < m ==> !key_lt(out@[q as int], *s),
                decreases m - q,
            {
                let c = &out[q];
                if c.season < s.season || (c.season == s.season && c.part < s.part) {
                    q += 1;
                } else {
                    break ;
                }
            }
            proof {
                assert(!has_key(pre, se, pa)) by {
                    if has_key(pre, se, pa) {
                        let j = choose|j: int|
                            0 <= j < pre.len() && pre[j].season == se && pre[j].part == pa;
                        assert(has_key(old_out, pre[j].season as int, pre[j].part as int));
                    }
                }
                lemma_sum_absent_zero(pre, se, pa);
                lemma_sum_le_total(pre1, se, pa);
                lemma_total_prefix_le(series@, i + 1);
            }
            let fresh = Season {
                title: s.title.clone(),
                season: s.season,
                part: s.part,
                episodes: s.episodes,
            };
            let ghost gfresh = fresh;
            out.insert(q, fresh);
            proof {
                old_out.insert_ensures(q as int, gfresh);
                assert(out@[q as int].season == s.season && out@[q as int].part == s.part);
                assert(out@[q as int].title@ == s.title@);
                assert(pre1[i as int] == series@[i as int]);
                // The new entry sits strictly between its neighbours: every
                // earlier entry is below it and, since its key is absent from
                // `out`, the entry at the insertion point is strictly above.
                assert forall|p1: int, q1: int| 0 <= p1 < q1 < out@.len() implies key_lt(
                    out@[p1],
                    out@[q1],
                ) by {
                    if p1 < q && q1 == q {
                        assert(key_lt(old_out[p1], *s));
                    } else if p1 == q && q1 > q {
                        assert(q < m);
                        assert(!(old_out[q as int].season == s.season && old_out[q as int].part
                            == s.part));
                        assert(!key_lt(old_out[q as int], *s));
                        assert(key_lt(*s, old_out[q as int]));
                        if q1 - 1 > q {
                            assert(key_lt(old_out[q as int], old_out[q1 - 1]));
                        }
                    } else if p1 < q && q1 > q {
                        if p1 < q1 - 1 {
                            assert(key_lt(old_out[p1], old_out[q1 - 1]));
                        } else {
                            assert(key_lt(old_out[p1], *s));
                            assert(q < m);
                            assert(!(old_out[q as int].season == s.season
                                && old_out[q as int].part == s.part));
                            assert(!key_lt(old_out[q as int], *s));
                            assert(key_lt(*s, old_out[q as int]));
                        }
                    }
                }
                assert forall|r0: int| 0 <= r0 < out@.len() implies #[trigger] out@[r0].episodes
                    == sum_for_key(pre1, out@[r0].season as int, out@[r0].part as int)
                    && out@[r0].title@ == first_title(
                    pre1,
                    out@[r0].season as int,
                    out@[r0].part as int,
                ) && has_key(pre1, out@[r0].season as int, out@[r0].part as int) by {
                    lemma_first_title_push(
                        pre,
                        series@[i as int],
                        out@[r0].season as int,
                        out@[r0].part as int,
                    );
                    if r0 < q {
                        assert(out@[r0] == old_out[r0]);
                        assert(!(out@[r0].season == s.season && out@[r0].part == s.part));
                        let w = choose|w: int|
                            0 <= w < pre.len() && pre[w].season == old_out[r0].season
                                && pre[w].part == old_out[r0].part;
                        assert(pre1[w] == pre[w]);
                    } else if r0 == q {
                        assert(out@[r0].season == s.season && out@[r0].part == s.part);
                        assert(pre1[i as int].season == s.season && pre1[i as int].part
                            == s.part);
                    } else {
                        assert(out@[r0] == old_out[r0 - 1]);
                        assert(!(out@[r0].season == s.season && out@[r0].part == s.part));
                        let w = choose|w: int|
                            0 <= w < pre.len() && pre[w].season == old_out[r0 - 1].season
                                && pre[w].part == old_out[r0 - 1].part;
                        assert(pre1[w] == pre[w]);
                    }
                }
                assert forall|j: int| 0 <= j < i + 1 implies has_key(
                    out@,
                    #[trigger] pre1[j].season as int,
                    pre1[j].part as int,
                ) by {
                    if j < i {
                        assert(pre[j] == series@[j]);
                        assert(has_key(old_out, series@[j].season as int, series@[j].part as int));
                        let w = choose|w: int|
                            0 <= w < old_out.len() && old_out[w].season == series@[j].season
                                && old_out[w].part == series@[j].part;
                        if w < q {
                            assert(out@[w].season == series@[j].season && out@[w].part
                                == series@[j].part);
                        } else {
                            assert(out@[w + 1].season == series@[j].season && out@[w + 1].part
                                == series@[j].part);
                        }
                    } else {
                        assert(out@[q as int].season == pre1[j].season && out@[q as int].part
                            == pre1[j].part);
                    }
                }
                assert(num_keys(pre1) == num_keys(pre) + 1);
                assert forall|r0: int| 0 <= r0 < out@.len() implies #[trigger] out@[r0].title@
                    == first_title(pre1, out@[r0].season as int, out@[r0].part as int) by {
                    assert(out@[r0].episodes == sum_for_key(
                        pre1,
                        out@[r0].season as int,
                        out@[r0].part as int,
                    ));
                }
                assert forall|r0: int| 0 <= r0 < out@.len() implies has_key(
                    pre1,
                    #[trigger] out@[r0].season as int,
                    out@[r0].part as int,
                ) by {
                    assert(out@[r0].episodes == sum_for_key(
                        pre1,
                        out@[r0].season as int,
                        out@[r0].part as int,
                    ));
                }
                assert(merged_form(pre1, out@));
            }
        }
        i += 1;
    }
    proof {
        assert(series@.subrange(0, n as int) =~= series@);
    }
    out
}

} // verus!
