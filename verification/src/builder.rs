//! Walking a catalog's sequel chain into a numbered season timeline.
//!
//! Each fetched catalog record becomes a chain node (title, raw episode
//! count, and the airing-schedule count fetched when the raw count is zero).
//! Numbering walks the chain: a node whose title and its sequel's title both
//! carry the same "2nd Season" / "3rd Season" marker continues the season as
//! a new part; otherwise a sequel with more than the special-entry threshold
//! of episodes opens a new season; a smaller sequel is a special and leaves
//! the numbering untouched. Nodes at or below the threshold are recorded in
//! the chain but excluded from the timeline.
//!
//! `SeriesBuilder` is the request/response machine a fetch loop drives: it
//! says which record to fetch next and absorbs the plain values fetched; the
//! timeline itself is computed by the verified numbering and merge.

use vstd::prelude::*;
use crate::strings::spec_contains;
use crate::strings::contains_str;
use crate::timeline::{Season, merge_seasons, merged_form, total_episodes, has_key, key_lt};

verus! {

/// Entries with at most this many episodes are specials: they are excluded
/// from the timeline and do not advance season numbering.
pub const SPECIAL_MAX_EPISODES: u32 = 3;

/// One fetched catalog record on the sequel chain.
pub struct ChainNode {
    pub title: String,
    /// The episode count the catalog reports; 0 means unknown / still airing.
    pub raw_episodes: u32,
    /// The count from the airing schedule, consulted when `raw_episodes` is 0.
    pub airing_episodes: u32,
}

/// The episode count a node resolves to.
pub open spec fn resolved_episodes(n: ChainNode) -> u32 {
    if n.raw_episodes == 0 {
        n.airing_episodes
    } else {
        n.raw_episodes
    }
}

/// The literal marker rule: the sequel continues the current season as a new
/// part exactly when both titles carry the same "Nth Season" marker.
pub open spec fn part_continues(cur: ChainNode, next: ChainNode) -> bool {
    (spec_contains(next.title@, "2nd Season"@) && spec_contains(cur.title@, "2nd Season"@)) || (
    spec_contains(next.title@, "3rd Season"@) && spec_contains(cur.title@, "3rd Season"@))
}

/// A sequel that is no new part opens a new season only when its raw episode
/// count is above the special threshold.
pub open spec fn starts_new_season(cur: ChainNode, next: ChainNode) -> bool {
    !part_continues(cur, next) && next.raw_episodes > SPECIAL_MAX_EPISODES
}

/// The timeline entries produced from `chain[i..]` when the walk stands at
/// `(season, part)`.
pub open spec fn spec_number_from(chain: Seq<ChainNode>, i: int, season: u32, part: u32) -> Seq<
    Season,
>
    decreases chain.len() - i,
{
    if i < 0 || i >= chain.len() {
        Seq::empty()
    } else {
        let node = chain[i];
        let here: Seq<Season> = if resolved_episodes(node) > SPECIAL_MAX_EPISODES {
            seq![
                Season {
                    title: node.title,
                    season: season,
                    part: part,
                    episodes: resolved_episodes(node),
                },
            ]
        } else {
            Seq::empty()
        };
        let rest: Seq<Season> = if i + 1 >= chain.len() {
            Seq::empty()
        } else if part_continues(node, chain[i + 1]) {
            spec_number_from(chain, i + 1, season, (part + 1) as u32)
        } else if starts_new_season(node, chain[i + 1]) {
            spec_number_from(chain, i + 1, (season + 1) as u32, 1u32)
        } else {
            spec_number_from(chain, i + 1, season, part)
        };
        here + rest
    }
}

/// The timeline entries of a whole chain, numbered from season 1, part 1.
pub open spec fn spec_number_chain(chain: Seq<ChainNode>) -> Seq<Season> {
    spec_number_from(chain, 0, 1, 1)
}

/// The summed resolved episode count of `chain[i..]`.
pub open spec fn resolved_total_from(chain: Seq<ChainNode>, i: int) -> int
    decreases chain.len() - i,
{
    if i < 0 || i >= chain.len() {
        0
    } else {
        resolved_episodes(chain[i]) + resolved_total_from(chain, i + 1)
    }
}

proof fn lemma_total_concat(a: Seq<Season>, b: Seq<Season>)
    ensures
        total_episodes(a + b) == total_episodes(a) + total_episodes(b),
    decreases b.len(),
{
    if b.len() == 0 {
        assert(a + b =~= a);
    } else {
        assert((a + b).drop_last() =~= a + b.drop_last());
        lemma_total_concat(a, b.drop_last());
    }
}

/// What the numbering emits never exceeds the chain's resolved totals.
proof fn lemma_number_total_le(chain: Seq<ChainNode>, i: int, season: u32, part: u32)
    ensures
        total_episodes(spec_number_from(chain, i, season, part)) <= if i < 0 {
            resolved_total_from(chain, 0)
        } else {
            resolved_total_from(chain, i)
        },
        total_episodes(spec_number_from(chain, i, season, part)) >= 0,
        resolved_total_from(chain, i) >= 0,
    decreases chain.len() - i,
{
    if 0 <= i < chain.len() {
        let node = chain[i];
        let here: Seq<Season> = if resolved_episodes(node) > SPECIAL_MAX_EPISODES {
            seq![
                Season {
                    title: node.title,
                    season: season,
                    part: part,
                    episodes: resolved_episodes(node),
                },
            ]
        } else {
            Seq::empty()
        };
        assert(0 <= total_episodes(here) <= resolved_episodes(node)) by {
            if resolved_episodes(node) > SPECIAL_MAX_EPISODES {
                let e = Season {
                    title: node.title,
                    season: season,
                    part: part,
                    episodes: resolved_episodes(node),
                };
                assert(here =~= seq![e]);
                assert(here.drop_last() =~= Seq::<Season>::empty());
                assert(here.last() == e);
                assert(total_episodes(here) == total_episodes(Seq::<Season>::empty())
                    + e.episodes);
            } else {
                assert(here =~= Seq::<Season>::empty());
            }
        }
        let rest: Seq<Season> = if i + 1 >= chain.len() {
            Seq::empty()
        } else if part_continues(node, chain[i + 1]) {
            spec_number_from(chain, i + 1, season, (part + 1) as u32)
        } else if starts_new_season(node, chain[i + 1]) {
            spec_number_from(chain, i + 1, (season + 1) as u32, 1u32)
        } else {
            spec_number_from(chain, i + 1, season, part)
        };
        assert(spec_number_from(chain, i, season, part) == here + rest);
        lemma_total_concat(here, rest);
        if i + 1 >= chain.len() {
            assert(rest =~= spec_number_from(chain, i + 1, season, part));
            lemma_number_total_le(chain, i + 1, season, part);
        } else if part_continues(node, chain[i + 1]) {
            lemma_number_total_le(chain, i + 1, season, (part + 1) as u32);
        } else if starts_new_season(node, chain[i + 1]) {
            lemma_number_total_le(chain, i + 1, (season + 1) as u32, 1u32);
        } else {
            lemma_number_total_le(chain, i + 1, season, part);
        }
        assert(total_episodes(rest) >= 0 && total_episodes(rest) <= resolved_total_from(
            chain,
            i + 1,
        ));
        assert(resolved_total_from(chain, i) == resolved_episodes(chain[i])
            + resolved_total_from(chain, i + 1));
    } else if i < 0 {
        lemma_number_total_le(chain, 0, season, part);
        assert(spec_number_from(chain, i, season, part) =~= Seq::<Season>::empty());
    }
}

/// Number the chain into raw timeline entries, before merging.
pub fn number_chain(chain: &Vec<ChainNode>) -> (r: Vec<Season>)
    requires
        chain@.len() < u32::MAX,
    ensures
        r@ == spec_number_chain(chain@),
{
    let n = chain.len();
    let mut out: Vec<Season> = Vec::new();
    let mut season: u32 = 1;
    let mut part: u32 = 1;
    let mut i: usize = 0;
    while i < n
        invariant
            n == chain@.len(),
            n < u32::MAX,
            i <= n,
            1 <= season <= i + 1,
            1 <= part <= i + 1,
            out@ + spec_number_from(chain@, i as int, season, part) =~= spec_number_chain(
                chain@,
            ),
        decreases n - i,
    {
        let ghost old_out = out@;
        let ghost s0 = season;
        let ghost p0 = part;
        let node = &chain[i];
        let resolved = if node.raw_episodes == 0 {
            node.airing_episodes
        } else {
            node.raw_episodes
        };
        let ghost here: Seq<Season> = if resolved_episodes(chain@[i as int])
            > SPECIAL_MAX_EPISODES {
            seq![
                Season {
                    title: chain@[i as int].title,
                    season: season,
                    part: part,
                    episodes: resolved_episodes(chain@[i as int]),
                },
            ]
        } else {
            Seq::empty()
        };
        if resolved > SPECIAL_MAX_EPISODES {
            out.push(
                Season { title: node.title.clone(), season: season, part: part, episodes: resolved },
            );
            proof {
                assert(out@ =~= old_out + here);
            }
        } else {
            proof {
                assert(out@ =~= old_out + here);
            }
        }
        if i + 1 < n {
            let next = &chain[i + 1];
            let cont = (contains_str(next.title.as_str(), "2nd Season") && contains_str(
                node.title.as_str(),
                "2nd Season",
            )) || (contains_str(next.title.as_str(), "3rd Season") && contains_str(
                node.title.as_str(),
                "3rd Season",
            ));
            proof {
                assert(part_continues(chain@[i as int], chain@[i + 1]) == cont);
            }
            if cont {
                part = part + 1;
            } else if next.raw_episodes > SPECIAL_MAX_EPISODES {
                season = season + 1;
                part = 1;
            }
            proof {
                assert(spec_number_from(chain@, i as int, s0, p0) == here + spec_number_from(
                    chain@,
                    i + 1,
                    season,
                    part,
                ));
                assert(old_out + (here + spec_number_from(chain@, i + 1, season, part))
                    =~= (old_out + here) + spec_number_from(chain@, i + 1, season, part));
            }
        } else {
            proof {
                assert(spec_number_from(chain@, i + 1, season, part) =~= Seq::<Season>::empty());
                assert(spec_number_from(chain@, i as int, s0, p0) =~= here
                    + Seq::<Season>::empty());
                assert((old_out + here) + Seq::<Season>::empty() =~= old_out + here);
            }
        }
        i += 1;
    }
    proof {
        assert(out@ + Seq::<Season>::empty() =~= out@);
    }
    out
}

/// Build the canonical timeline of a fetched chain: number it, then merge by
/// key. `None` exactly when a machine bound would be exceeded: the chain has
/// `u32::MAX` or more records, or its resolved episode counts sum beyond
/// `u32::MAX`.
pub fn build_timeline(chain: &Vec<ChainNode>) -> (r: Option<Vec<Season>>)
    ensures
        match r {
            Some(t) => merged_form(spec_number_chain(chain@), t@),
            None => chain@.len() >= u32::MAX || resolved_total_from(chain@, 0) > u32::MAX,
        },
{
    let n = chain.len();
    if n >= u32::MAX as usize {
        return None;
    }
    // Sum the resolved counts; each is below 2^32 and there are fewer than
    // 2^32 of them, so a 64-bit sum cannot overflow.
    let mut sum: u64 = 0;
    let mut i: usize = 0;
    while i < n
        invariant
            n == chain@.len(),
            n < u32::MAX,
            i <= n,
            sum + resolved_total_from(chain@, i as int) == resolved_total_from(chain@, 0),
            sum <= i * 0xffff_ffff,
        decreases n - i,
    {
        let node = &chain[i];
        let resolved = if node.raw_episodes == 0 {
            node.airing_episodes
        } else {
            node.raw_episodes
        };
        proof {
            assert(resolved == resolved_episodes(chain@[i as int]));
            assert(i * 0xffff_ffff + 0xffff_ffff == (i + 1) * 0xffff_ffff) by (nonlinear_arith);
            assert((i + 1) * 0xffff_ffff <= 0xffff_ffff * 0xffff_ffff) by (nonlinear_arith)
                requires
                    i + 1 <= 0xffff_ffffu64,
            ;
        }
        sum = sum + resolved as u64;
        i += 1;
    }
    if sum > u32::MAX as u64 {
        return None;
    }
    proof {
        lemma_number_total_le(chain@, 0, 1, 1);
    }
    let numbered = number_chain(chain);
    Some(merge_seasons(numbered))
}

/// What the sequel walk is waiting for.
#[derive(Debug, Clone, Copy, PartialEq, Eq, Structural)]
pub enum BuildPhase {
    /// The catalog record for `id` (title and raw episode count).
    NeedEntry { id: u32 },
    /// The airing-schedule episode count for `id`.
    NeedAiring { id: u32 },
    /// The relations of `id`, reduced to its sequel identifier if any.
    NeedRelations { id: u32 },
    /// The walk is over.
    Finished,
}

/// The fetch a driving loop must perform next.
#[derive(Debug, Clone, Copy, PartialEq, Eq, Structural)]
pub enum FetchRequest {
    Entry { id: u32 },
    Airing { id: u32 },
    Relations { id: u32 },
    Done,
}

/// The identifier a phase is about.
pub open spec fn phase_id(p: BuildPhase) -> u32 {
    match p {
        BuildPhase::NeedEntry { id } => id,
        BuildPhase::NeedAiring { id } => id,
        BuildPhase::NeedRelations { id } => id,
        BuildPhase::Finished => 0,
    }
}

/// The sequel-chain walk as a request/response machine. A driving loop asks
/// `next_request`, performs the fetch, and feeds back the plain values; any
/// fetch failure ends the walk with the records gathered so far. The chain
/// grows one node per catalog record, and `finish` numbers and merges it.
pub struct SeriesBuilder {
    pub chain: Vec<ChainNode>,
    pub phase: BuildPhase,
}

impl SeriesBuilder {
    /// Start a walk at the catalog record `start_id`.
    pub fn new(start_id: u32) -> (r: SeriesBuilder)
        ensures
            r.chain@.len() == 0,
            r.phase == (BuildPhase::NeedEntry { id: start_id }),
    {
        SeriesBuilder { chain: Vec::new(), phase: BuildPhase::NeedEntry { id: start_id } }
    }

    /// Which fetch to perform next.
    pub fn next_request(&self) -> (r: FetchRequest)
        ensures
            r == (match self.phase {
                BuildPhase::NeedEntry { id } => FetchRequest::Entry { id },
                BuildPhase::NeedAiring { id } => FetchRequest::Airing { id },
                BuildPhase::NeedRelations { id } => FetchRequest::Relations { id },
                BuildPhase::Finished => FetchRequest::Done,
            }),
    {
        match self.phase {
            BuildPhase::NeedEntry { id } => FetchRequest::Entry { id },
            BuildPhase::NeedAiring { id } => FetchRequest::Airing { id },
            BuildPhase::NeedRelations { id } => FetchRequest::Relations { id },
            BuildPhase::Finished => FetchRequest::Done,
        }
    }

    /// Absorb a fetched catalog record: it joins the chain, and a raw count
    /// of zero sends the walk to the airing schedule before the relations.
    pub fn feed_entry(&mut self, title: String, episodes: u32)
        requires
            (old(self).phase matches BuildPhase::NeedEntry { .. }),
        ensures
            final(self).chain@ == old(self).chain@.push(
                ChainNode { title: title, raw_episodes: episodes, airing_episodes: 0 },
            ),
            final(self).phase == (if episodes == 0 {
                BuildPhase::NeedAiring { id: phase_id(old(self).phase) }
            } else {
                BuildPhase::NeedRelations { id: phase_id(old(self).phase) }
            }),
    {
        let id = match self.phase {
            BuildPhase::NeedEntry { id } => id,
            _ => 0,
        };
        self.chain.push(ChainNode { title, raw_episodes: episodes, airing_episodes: 0 });
        self.phase = if episodes == 0 {
            BuildPhase::NeedAiring { id }
        } else {
            BuildPhase::NeedRelations { id }
        };
    }

    /// Absorb the airing-schedule count for the newest chain node.
    pub fn feed_airing(&mut self, episodes: u32)
        requires
            (old(self).phase matches BuildPhase::NeedAiring { .. }),
            old(self).chain@.len() > 0,
        ensures
            final(self).chain@ == old(self).chain@.update(
                old(self).chain@.len() - 1,
                ChainNode {
                    title: old(self).chain@.last().title,
                    raw_episodes: old(self).chain@.last().raw_episodes,
                    airing_episodes: episodes,
                },
            ),
            final(self).phase == (BuildPhase::NeedRelations { id: phase_id(old(self).phase) }),
    {
        let id = match self.phase {
            BuildPhase::NeedAiring { id } => id,
            _ => 0,
        };
        let k = self.chain.len() - 1;
        let node = ChainNode {
            title: self.chain[k].title.clone(),
            raw_episodes: self.chain[k].raw_episodes,
            airing_episodes: episodes,
        };
        self.chain.set(k, node);
        self.phase = BuildPhase::NeedRelations { id };
    }

    /// Absorb the sequel reference: none ends the walk, one continues it at
    /// the sequel's record.
    pub fn feed_sequel(&mut self, sequel: Option<u32>)
        requires
            (old(self).phase matches BuildPhase::NeedRelations { .. }),
        ensures
            final(self).chain@ == old(self).chain@,
            final(self).phase == (match sequel {
                None => BuildPhase::Finished,
                Some(id) => BuildPhase::NeedEntry { id },
            }),
    {
        self.phase = match sequel {
            None => BuildPhase::Finished,
            Some(id) => BuildPhase::NeedEntry { id },
        };
    }

    /// A failed fetch ends the walk; the records gathered so far stand.
    pub fn feed_failure(&mut self)
        ensures
            final(self).chain@ == old(self).chain@,
            final(self).phase == BuildPhase::Finished,
    {
        self.phase = BuildPhase::Finished;
    }

    /// The canonical timeline of the chain gathered so far.
    pub fn finish(&self) -> (r: Option<Vec<Season>>)
        ensures
            match r {
                Some(t) => merged_form(spec_number_chain(self.chain@), t@),
                None => self.chain@.len() >= u32::MAX || resolved_total_from(self.chain@, 0)
                    > u32::MAX,
            },
    {
        build_timeline(&self.chain)
    }
}

/// Closure of the numbered entries' keys: every key is the walk's starting
/// key, or opens a season at part 1, or has its predecessor part among the
/// entries; and parts never fall below 1. Holds when every chain node
/// resolves above the special threshold, so that every visited key is
/// recorded.
proof fn lemma_number_from_closure(chain: Seq<ChainNode>, i: int, season: u32, part: u32)
    requires
        0 <= i <= chain.len(),
        chain.len() < u32::MAX,
        1 <= season,
        1 <= part,
        season as int <= i + 1,
        part as int <= i + 1,
        forall|k: int| 0 <= k < chain.len() ==> resolved_episodes(#[trigger] chain[k])
            > SPECIAL_MAX_EPISODES,
    ensures
        i < chain.len() ==> has_key(
            spec_number_from(chain, i, season, part),
            season as int,
            part as int,
        ),
        forall|p: int|
            0 <= p < spec_number_from(chain, i, season, part).len() ==> 1 <= #[trigger] spec_number_from(
                chain,
                i,
                season,
                part,
            )[p].part,
        forall|p: int|
            0 <= p < spec_number_from(chain, i, season, part).len() ==> ((spec_number_from(
                chain,
                i,
                season,
                part,
            )[p].season == season && spec_number_from(chain, i, season, part)[p].part == part)
                || #[trigger] spec_number_from(chain, i, season, part)[p].part == 1 || has_key(
                spec_number_from(chain, i, season, part),
                spec_number_from(chain, i, season, part)[p].season as int,
                spec_number_from(chain, i, season, part)[p].part as int - 1,
            )),
    decreases chain.len() - i,
{
    if i < chain.len() {
        let node = chain[i];
        let e = Season {
            title: node.title,
            season: season,
            part: part,
            episodes: resolved_episodes(node),
        };
        let here = seq![e];
        assert(resolved_episodes(node) > SPECIAL_MAX_EPISODES);
        let t = spec_number_from(chain, i, season, part);
        if i + 1 >= chain.len() {
            assert(t == here + Seq::<Season>::empty());
            assert(t =~= here);
            assert(t[0] == e);
        } else {
            let next = chain[i + 1];
            let s2: u32 = if part_continues(node, next) {
                season
            } else if starts_new_season(node, next) {
                (season + 1) as u32
            } else {
                season
            };
            let p2: u32 = if part_continues(node, next) {
                (part + 1) as u32
            } else if starts_new_season(node, next) {
                1u32
            } else {
                part
            };
            let rest = spec_number_from(chain, i + 1, s2, p2);
            assert(t == here + rest);
            assert(t[0] == e);
            lemma_number_from_closure(chain, i + 1, s2, p2);
            assert(has_key(rest, s2 as int, p2 as int));
            // Every element of `rest` reappears in `t`, one slot later.
            assert forall|k: int| 0 <= k < rest.len() implies t[k + 1] == rest[k] by {}
            assert forall|se: int, pa: int| has_key(rest, se, pa) implies has_key(t, se, pa) by {
                let w = choose|w: int|
                    0 <= w < rest.len() && rest[w].season == se && rest[w].part == pa;
                assert(t[w + 1] == rest[w]);
            }
            assert forall|p: int| 0 <= p < t.len() implies {
                (t[p].season == season && t[p].part == part) || #[trigger] t[p].part == 1
                    || has_key(t, t[p].season as int, t[p].part as int - 1)
            } by {
                if p == 0 {
                    assert(t[0] == e);
                } else {
                    let q = p - 1;
                    assert(t[p] == rest[q]);
                    if (rest[q].season == s2 && rest[q].part == p2) {
                        if part_continues(node, next) {
                            assert(p2 as int == part + 1);
                            assert(has_key(t, season as int, part as int));
                        } else if starts_new_season(node, next) {
                            assert(p2 == 1);
                        } else {
                            assert(s2 == season && p2 == part);
                        }
                    } else if rest[q].part == 1 {
                    } else {
                        assert(has_key(rest, rest[q].season as int, rest[q].part as int - 1));
                    }
                }
            }
        }
    }
}

/// Of a timeline built from a chain of full-sized entries, the `(season,
/// part)` keys are pairwise distinct, and within each season the part
/// numbers are contiguous from 1: parts are at least 1, and every part above
/// 1 has its predecessor present.
pub proof fn lemma_timeline_keys(chain: Seq<ChainNode>, timeline: Seq<Season>)
    requires
        chain.len() < u32::MAX,
        forall|k: int| 0 <= k < chain.len() ==> resolved_episodes(#[trigger] chain[k])
            > SPECIAL_MAX_EPISODES,
        merged_form(spec_number_chain(chain), timeline),
    ensures
        forall|p: int, q: int|
            0 <= p < q < timeline.len() ==> !(timeline[p].season == timeline[q].season && (
            #[trigger] timeline[p]).part == (#[trigger] timeline[q]).part),
        forall|p: int| 0 <= p < timeline.len() ==> 1 <= #[trigger] timeline[p].part,
        forall|p: int|
            0 <= p < timeline.len() ==> #[trigger] timeline[p].part == 1 || has_key(
                timeline,
                timeline[p].season as int,
                timeline[p].part as int - 1,
            ),
{
    let numbered = spec_number_chain(chain);
    assert forall|p: int, q: int| 0 <= p < q < timeline.len() implies !(timeline[p].season
        == timeline[q].season && (#[trigger] timeline[p]).part == (
    #[trigger] timeline[q]).part) by {
        assert(key_lt(timeline[p], timeline[q]));
    }
    if chain.len() > 0 {
        lemma_number_from_closure(chain, 0, 1, 1);
    }
    assert forall|p: int| 0 <= p < timeline.len() implies 1 <= #[trigger] timeline[p].part by {
        assert(has_key(numbered, timeline[p].season as int, timeline[p].part as int));
        let w = choose|w: int|
            0 <= w < numbered.len() && numbered[w].season == timeline[p].season
                && numbered[w].part == timeline[p].part;
        assert(1 <= numbered[w].part);
    }
    assert forall|p: int| 0 <= p < timeline.len() implies #[trigger] timeline[p].part == 1
        || has_key(timeline, timeline[p].season as int, timeline[p].part as int - 1) by {
        if timeline[p].part != 1 {
            assert(has_key(numbered, timeline[p].season as int, timeline[p].part as int));
            let w = choose|w: int|
                0 <= w < numbered.len() && numbered[w].season == timeline[p].season
                    && numbered[w].part == timeline[p].part;
            assert((numbered[w].season == 1 && numbered[w].part == 1) || numbered[w].part == 1
                || has_key(numbered, numbered[w].season as int, numbered[w].part as int - 1));
            assert(has_key(numbered, timeline[p].season as int, timeline[p].part as int - 1));
            let v = choose|v: int|
                0 <= v < numbered.len() && numbered[v].season == timeline[p].season as int
                    && numbered[v].part == timeline[p].part as int - 1;
            assert(has_key(timeline, numbered[v].season as int, numbered[v].part as int));
        }
    }
}

} // verus!
