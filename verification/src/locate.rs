//! The episode locator: mapping a wanted (season, episode) pair onto a
//! timeline entry and a within-entry episode number.
//!
//! The locator finds the first entry of the wanted season. An episode within
//! that entry's count is local to it; a larger episode number overflows into
//! the next part of the same season (never into another season), with the
//! entry's count subtracted. When overflow runs past the last part, the last
//! examined entry's title and full count are returned as a low-confidence
//! fallback rather than a failure — callers must not treat it as an exact
//! hit.

use vstd::prelude::*;
use crate::timeline::Season;

verus! {

/// The first index at or after `i` whose entry has season `se`.
pub open spec fn first_season_from(t: Seq<Season>, se: int, i: int) -> Option<int>
    decreases t.len() - i,
{
    if i < 0 || i >= t.len() {
        None
    } else if t[i].season == se {
        Some(i)
    } else {
        first_season_from(t, se, i + 1)
    }
}

/// The first index whose entry has season `se` and part `pa`.
pub open spec fn first_part_from(t: Seq<Season>, se: int, pa: int, i: int) -> Option<int>
    decreases t.len() - i,
{
    if i < 0 || i >= t.len() {
        None
    } else if t[i].season == se && t[i].part == pa {
        Some(i)
    } else {
        first_part_from(t, se, pa, i + 1)
    }
}

/// Resolve episode `ep` against the entry at `idx` and, on overflow, the
/// following parts of the same season: the result is the title of the entry
/// the episode falls in together with the episode number local to it, or the
/// last part's title and full count when the overflow outruns the season.
pub open spec fn spec_locate_within(t: Seq<Season>, idx: int, ep: u32) -> (Seq<char>, u32)
    decreases u32::MAX - t[idx].part,
{
    if idx < 0 || idx >= t.len() {
        (Seq::empty(), 0)
    } else if ep <= t[idx].episodes {
        (t[idx].title@, ep)
    } else if t[idx].part == u32::MAX {
        (t[idx].title@, t[idx].episodes)
    } else {
        match first_part_from(t, t[idx].season as int, t[idx].part + 1, 0) {
            Some(j) => if 0 <= j < t.len() && t[j].part > t[idx].part {
                spec_locate_within(t, j, (ep - t[idx].episodes) as u32)
            } else {
                (t[idx].title@, t[idx].episodes)
            },
            None => (t[idx].title@, t[idx].episodes),
        }
    }
}

/// Where `locate` finds episode `ep` of season `se` on timeline `t`: `None`
/// exactly when no entry has season `se`.
pub open spec fn spec_locate(t: Seq<Season>, se: u32, ep: u32) -> Option<(Seq<char>, u32)> {
    match first_season_from(t, se as int, 0) {
        None => None,
        Some(i) => Some(spec_locate_within(t, i, ep)),
    }
}

/// Find the first entry at or after `from` with season `se` and part `pa`.
fn find_part(t: &Vec<Season>, se: u32, pa: u32) -> (r: Option<usize>)
    ensures
        match r {
            Some(j) => j < t@.len() && first_part_from(t@, se as int, pa as int, 0) == Some(
                j as int,
            ),
            None => (first_part_from(t@, se as int, pa as int, 0) is None),
        },
{
    let n = t.len();
    let mut i: usize = 0;
    while i < n
        invariant
            n == t@.len(),
            i <= n,
            first_part_from(t@, se as int, pa as int, 0) == first_part_from(
                t@,
                se as int,
                pa as int,
                i as int,
            ),
        decreases n - i,
    {
        if t[i].season == se && t[i].part == pa {
            return Some(i);
        }
        i += 1;
    }
    None
}

/// Locate episode `ep` of season `se` on the timeline: the entry's title and
/// the local episode number, `None` exactly when the season is absent.
pub fn locate(timeline: &Vec<Season>, wanted_season: u32, wanted_episode: u32) -> (r: Option<
    (String, u32),
>)
    ensures
        match r {
            Some(found) => spec_locate(timeline@, wanted_season, wanted_episode) == Some(
                (found.0@, found.1),
            ),
            None => (spec_locate(timeline@, wanted_season, wanted_episode) is None),
        },
{
    let n = timeline.len();
    let mut start: Option<usize> = None;
    let mut i: usize = 0;
    while i < n
        invariant_except_break
            n == timeline@.len(),
            i <= n,
            (start is None),
            first_season_from(timeline@, wanted_season as int, 0) == first_season_from(
                timeline@,
                wanted_season as int,
                i as int,
            ),
        ensures
            n == timeline@.len(),
            match start {
                Some(s) => s < n && first_season_from(timeline@, wanted_season as int, 0)
                    == Some(s as int),
                None => (first_season_from(timeline@, wanted_season as int, 0) is None),
            },
        decreases n - i,
    {
        if timeline[i].season == wanted_season {
            start = Some(i);
            break ;
        }
        i += 1;
    }
    let mut idx: usize = match start {
        Some(s) => s,
        None => {
            return None;
        },
    };
    let mut ep: u32 = wanted_episode;
    loop
        invariant
            n == timeline@.len(),
            idx < n,
            spec_locate(timeline@, wanted_season, wanted_episode) == Some(
                spec_locate_within(timeline@, idx as int, ep),
            ),
        ensures
            n == timeline@.len(),
            idx < n,
            ep <= timeline@[idx as int].episodes || spec_locate_within(
                timeline@,
                idx as int,
                ep,
            ) == (timeline@[idx as int].title@, timeline@[idx as int].episodes),
            ep <= timeline@[idx as int].episodes ==> spec_locate_within(
                timeline@,
                idx as int,
                ep,
            ) == (timeline@[idx as int].title@, ep),
        decreases u32::MAX - timeline@[idx as int].part,
    {
        let entry_episodes = timeline[idx].episodes;
        if ep <= entry_episodes {
            break ;
        }
        if timeline[idx].part == u32::MAX {
            break ;
        }
        let next = find_part(timeline, timeline[idx].season, timeline[idx].part + 1);
        match next {
            Some(j) => {
                if timeline[j].part > timeline[idx].part {
                    ep = ep - entry_episodes;
                    idx = j;
                } else {
                    break ;
                }
            },
            None => {
                break ;
            },
        }
    }
    let entry = &timeline[idx];
    if ep <= entry.episodes {
        Some((entry.title.clone(), ep))
    } else {
        Some((entry.title.clone(), entry.episodes))
    }
}

} // verus!
