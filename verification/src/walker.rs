//! The subtitle directory walker: classifying directory-listing entries and
//! deciding where to descend.
//!
//! A listing is walked entry by entry, in order, skipping the
//! parent-directory marker ".." and archive links. In the root listing an
//! entry that names the wanted language (code or full name) is a language
//! folder; an entry matching the "01 ~ N" range pattern covers episodes up
//! to N; an entry starting with a digit and containing the two-digit episode
//! number is a per-episode folder. Language folders yield the file matching
//! the episode number or language name; range folders hold language folders
//! one level deeper; per-episode folders yield files by language code or
//! episode prefix. The first entry with a decision wins; a listing with none
//! ends the walk empty-handed — "no subtitle" is an outcome, not an error.

use vstd::prelude::*;
use crate::digits::{is_digit, digits_val, run_end, all_digits, spec_two_digit};
use crate::digits::{scan_run_end, parse_digits, two_digit};
use crate::strings::{matches_at, spec_contains, spec_starts_with, spec_ends_with,
    spec_eq_ignore_case, lower_seq};
use crate::strings::{check_match_at, contains_str, starts_with_str, ends_with_str,
    eq_ignore_case, to_lower, str_eq};
use crate::parse::lemma_run_digits;

verus! {

/// One entry of a scraped directory listing.
#[derive(Debug, Clone, PartialEq, Eq)]
pub struct DirEntry {
    pub name: String,
    pub href: String,
}

/// The kind of page the walker is looking at.
#[derive(Debug, Clone, Copy, PartialEq, Eq, Structural)]
pub enum WalkState {
    Root,
    LanguageDir,
    RangeDir,
    EpisodeDir,
}

/// What the walker does with a whole listing: descend into an entry, take an
/// entry as the found file, or give up.
#[derive(Debug, Clone, PartialEq, Eq)]
pub enum WalkStep {
    Descend(WalkState, String),
    Found(String),
    NotFound,
}

/// What one entry means to the walker.
#[derive(Debug, Clone, Copy, PartialEq, Eq, Structural)]
pub enum Action {
    Descend(WalkState),
    Take,
    Skip,
}

/// The full language names the two-letter codes resolve to; an unrecognised
/// code passes through unchanged and is matched literally.
pub open spec fn spec_lang_full(code: Seq<char>) -> Seq<char> {
    let lc = lower_seq(code);
    if lc == "en"@ {
        "English"@
    } else if lc == "jp"@ {
        "Japanese"@
    } else if lc == "es"@ {
        "Spanish"@
    } else if lc == "fr"@ {
        "French"@
    } else if lc == "de"@ {
        "German"@
    } else if lc == "it"@ {
        "Italian"@
    } else if lc == "pt"@ {
        "Portuguese"@
    } else if lc == "ru"@ {
        "Russian"@
    } else if lc == "zh"@ {
        "Chinese"@
    } else {
        code
    }
}

/// Resolve a language code to its full name.
pub fn lang_full_name(code: &str) -> (r: String)
    ensures
        r@ == spec_lang_full(code@),
{
    let lc = to_lower(code);
    if str_eq(lc.as_str(), "en") {
        "English".to_owned()
    } else if str_eq(lc.as_str(), "jp") {
        "Japanese".to_owned()
    } else if str_eq(lc.as_str(), "es") {
        "Spanish".to_owned()
    } else if str_eq(lc.as_str(), "fr") {
        "French".to_owned()
    } else if str_eq(lc.as_str(), "de") {
        "German".to_owned()
    } else if str_eq(lc.as_str(), "it") {
        "Italian".to_owned()
    } else if str_eq(lc.as_str(), "pt") {
        "Portuguese".to_owned()
    } else if str_eq(lc.as_str(), "ru") {
        "Russian".to_owned()
    } else if str_eq(lc.as_str(), "zh") {
        "Chinese".to_owned()
    } else {
        code.to_owned()
    }
}

/// The episode-range marker, literally "01 ~ ".
pub open spec fn range_marker() -> Seq<char> {
    seq!['0', '1', ' ', '~', ' ']
}

/// The range pattern occurs at `i`: the marker followed by a digit.
pub open spec fn range_at(name: Seq<char>, i: int) -> bool {
    matches_at(name, range_marker(), i) && i + 5 < name.len() && is_digit(name[i + 5])
}

/// The first position at or after `i` where the range pattern occurs.
pub open spec fn first_range_from(name: Seq<char>, i: int) -> Option<int>
    decreases name.len() - i,
{
    if i < 0 || i >= name.len() {
        None
    } else if range_at(name, i) {
        Some(i)
    } else {
        first_range_from(name, i + 1)
    }
}

/// The upper bound named by the first "01 ~ N" occurrence: the digit run's
/// value, or 0 when it does not fit 32 bits; nothing when the pattern is
/// absent.
pub open spec fn spec_range_bound(name: Seq<char>) -> Option<u32> {
    match first_range_from(name, 0) {
        None => None,
        Some(i) => {
            let k = run_end(name, i + 5);
            let v = digits_val(name.subrange(i + 5, k));
            Some(
                if v <= u32::MAX {
                    v as u32
                } else {
                    0
                },
            )
        },
    }
}

/// Scan a directory name for the episode-range pattern and parse its bound.
pub fn range_bound(name: &str) -> (r: Option<u32>)
    ensures
        r == spec_range_bound(name@),
{
    proof {
        reveal_strlit("01 ~ ");
        assert("01 ~ "@ =~= range_marker());
    }
    let n = name.unicode_len();
    let mut i: usize = 0;
    while i < n
        invariant
            n == name@.len(),
            i <= n,
            "01 ~ "@ == range_marker(),
            first_range_from(name@, 0) == first_range_from(name@, i as int),
        decreases n - i,
    {
        if n - i > 5 {
            if check_match_at(name, "01 ~ ", i) {
                let c = name.get_char(i + 5);
                if '0' <= c && c <= '9' {
                    proof {
                        assert(range_at(name@, i as int));
                        lemma_run_digits(name@, i + 5);
                    }
                    let k = scan_run_end(name, i + 5);
                    proof {
                        assert(all_digits(name@.subrange(i + 5, k as int)));
                    }
                    let v = parse_digits(name, i + 5, k);
                    match v {
                        Some(b) => {
                            return Some(b);
                        },
                        None => {
                            return Some(0);
                        },
                    }
                } else {
                    proof {
                        assert(!range_at(name@, i as int));
                    }
                }
            } else {
                proof {
                    assert(!range_at(name@, i as int));
                }
            }
        } else {
            proof {
                assert(!matches_at(name@, range_marker(), i as int) || !(i + 5 < name@.len()));
                assert(!range_at(name@, i as int));
            }
        }
        i += 1;
    }
    None
}

/// An entry the walker may consider at all: not the parent marker, not an
/// archive.
pub open spec fn entry_usable(name: Seq<char>, href: Seq<char>) -> bool {
    name != ".."@ && !spec_ends_with(href, ".7z"@)
}

/// What one entry means in the given state. The rules are ordered; the first
/// that applies decides.
pub open spec fn classify(state: WalkState, name: Seq<char>, episode: u32, lang: Seq<char>) -> Action {
    match state {
        WalkState::Root => {
            if spec_eq_ignore_case(name, lang) || spec_eq_ignore_case(name, spec_lang_full(lang)) {
                Action::Descend(WalkState::LanguageDir)
            } else if spec_range_bound(name) matches Some(b) && episode <= b {
                Action::Descend(WalkState::RangeDir)
            } else if name.len() > 0 && is_digit(name[0]) && spec_contains(
                name,
                spec_two_digit(episode as int),
            ) {
                Action::Descend(WalkState::EpisodeDir)
            } else {
                Action::Skip
            }
        },
        WalkState::LanguageDir => {
            if spec_contains(name, spec_two_digit(episode as int)) || spec_contains(
                name,
                spec_lang_full(lang),
            ) {
                Action::Take
            } else {
                Action::Skip
            }
        },
        WalkState::RangeDir => {
            if spec_contains(name, spec_two_digit(episode as int)) || spec_contains(
                name,
                spec_lang_full(lang),
            ) {
                Action::Descend(WalkState::LanguageDir)
            } else {
                Action::Skip
            }
        },
        WalkState::EpisodeDir => {
            if spec_eq_ignore_case(name, lang) || spec_eq_ignore_case(name, spec_lang_full(lang)) {
                Action::Descend(WalkState::LanguageDir)
            } else if spec_contains(name, lang) {
                Action::Take
            } else if spec_starts_with(name, spec_two_digit(episode as int)) {
                Action::Take
            } else {
                Action::Skip
            }
        },
    }
}

/// Classify one entry, executable form.
pub fn classify_entry(state: WalkState, name: &str, episode: u32, language: &str) -> (r: Action)
    ensures
        r == classify(state, name@, episode, language@),
{
    let two = two_digit(episode);
    let full = lang_full_name(language);
    match state {
        WalkState::Root => {
            if eq_ignore_case(name, language) || eq_ignore_case(name, full.as_str()) {
                Action::Descend(WalkState::LanguageDir)
            } else {
                let rb = range_bound(name);
                let range_ok = match rb {
                    Some(b) => episode <= b,
                    None => false,
                };
                if range_ok {
                    Action::Descend(WalkState::RangeDir)
                } else {
                    let n = name.unicode_len();
                    let mut digit_start = false;
                    if n > 0 {
                        let c = name.get_char(0);
                        digit_start = '0' <= c && c <= '9';
                    }
                    if digit_start && contains_str(name, two.as_str()) {
                        Action::Descend(WalkState::EpisodeDir)
                    } else {
                        Action::Skip
                    }
                }
            }
        },
        WalkState::LanguageDir => {
            if contains_str(name, two.as_str()) || contains_str(name, full.as_str()) {
                Action::Take
            } else {
                Action::Skip
            }
        },
        WalkState::RangeDir => {
            if contains_str(name, two.as_str()) || contains_str(name, full.as_str()) {
                Action::Descend(WalkState::LanguageDir)
            } else {
                Action::Skip
            }
        },
        WalkState::EpisodeDir => {
            if eq_ignore_case(name, language) || eq_ignore_case(name, full.as_str()) {
                Action::Descend(WalkState::LanguageDir)
            } else if contains_str(name, language) {
                Action::Take
            } else if starts_with_str(name, two.as_str()) {
                Action::Take
            } else {
                Action::Skip
            }
        },
    }
}

/// A listing reduced to its mathematical content: each entry's name and
/// reference.
pub open spec fn dir_pairs(entries: Seq<DirEntry>) -> Seq<(Seq<char>, Seq<char>)> {
    entries.map_values(|e: DirEntry| (e.name@, e.href@))
}

/// The first usable entry with a decision, scanning from `i`.
pub open spec fn first_hit_from(
    state: WalkState,
    entries: Seq<(Seq<char>, Seq<char>)>,
    episode: u32,
    lang: Seq<char>,
    i: int,
) -> Option<int>
    decreases entries.len() - i,
{
    if i < 0 || i >= entries.len() {
        None
    } else if entry_usable(entries[i].0, entries[i].1) && !(classify(
        state,
        entries[i].0,
        episode,
        lang,
    ) is Skip) {
        Some(i)
    } else {
        first_hit_from(state, entries, episode, lang, i + 1)
    }
}

/// The decision `r` is the one the listing `entries` yields: the first
/// usable entry with a decision is followed or taken, and its reference is
/// handed back; a listing without one yields `NotFound`.
pub open spec fn walk_step_describes(
    state: WalkState,
    entries: Seq<(Seq<char>, Seq<char>)>,
    episode: u32,
    lang: Seq<char>,
    r: WalkStep,
) -> bool {
    match r {
        WalkStep::NotFound => first_hit_from(state, entries, episode, lang, 0) is None,
        WalkStep::Descend(s2, href) => first_hit_from(state, entries, episode, lang, 0)
            matches Some(i) && classify(state, entries[i].0, episode, lang) == (Action::Descend(
            s2,
        )) && href@ == entries[i].1,
        WalkStep::Found(href) => first_hit_from(state, entries, episode, lang, 0) matches Some(i)
            && classify(state, entries[i].0, episode, lang) == Action::Take && href@
            == entries[i].1,
    }
}

/// Walk one listing: the decision of the first usable entry that has one.
pub fn walk_step(state: WalkState, entries: &Vec<DirEntry>, episode: u32, language: &str) -> (r:
    WalkStep)
    ensures
        walk_step_describes(state, dir_pairs(entries@), episode, language@, r),
{
    let n = entries.len();
    let mut i: usize = 0;
    while i < n
        invariant
            n == entries@.len(),
            i <= n,
            first_hit_from(state, dir_pairs(entries@), episode, language@, 0)
                == first_hit_from(state, dir_pairs(entries@), episode, language@, i as int),
        decreases n - i,
    {
        let entry = &entries[i];
        let usable = !str_eq(entry.name.as_str(), "..") && !ends_with_str(
            entry.href.as_str(),
            ".7z",
        );
        if usable {
            let action = classify_entry(state, entry.name.as_str(), episode, language);
            match action {
                Action::Descend(s2) => {
                    return WalkStep::Descend(s2, entry.href.clone());
                },
                Action::Take => {
                    return WalkStep::Found(entry.href.clone());
                },
                Action::Skip => {},
            }
        }
        i += 1;
    }
    WalkStep::NotFound
}

} // verus!
