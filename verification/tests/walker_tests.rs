use subresolver::digits::two_digit;
use subresolver::parse::{extract_season_episode, file_extension};
use subresolver::walker::{classify_entry, lang_full_name, range_bound, walk_step, Action,
    DirEntry, WalkState, WalkStep};

fn entry(name: &str, href: &str) -> DirEntry {
    DirEntry { name: name.to_string(), href: href.to_string() }
}

#[test]
fn root_descends_into_full_language_name() {
    let entries = vec![entry("..", "#"), entry("French", "french/"), entry("English", "english/")];
    let step = walk_step(WalkState::Root, &entries, 5, "fr");
    assert_eq!(step, WalkStep::Descend(WalkState::LanguageDir, "french/".to_string()));
}

#[test]
fn root_descends_into_covering_range() {
    let entries = vec![entry("01 ~ 12", "a/"), entry("13 ~ 24", "b/")];
    let step = walk_step(WalkState::Root, &entries, 5, "en");
    assert_eq!(step, WalkStep::Descend(WalkState::RangeDir, "a/".to_string()));
}

#[test]
fn root_skips_range_below_wanted_episode() {
    let entries = vec![entry("01 ~ 12", "a/"), entry("13 ~ 24", "b/")];
    // Episode 13 is past the first range; the second entry has no "01 ~ "
    // marker and "13 ~ 24" does contain the two-digit episode "13", so the
    // digit-led entry is treated as a per-episode folder.
    let step = walk_step(WalkState::Root, &entries, 13, "en");
    assert_eq!(step, WalkStep::Descend(WalkState::EpisodeDir, "b/".to_string()));
}

#[test]
fn root_descends_into_episode_folder() {
    let entries = vec![entry("05v2 release", "e/")];
    let step = walk_step(WalkState::Root, &entries, 5, "en");
    assert_eq!(step, WalkStep::Descend(WalkState::EpisodeDir, "e/".to_string()));
}

#[test]
fn root_without_a_decision_is_not_found() {
    let entries = vec![entry("..", "#"), entry("notes.txt", "n")];
    assert_eq!(walk_step(WalkState::Root, &entries, 5, "en"), WalkStep::NotFound);
}

#[test]
fn archives_and_parent_are_skipped() {
    let entries = vec![entry("English", "english.7z"), entry("English", "english/")];
    let step = walk_step(WalkState::Root, &entries, 5, "en");
    assert_eq!(step, WalkStep::Descend(WalkState::LanguageDir, "english/".to_string()));
}

#[test]
fn language_dir_takes_matching_file() {
    let entries = vec![
        entry("readme", "r"),
        entry("Show - 05.ass", "subs/show05.ass"),
    ];
    let step = walk_step(WalkState::LanguageDir, &entries, 5, "en");
    assert_eq!(step, WalkStep::Found("subs/show05.ass".to_string()));
}

#[test]
fn language_dir_takes_file_by_language_name() {
    let entries = vec![entry("Show [English].ass", "subs/en.ass")];
    let step = walk_step(WalkState::LanguageDir, &entries, 99, "en");
    assert_eq!(step, WalkStep::Found("subs/en.ass".to_string()));
}

#[test]
fn range_dir_descends_one_level_deeper() {
    let entries = vec![entry("English", "deeper/")];
    let step = walk_step(WalkState::RangeDir, &entries, 5, "en");
    assert_eq!(step, WalkStep::Descend(WalkState::LanguageDir, "deeper/".to_string()));
}

#[test]
fn episode_dir_descends_into_language_folder() {
    let entries = vec![entry("ENGLISH", "lang/")];
    let step = walk_step(WalkState::EpisodeDir, &entries, 5, "en");
    assert_eq!(step, WalkStep::Descend(WalkState::LanguageDir, "lang/".to_string()));
}

#[test]
fn episode_dir_takes_file_with_language_code() {
    let entries = vec![entry("show-en.srt", "f.srt")];
    let step = walk_step(WalkState::EpisodeDir, &entries, 5, "en");
    assert_eq!(step, WalkStep::Found("f.srt".to_string()));
}

#[test]
fn episode_dir_takes_file_with_episode_prefix() {
    let entries = vec![entry("05 subtitle.srt", "g.srt")];
    let step = walk_step(WalkState::EpisodeDir, &entries, 5, "fi");
    assert_eq!(step, WalkStep::Found("g.srt".to_string()));
}

#[test]
fn classify_follows_rule_order() {
    assert_eq!(classify_entry(WalkState::Root, "fr", 5, "fr"), Action::Descend(
        WalkState::LanguageDir,
    ));
    assert_eq!(classify_entry(WalkState::Root, "01 ~ 24", 5, "fr"), Action::Descend(
        WalkState::RangeDir,
    ));
    assert_eq!(classify_entry(WalkState::Root, "other", 5, "fr"), Action::Skip);
}

#[test]
fn range_bound_parses_the_upper_bound() {
    assert_eq!(range_bound("01 ~ 12"), Some(12));
    assert_eq!(range_bound("Subs 01 ~ 361"), Some(361));
    assert_eq!(range_bound("13 ~ 24"), None);
    assert_eq!(range_bound("01 ~ x"), None);
    // A bound too large for 32 bits parses as 0, covering no episode.
    assert_eq!(range_bound("01 ~ 99999999999999"), Some(0));
}

#[test]
fn language_codes_resolve_to_full_names() {
    assert_eq!(lang_full_name("en"), "English");
    assert_eq!(lang_full_name("FR"), "French");
    assert_eq!(lang_full_name("zh"), "Chinese");
    assert_eq!(lang_full_name("fi"), "fi");
}

#[test]
fn two_digit_pads_to_two_places() {
    assert_eq!(two_digit(5), "05");
    assert_eq!(two_digit(12), "12");
    assert_eq!(two_digit(0), "00");
    assert_eq!(two_digit(123), "123");
}

#[test]
fn season_episode_strings_parse() {
    assert_eq!(extract_season_episode("2x05"), Some((2, 5)));
    assert_eq!(extract_season_episode("1x13"), Some((1, 13)));
    assert_eq!(extract_season_episode("episode 12x34 dub"), Some((12, 34)));
    assert_eq!(extract_season_episode("1x2x3"), Some((1, 2)));
    assert_eq!(extract_season_episode("no match"), None);
    assert_eq!(extract_season_episode("x1"), None);
    assert_eq!(extract_season_episode("99999999999x1"), None);
}

#[test]
fn file_extensions_come_after_the_last_dot() {
    assert_eq!(file_extension("subtitle.en.srt"), "srt");
    assert_eq!(file_extension("archive.ass"), "ass");
    assert_eq!(file_extension("noext"), "noext");
    assert_eq!(file_extension(""), "");
}
