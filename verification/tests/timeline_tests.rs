use subresolver::builder::{BuildPhase, FetchRequest, SeriesBuilder, build_timeline, ChainNode,
    number_chain};
use subresolver::timeline::{Season, merge_seasons};

fn season(title: &str, season: u32, part: u32, episodes: u32) -> Season {
    Season { title: title.to_string(), season, part, episodes }
}

#[test]
fn merge_sums_episode_counts_for_same_key() {
    let merged = merge_seasons(vec![
        season("First cour", 2, 1, 13),
        season("Second cour", 2, 1, 11),
    ]);
    assert_eq!(merged.len(), 1);
    assert_eq!(merged[0].episodes, 24);
    assert_eq!(merged[0].season, 2);
    assert_eq!(merged[0].part, 1);
    assert_eq!(merged[0].title, "First cour");
}

#[test]
fn merge_length_equals_distinct_keys() {
    let merged = merge_seasons(vec![
        season("a", 1, 1, 12),
        season("b", 2, 1, 13),
        season("c", 2, 1, 13),
        season("d", 2, 2, 11),
        season("e", 1, 1, 1),
    ]);
    assert_eq!(merged.len(), 3);
}

#[test]
fn merge_sorts_by_season_then_part() {
    let merged = merge_seasons(vec![
        season("late", 3, 1, 10),
        season("mid part two", 2, 2, 11),
        season("first", 1, 1, 12),
        season("mid", 2, 1, 13),
    ]);
    let keys: Vec<(u32, u32)> = merged.iter().map(|s| (s.season, s.part)).collect();
    assert_eq!(keys, vec![(1, 1), (2, 1), (2, 2), (3, 1)]);
}

#[test]
fn merge_of_empty_list_is_empty() {
    let merged = merge_seasons(Vec::new());
    assert!(merged.is_empty());
}

#[test]
fn number_chain_numbers_parts_and_seasons() {
    let chain = vec![
        ChainNode {
            title: "Show".to_string(),
            raw_episodes: 12,
            airing_episodes: 0,
        },
        ChainNode {
            title: "Show 2nd Season".to_string(),
            raw_episodes: 13,
            airing_episodes: 0,
        },
        ChainNode {
            title: "Show 2nd Season Part 2".to_string(),
            raw_episodes: 11,
            airing_episodes: 0,
        },
    ];
    let numbered = number_chain(&chain);
    let keys: Vec<(u32, u32)> = numbered.iter().map(|s| (s.season, s.part)).collect();
    assert_eq!(keys, vec![(1, 1), (2, 1), (2, 2)]);
}

#[test]
fn number_chain_skips_specials_without_advancing() {
    // The two-episode special is excluded and freezes the numbering; its
    // sequel opens the next season.
    let chain = vec![
        ChainNode {
            title: "Show".to_string(),
            raw_episodes: 12,
            airing_episodes: 0,
        },
        ChainNode {
            title: "Show Special".to_string(),
            raw_episodes: 2,
            airing_episodes: 0,
        },
        ChainNode {
            title: "Show Sequel".to_string(),
            raw_episodes: 24,
            airing_episodes: 0,
        },
    ];
    let numbered = number_chain(&chain);
    let keys: Vec<(u32, u32)> = numbered.iter().map(|s| (s.season, s.part)).collect();
    assert_eq!(keys, vec![(1, 1), (2, 1)]);
    assert_eq!(numbered[1].title, "Show Sequel");
}

#[test]
fn number_chain_uses_airing_count_when_raw_is_zero() {
    let chain = vec![ChainNode {
        title: "Airing Show".to_string(),
        raw_episodes: 0,
        airing_episodes: 7,
    }];
    let numbered = number_chain(&chain);
    assert_eq!(numbered.len(), 1);
    assert_eq!(numbered[0].episodes, 7);
}

#[test]
fn builder_walks_requests_in_order() {
    let mut b = SeriesBuilder::new(100);
    assert_eq!(b.next_request(), FetchRequest::Entry { id: 100 });
    b.feed_entry("Show".to_string(), 12);
    assert_eq!(b.next_request(), FetchRequest::Relations { id: 100 });
    b.feed_sequel(Some(200));
    assert_eq!(b.next_request(), FetchRequest::Entry { id: 200 });
    b.feed_entry("Show 2nd Season".to_string(), 0);
    assert_eq!(b.next_request(), FetchRequest::Airing { id: 200 });
    b.feed_airing(13);
    assert_eq!(b.next_request(), FetchRequest::Relations { id: 200 });
    b.feed_sequel(None);
    assert_eq!(b.next_request(), FetchRequest::Done);
    assert_eq!(b.phase, BuildPhase::Finished);

    // A sequel whose raw count is 0 (still airing) does not advance the
    // numbering: it folds into the current key as a continuing cour, and the
    // merge sums the two counts under the first-seen title.
    let timeline = b.finish().expect("bounds hold");
    let keys: Vec<(u32, u32)> = timeline.iter().map(|s| (s.season, s.part)).collect();
    assert_eq!(keys, vec![(1, 1)]);
    assert_eq!(timeline[0].episodes, 25);
    assert_eq!(timeline[0].title, "Show");
}

#[test]
fn builder_failure_keeps_gathered_records() {
    let mut b = SeriesBuilder::new(1);
    b.feed_entry("Show".to_string(), 12);
    b.feed_failure();
    assert_eq!(b.phase, BuildPhase::Finished);
    let timeline = b.finish().expect("bounds hold");
    assert_eq!(timeline.len(), 1);
    assert_eq!(timeline[0].title, "Show");
}

#[test]
fn build_timeline_rejects_overflowing_counts() {
    // Two records whose resolved counts sum past the 32-bit bound.
    let chain = vec![
        ChainNode { title: "a".to_string(), raw_episodes: u32::MAX, airing_episodes: 0 },
        ChainNode { title: "b".to_string(), raw_episodes: u32::MAX, airing_episodes: 0 },
    ];
    assert!(build_timeline(&chain).is_none());
}

#[test]
fn timeline_keys_unique_and_parts_contiguous() {
    // A synthetic catalog graph: every record resolves above the special
    // threshold, so keys come out pairwise distinct with parts contiguous
    // from 1 in each season.
    let chain = vec![
        ChainNode {
            title: "S 2nd Season".to_string(),
            raw_episodes: 10,
            airing_episodes: 0,
        },
        ChainNode {
            title: "S 2nd Season B".to_string(),
            raw_episodes: 0,
            airing_episodes: 11,
        },
        ChainNode {
            title: "S 3rd Season".to_string(),
            raw_episodes: 12,
            airing_episodes: 0,
        },
        ChainNode {
            title: "S 3rd Season Part 2".to_string(),
            raw_episodes: 13,
            airing_episodes: 0,
        },
    ];
    let timeline = build_timeline(&chain).expect("bounds hold");
    let keys: Vec<(u32, u32)> = timeline.iter().map(|s| (s.season, s.part)).collect();
    for (i, a) in keys.iter().enumerate() {
        for b in keys.iter().skip(i + 1) {
            assert_ne!(a, b);
        }
    }
    for &(se, pa) in &keys {
        assert!(pa >= 1);
        if pa > 1 {
            assert!(keys.contains(&(se, pa - 1)));
        }
    }
    assert_eq!(keys, vec![(1, 1), (1, 2), (2, 1), (2, 2)]);
}
