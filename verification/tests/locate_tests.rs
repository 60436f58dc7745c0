use subresolver::locate::locate;
use subresolver::timeline::Season;

fn fixture_timeline() -> Vec<Season> {
    vec![
        Season { title: "Show".to_string(), season: 1, part: 1, episodes: 12 },
        Season { title: "Show 2nd Season".to_string(), season: 2, part: 1, episodes: 13 },
        Season { title: "Show 2nd Season Part 2".to_string(), season: 2, part: 2, episodes: 11 },
    ]
}

#[test]
fn overflow_rolls_into_next_part() {
    let t = fixture_timeline();
    let (title, ep) = locate(&t, 2, 20).expect("season exists");
    assert_eq!(title, "Show 2nd Season Part 2");
    assert_eq!(ep, 7);
}

#[test]
fn episode_within_entry_stays_local() {
    let t = fixture_timeline();
    let (title, ep) = locate(&t, 1, 12).expect("season exists");
    assert_eq!(title, "Show");
    assert_eq!(ep, 12);
}

#[test]
fn episode_within_second_season_part_one() {
    let t = fixture_timeline();
    let (title, ep) = locate(&t, 2, 5).expect("season exists");
    assert_eq!(title, "Show 2nd Season");
    assert_eq!(ep, 5);
}

#[test]
fn overflow_past_last_part_falls_back_to_last_entry() {
    // The low-confidence fallback: 30 exceeds 13 + 11, so the last part's
    // title and full count come back instead of a failure.
    let t = fixture_timeline();
    let (title, ep) = locate(&t, 2, 30).expect("season exists");
    assert_eq!(title, "Show 2nd Season Part 2");
    assert_eq!(ep, 11);
}

#[test]
fn overflow_never_crosses_into_next_season() {
    let t = vec![
        Season { title: "Two".to_string(), season: 2, part: 1, episodes: 10 },
        Season { title: "Three".to_string(), season: 3, part: 1, episodes: 10 },
    ];
    let (title, ep) = locate(&t, 2, 15).expect("season exists");
    assert_eq!(title, "Two");
    assert_eq!(ep, 10);
}

#[test]
fn missing_season_is_reported() {
    let t = fixture_timeline();
    assert!(locate(&t, 4, 1).is_none());
    assert!(locate(&Vec::new(), 1, 1).is_none());
}
