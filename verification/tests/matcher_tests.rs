use subresolver::matcher::{best_match, find_indicator, generate_variants, levenshtein,
    match_score, ordinal, roman_numeral, select_listing, similarity, ListingTitle};

#[test]
fn indicator_is_the_last_number_or_roman_token() {
    assert_eq!(find_indicator("Example Show 2"), Some("2".to_string()));
    assert_eq!(find_indicator("Example Show II"), Some("II".to_string()));
    assert_eq!(find_indicator("3 Show II"), Some("II".to_string()));
    assert_eq!(find_indicator("Example Show"), None);
    assert_eq!(find_indicator("2nd Season"), None);
}

#[test]
fn levenshtein_classic_example() {
    assert_eq!(levenshtein("kitten", "sitting"), 3);
    assert_eq!(levenshtein("", "abc"), 3);
    assert_eq!(levenshtein("abc", ""), 3);
    assert_eq!(levenshtein("abc", "abc"), 0);
}

#[test]
fn similarity_is_scaled_to_thousandths() {
    assert_eq!(similarity("abcd", "abcd"), 1000);
    // distance 1 over the longer length 4: 1000 - 250.
    assert_eq!(similarity("abcd", "abc"), 750);
    assert_eq!(similarity("", ""), 1000);
    assert_eq!(similarity("ab", ""), 0);
}

#[test]
fn roman_and_ordinal_forms() {
    assert_eq!(roman_numeral(2), "II");
    assert_eq!(roman_numeral(4), "IV");
    assert_eq!(roman_numeral(9), "IX");
    assert_eq!(ordinal(1), "1st");
    assert_eq!(ordinal(2), "2nd");
    assert_eq!(ordinal(3), "3rd");
    assert_eq!(ordinal(4), "4th");
    assert_eq!(ordinal(11), "11th");
    assert_eq!(ordinal(22), "22nd");
}

#[test]
fn season_one_generates_only_the_bare_title() {
    let vs = generate_variants("Example Show", 1);
    assert_eq!(vs, vec!["Example Show".to_string()]);
}

#[test]
fn season_two_generates_the_decorated_forms() {
    let vs = generate_variants("Example Show", 2);
    assert_eq!(
        vs,
        vec![
            "Example Show 2".to_string(),
            "Example Show Season 2".to_string(),
            "Example Show S2".to_string(),
            "Example Show 2nd Season".to_string(),
            "Example Show II".to_string(),
            "Example Show Season II".to_string(),
        ]
    );
}

#[test]
fn large_seasons_drop_the_roman_forms() {
    let vs = generate_variants("Example Show", 12);
    assert_eq!(
        vs,
        vec![
            "Example Show 12".to_string(),
            "Example Show Season 12".to_string(),
            "Example Show S12".to_string(),
            "Example Show 12th Season".to_string(),
        ]
    );
}

#[test]
fn exact_variant_match_with_indicator_scores_full() {
    // similarity 1000 + bonus 200, clamped to 1000.
    assert_eq!(match_score("Example Show 2", "Example Show 2"), 1000);
}

#[test]
fn missing_indicator_penalty_applies() {
    // Identical strings without any season indicator: 1000 - 500 = 500.
    assert_eq!(match_score("Example Show", "Example Show"), 500);
}

#[test]
fn missing_token_penalty_applies() {
    // The candidate's extra token "Myth" is absent from the variant: the
    // similarity 1000 - 1000*5/12 = 584 loses 500 for the missing indicator
    // and 300 for the uncovered token, clamped to 0.
    assert_eq!(match_score("Familia", "Familia Myth"), 0);
}

#[test]
fn roman_numeral_candidate_beats_undecorated_one() {
    let candidates = vec!["Example Show II".to_string(), "Example Show".to_string()];
    let (winner, score) = best_match("Example Show", 2, &candidates);
    assert_eq!(winner, "Example Show II");
    let (_, alone_ii) = best_match("Example Show", 2, &vec!["Example Show II".to_string()]);
    let (_, alone_bare) = best_match("Example Show", 2, &vec!["Example Show".to_string()]);
    assert!(alone_ii > alone_bare);
    assert_eq!(score, alone_ii);
}

#[test]
fn best_match_is_deterministic() {
    let candidates = vec![
        "Example Show II".to_string(),
        "Example Show 2".to_string(),
        "Another Title".to_string(),
    ];
    let first = best_match("Example Show", 2, &candidates);
    let second = best_match("Example Show", 2, &candidates);
    assert_eq!(first.0, second.0);
    assert_eq!(first.1, second.1);
}

#[test]
fn empty_candidate_list_yields_empty_title_and_zero() {
    let (winner, score) = best_match("Example Show", 2, &Vec::new());
    assert_eq!(winner, "");
    assert_eq!(score, 0);
}

#[test]
fn hopeless_candidates_yield_empty_title_and_zero() {
    let (winner, score) = best_match("abc", 1, &vec!["xyz".to_string()]);
    assert_eq!(winner, "");
    assert_eq!(score, 0);
}

#[test]
fn select_listing_returns_first_page_with_winning_title() {
    let pages = vec![
        ListingTitle {
            display_title: "Example Show".to_string(),
            page_link: "/bare".to_string(),
        },
        ListingTitle {
            display_title: "Example Show II".to_string(),
            page_link: "/two".to_string(),
        },
        ListingTitle {
            display_title: "Example Show II".to_string(),
            page_link: "/two-again".to_string(),
        },
    ];
    let chosen = select_listing("Example Show", 2, &pages).expect("a listing matches");
    assert_eq!(chosen.display_title, "Example Show II");
    assert_eq!(chosen.page_link, "/two");
}

#[test]
fn select_listing_of_empty_list_is_none() {
    assert!(select_listing("Example Show", 2, &Vec::new()).is_none());
}
