use subresolver::catalog::{entry_summary_from_page, preferred_id_from_page, sequel_id_from_page};
use subresolver::scrape::{select_listing_from_page, subtitle_index_link, walk_page};
use subresolver::walker::{WalkState, WalkStep};

#[test]
fn search_answer_prefers_tv_hits() {
    let body = r#"{"data":[{"mal_id":10,"type":"Movie"},{"mal_id":20,"type":"TV"},{"mal_id":30,"type":"ONA"}]}"#;
    assert_eq!(preferred_id_from_page(body), Some(20));
}

#[test]
fn search_answer_falls_back_to_first_hit() {
    let body = r#"{"data":[{"mal_id":10,"type":"Movie"},{"mal_id":20,"type":"Special"}]}"#;
    assert_eq!(preferred_id_from_page(body), Some(10));
}

#[test]
fn search_answer_without_data_is_nothing() {
    assert_eq!(preferred_id_from_page("not json"), None);
    assert_eq!(preferred_id_from_page(r#"{"data":{}}"#), None);
    assert_eq!(preferred_id_from_page(r#"{"data":[]}"#), None);
}

#[test]
fn record_answer_yields_title_and_count() {
    let body = r#"{"data":{"title":"Sample Anime","episodes":12}}"#;
    assert_eq!(entry_summary_from_page(body), Some(("Sample Anime".to_string(), 12)));
}

#[test]
fn record_answer_defaults_missing_fields() {
    let body = r#"{"data":{"episodes":null}}"#;
    assert_eq!(entry_summary_from_page(body), Some(("Unknown Title".to_string(), 0)));
    assert_eq!(entry_summary_from_page("not json"), None);
}

#[test]
fn relations_answer_names_the_sequel() {
    let body = r#"{"data":[{"relation":"Adaptation","entry":[{"mal_id":5}]},{"relation":"Sequel","entry":[{"mal_id":30}]}]}"#;
    assert_eq!(sequel_id_from_page(body), Some(30));
}

#[test]
fn relations_answer_without_sequel_is_nothing() {
    let body = r#"{"data":[{"relation":"Adaptation","entry":[{"mal_id":5}]}]}"#;
    assert_eq!(sequel_id_from_page(body), None);
    let missing_id = r#"{"data":[{"relation":"Sequel","entry":[]}]}"#;
    assert_eq!(sequel_id_from_page(missing_id), None);
}

#[test]
fn menu_page_names_the_subtitle_index() {
    let body = r#"<html><body>
        <div id="menu0">
            <a href="/about">About</a>
            <a href="/subs/sample-anime/">Subtitles</a>
            <a href="/more">Subtitles and more</a>
        </div>
    </body></html>"#;
    assert_eq!(subtitle_index_link(body), "/subs/sample-anime/");
}

#[test]
fn menu_page_without_subtitles_link_yields_empty() {
    let body = r#"<html><body><div id="menu0"><a href="/about">About</a></div></body></html>"#;
    assert_eq!(subtitle_index_link(body), "");
    assert_eq!(subtitle_index_link("<html></html>"), "");
}

#[test]
fn search_page_listings_feed_the_matcher() {
    let body = r#"<html><body>
        <article><h2><a href="/anime/sample">Sample Anime</a></h2></article>
        <article><h2><a href="/anime/sample-2">Sample Anime 2nd Season</a></h2></article>
    </body></html>"#;
    let chosen = select_listing_from_page(body, "Sample Anime 2nd Season", 1)
        .expect("a listing matches");
    assert_eq!(chosen.display_title, "Sample Anime 2nd Season");
    assert_eq!(chosen.page_link, "/anime/sample-2");
}

#[test]
fn directory_page_classifies_language_folders() {
    let body = r#"<html><body><div id="directory-listing">
        <li data-name=".." data-href="../"></li>
        <li data-name="French" data-href="french/"></li>
        <li data-name="English" data-href="english/"></li>
    </div></body></html>"#;
    let step = walk_page(WalkState::Root, body, 5, "fr");
    assert_eq!(step, WalkStep::Descend(WalkState::LanguageDir, "french/".to_string()));
}

#[test]
fn directory_page_without_listing_is_not_found() {
    assert_eq!(walk_page(WalkState::Root, "<html></html>", 5, "en"), WalkStep::NotFound);
}
