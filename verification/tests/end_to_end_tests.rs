//! The resolution flow end to end against fixture pages: from a loosely
//! formatted request to the exact relative link of the subtitle file. The
//! network download of the found link is infrastructure outside the library
//! and is not exercised here.

use subresolver::builder::{FetchRequest, SeriesBuilder};
use subresolver::catalog::{entry_summary_from_page, preferred_id_from_page, sequel_id_from_page};
use subresolver::locate::locate;
use subresolver::matcher::ListingTitle;
use subresolver::parse::{extract_season_episode, file_extension};
use subresolver::scrape::{select_listing_from_page, subtitle_index_link, walk_page};
use subresolver::walker::{WalkState, WalkStep};

fn catalog_page(id: u32) -> &'static str {
    match id {
        100 => r#"{"data":{"title":"Sample Anime","episodes":12}}"#,
        200 => r#"{"data":{"title":"Sample Anime 2nd Season","episodes":13}}"#,
        _ => "{}",
    }
}

fn relations_page(id: u32) -> &'static str {
    match id {
        100 => r#"{"data":[{"relation":"Sequel","entry":[{"mal_id":200}]}]}"#,
        _ => r#"{"data":[]}"#,
    }
}

#[test]
fn resolve_sample_anime_2x05_to_the_english_subtitle_link() {
    // The caller's request.
    let (wanted_season, wanted_episode) =
        extract_season_episode("2x05").expect("the identifier parses");
    assert_eq!((wanted_season, wanted_episode), (2, 5));

    // The catalog search names the starting record.
    let search_body = r#"{"data":[{"mal_id":100,"type":"TV"}]}"#;
    let start_id = preferred_id_from_page(search_body).expect("a hit exists");
    assert_eq!(start_id, 100);

    // Walk the sequel chain through fixture answers.
    let mut builder = SeriesBuilder::new(start_id as u32);
    loop {
        match builder.next_request() {
            FetchRequest::Entry { id } => match entry_summary_from_page(catalog_page(id)) {
                Some((title, episodes)) => builder.feed_entry(title, episodes),
                None => builder.feed_failure(),
            },
            FetchRequest::Airing { id } => {
                let _ = id;
                builder.feed_airing(0);
            },
            FetchRequest::Relations { id } => {
                builder.feed_sequel(sequel_id_from_page(relations_page(id)));
            },
            FetchRequest::Done => break,
        }
    }
    let timeline = builder.finish().expect("bounds hold");
    assert_eq!(timeline.len(), 2);

    // The locator names the display title and the local episode.
    let (display_title, local_episode) =
        locate(&timeline, wanted_season, wanted_episode).expect("season 2 exists");
    assert_eq!(display_title, "Sample Anime 2nd Season");
    assert_eq!(local_episode, 5);

    // The matcher picks the host page for that title.
    let search_page = r#"<html><body>
        <article><h2><a href="/anime/sample-anime/">Sample Anime</a></h2></article>
        <article><h2><a href="/anime/sample-anime-2nd-season/">Sample Anime 2nd Season</a></h2></article>
    </body></html>"#;
    let listing: ListingTitle =
        select_listing_from_page(search_page, display_title.as_str(), wanted_season)
            .expect("a listing matches");
    assert_eq!(listing.page_link, "/anime/sample-anime-2nd-season/");

    // The series page names its subtitle index.
    let series_page = r#"<html><body><div id="menu0">
        <a href="/anime/sample-anime-2nd-season/">Home</a>
        <a href="/subs/sample-anime-2nd-season/">Subtitles</a>
    </div></body></html>"#;
    let index_link = subtitle_index_link(series_page);
    assert_eq!(index_link, "/subs/sample-anime-2nd-season/");

    // The walker descends the index: a language folder, then the file.
    let root_page = r#"<html><body><div id="directory-listing">
        <li data-name=".." data-href="../"></li>
        <li data-name="English" data-href="english/"></li>
        <li data-name="Spanish" data-href="spanish/"></li>
    </div></body></html>"#;
    let step = walk_page(WalkState::Root, root_page, local_episode, "en");
    assert_eq!(step, WalkStep::Descend(WalkState::LanguageDir, "english/".to_string()));

    let language_page = r#"<html><body><div id="directory-listing">
        <li data-name=".." data-href="../"></li>
        <li data-name="Sample Anime 2nd Season - 05.ass" data-href="english/sample05.ass"></li>
    </div></body></html>"#;
    let step = walk_page(WalkState::LanguageDir, language_page, local_episode, "en");
    assert_eq!(step, WalkStep::Found("english/sample05.ass".to_string()));

    // The found relative link is handed to the download step, named by its
    // extension.
    match step {
        WalkStep::Found(link) => {
            assert_eq!(file_extension(link.as_str()), "ass");
        },
        _ => unreachable!(),
    }
}
