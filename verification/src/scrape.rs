//! Reading the content host's HTML pages.
//!
//! The host serves three page shapes: search results (articles whose heading
//! links carry listing titles), a series page (a menu whose "Subtitles" link
//! names the subtitle index), and directory listings (list items carrying
//! data-name and data-href attributes). The HTML is taken apart by the
//! `select` crate behind trusted wrappers whose results are named; the
//! decisions on the extracted values are verified functions.

use vstd::prelude::*;
use crate::matcher::{ListingTitle, listing_pairs, selection_describes, select_listing};
use crate::walker::{DirEntry, WalkState, WalkStep, dir_pairs, walk_step, walk_step_describes};

verus! {

/// The directory entries of a listing page: each li element under the node
/// with id "directory-listing", as its data-name and data-href attributes,
/// "#" where an attribute is absent.
pub uninterp spec fn directory_entries_of(body: Seq<char>) -> Seq<(Seq<char>, Seq<char>)>;

/// Relies on select's Document parsing: the li elements under the
/// "directory-listing" node, each reduced to its data-name and data-href
/// attributes; a function of the page text alone.
#[verifier::external_body]
fn scrape_directory_entries(body: &str) -> (r: Vec<DirEntry>)
    ensures
        dir_pairs(r@) == directory_entries_of(body@),
{
    let document = select::document::Document::from(body);
    let mut out: Vec<DirEntry> = Vec::new();
    if let Some(dirlist) = document.find(select::predicate::Attr("id", "directory-listing")).next() {
        for row in dirlist.find(select::predicate::Name("li")) {
            let name = row.attr("data-name").unwrap_or("#").to_string();
            let href = row.attr("data-href").unwrap_or("#").to_string();
            out.push(DirEntry { name, href });
        }
    }
    out
}

/// The search results of a host search page: each article's heading link, as
/// its text and href, "#" where the href is absent.
pub uninterp spec fn search_articles_of(body: Seq<char>) -> Seq<(Seq<char>, Seq<char>)>;

/// Relies on select's Document parsing: the first anchor under the first h2
/// of each article element, reduced to its text and href; a function of the
/// page text alone.
#[verifier::external_body]
fn scrape_search_articles(body: &str) -> (r: Vec<ListingTitle>)
    ensures
        listing_pairs(r@) == search_articles_of(body@),
{
    let document = select::document::Document::from(body);
    let mut out: Vec<ListingTitle> = Vec::new();
    for article in document.find(select::predicate::Name("article")) {
        if let Some(a) = article.find(select::predicate::Name("h2")).next().and_then(|h2| h2.find(select::predicate::Name("a")).next()) {
            let page_link = a.attr("href").unwrap_or("#").to_string();
            out.push(ListingTitle { display_title: a.text(), page_link });
        }
    }
    out
}

/// The links of a series page's first menu block: each anchor under the node
/// with id "menu0", as its text and href, "#" where the href is absent.
pub uninterp spec fn menu_links_of(body: Seq<char>) -> Seq<(Seq<char>, Seq<char>)>;

/// Relies on select's Document parsing: the anchors under the "menu0" node,
/// each reduced to its text and href; a function of the page text alone.
#[verifier::external_body]
fn scrape_menu_links(body: &str) -> (r: Vec<(String, String)>)
    ensures
        r@.map_values(|l: (String, String)| (l.0@, l.1@)) == menu_links_of(body@),
{
    let document = select::document::Document::from(body);
    let mut out: Vec<(String, String)> = Vec::new();
    if let Some(menu) = document.find(select::predicate::Attr("id", "menu0")).next() {
        for row in menu.find(select::predicate::Name("a")) {
            out.push((row.text(), row.attr("href").unwrap_or("#").to_string()));
        }
    }
    out
}

/// The first menu link whose text is `t`, scanning from `i`.
pub open spec fn first_link_from(links: Seq<(Seq<char>, Seq<char>)>, t: Seq<char>, i: int) -> Option<
    int,
>
    decreases links.len() - i,
{
    if i < 0 || i >= links.len() {
        None
    } else if links[i].0 == t {
        Some(i)
    } else {
        first_link_from(links, t, i + 1)
    }
}

/// Find the subtitle index of a series page: the href of the first menu link
/// whose text is exactly "Subtitles", or the empty string when the page has
/// none.
pub fn subtitle_index_link(body: &str) -> (r: String)
    ensures
        match first_link_from(menu_links_of(body@), "Subtitles"@, 0) {
            Some(i) => r@ == menu_links_of(body@)[i].1,
            None => r@.len() == 0,
        },
{
    let links = scrape_menu_links(body);
    let ghost abs = menu_links_of(body@);
    let n = links.len();
    let mut i: usize = 0;
    while i < n
        invariant
            abs == menu_links_of(body@),
            abs == links@.map_values(|l: (String, String)| (l.0@, l.1@)),
            n == links@.len(),
            i <= n,
            first_link_from(abs, "Subtitles"@, 0) == first_link_from(abs, "Subtitles"@, i as int),
        decreases n - i,
    {
        proof {
            assert(abs[i as int] == (links@[i as int].0@, links@[i as int].1@));
        }
        if crate::strings::str_eq(links[i].0.as_str(), "Subtitles") {
            return links[i].1.clone();
        }
        i += 1;
    }
    String::new()
}

/// Scrape a search page and pick the listing that best matches the canonical
/// title for the wanted season.
pub fn select_listing_from_page(body: &str, title: &str, season: u32) -> (r: Option<ListingTitle>)
    ensures
        selection_describes(title@, season, search_articles_of(body@), r),
{
    let pages = scrape_search_articles(body);
    select_listing(title, season, &pages)
}

/// Scrape a directory-listing page and take the walker's decision on it.
pub fn walk_page(state: WalkState, body: &str, episode: u32, language: &str) -> (r: WalkStep)
    ensures
        walk_step_describes(state, directory_entries_of(body@), episode, language@, r),
{
    let entries = scrape_directory_entries(body);
    walk_step(state, &entries, episode, language)
}

} // verus!
