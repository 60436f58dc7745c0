//! Reading the metadata catalog's JSON answers.
//!
//! The catalog answers with JSON documents: a search result (a "data" array
//! of records with "mal_id" and "type"), a single record (a "data" object
//! with "title" and "episodes"), and a relations list (a "data" array whose
//! records carry a "relation" name and an "entry" array). The JSON is taken
//! apart by serde_json behind trusted wrappers whose results are named; the
//! decisions on the extracted values — which search hit to prefer, how to
//! default missing fields, which relation names the sequel — are verified.

use vstd::prelude::*;
use crate::strings::str_eq;

verus! {

/// One search result: its catalog identifier and its media type, when the
/// document carries them.
pub struct SearchHit {
    pub mal_id: Option<i64>,
    pub kind: String,
}

/// One relation record: its relation name and the identifier of its first
/// entry, when the document carries them.
pub struct RelationRecord {
    pub name: String,
    pub entry_id: Option<i64>,
}

/// One catalog record: its title and episode count, when the document
/// carries them.
pub struct EntryInfo {
    pub title: Option<String>,
    pub episodes: Option<i64>,
}

/// The search hits of a search answer: each element of the "data" array as
/// its "mal_id" number (when it is a number) and its "type" string (empty
/// when it is no string); nothing when the body is not JSON or "data" is no
/// array.
pub uninterp spec fn search_hits_of(body: Seq<char>) -> Option<Seq<(Option<i64>, Seq<char>)>>;

/// The record of a single-record answer: its "data.title" string and
/// "data.episodes" number, each absent when missing or of another type;
/// nothing when the body is not JSON.
pub uninterp spec fn entry_info_of(body: Seq<char>) -> Option<(Option<Seq<char>>, Option<i64>)>;

/// The relation records of a relations answer: each element of the "data"
/// array as its "relation" string (empty when it is no string) and the
/// "mal_id" number of its first "entry" element, absent when missing;
/// nothing when the body is not JSON or "data" is no array.
pub uninterp spec fn relations_of(body: Seq<char>) -> Option<Seq<(Seq<char>, Option<i64>)>>;

/// The parsed hits carry exactly the named fields.
pub open spec fn hits_match(r: Option<Vec<SearchHit>>, m: Option<Seq<(Option<i64>, Seq<char>)>>) -> bool {
    match (r, m) {
        (None, None) => true,
        (Some(v), Some(s)) => v@.len() == s.len() && (forall|i: int|
            0 <= i < s.len() ==> (#[trigger] v@[i]).mal_id == s[i].0 && v@[i].kind@ == s[i].1),
        _ => false,
    }
}

/// Relies on serde_json::from_str and Value indexing: the "data" array's
/// elements, each reduced to its "mal_id" and "type" fields.
#[verifier::external_body]
fn parse_search_hits(body: &str) -> (r: Option<Vec<SearchHit>>)
    ensures
        hits_match(r, search_hits_of(body@)),
{
    let json: serde_json::Value = match serde_json::from_str(body) { Ok(v) => v, Err(_) => return None };
    let arr = match json["data"].as_array() { Some(a) => a, None => return None };
    let mut out: Vec<SearchHit> = Vec::new();
    for item in arr {
        let kind = match item["type"].as_str() { Some(s) => s.to_string(), None => String::new() };
        out.push(SearchHit { mal_id: item["mal_id"].as_i64(), kind });
    }
    Some(out)
}

/// The parsed record carries exactly the named fields.
pub open spec fn entry_matches(r: Option<EntryInfo>, m: Option<(Option<Seq<char>>, Option<i64>)>) -> bool {
    match (r, m) {
        (None, None) => true,
        (Some(e), Some(p)) => (match (e.title, p.0) {
            (None, None) => true,
            (Some(t), Some(s)) => t@ == s,
            _ => false,
        }) && e.episodes == p.1,
        _ => false,
    }
}

/// Relies on serde_json::from_str and Value indexing: the "data" object's
/// "title" and "episodes" fields.
#[verifier::external_body]
fn parse_entry_info(body: &str) -> (r: Option<EntryInfo>)
    ensures
        entry_matches(r, entry_info_of(body@)),
{
    let json: serde_json::Value = match serde_json::from_str(body) { Ok(v) => v, Err(_) => return None };
    let title = match json["data"]["title"].as_str() { Some(s) => Some(s.to_string()), None => None };
    Some(EntryInfo { title, episodes: json["data"]["episodes"].as_i64() })
}

/// The parsed relations carry exactly the named fields.
pub open spec fn relations_match(
    r: Option<Vec<RelationRecord>>,
    m: Option<Seq<(Seq<char>, Option<i64>)>>,
) -> bool {
    match (r, m) {
        (None, None) => true,
        (Some(v), Some(s)) => v@.len() == s.len() && (forall|i: int|
            0 <= i < s.len() ==> (#[trigger] v@[i]).name@ == s[i].0 && v@[i].entry_id == s[i].1),
        _ => false,
    }
}

/// Relies on serde_json::from_str and Value indexing: the "data" array's
/// elements, each reduced to its "relation" name and its first entry's
/// "mal_id".
#[verifier::external_body]
fn parse_relations(body: &str) -> (r: Option<Vec<RelationRecord>>)
    ensures
        relations_match(r, relations_of(body@)),
{
    let json: serde_json::Value = match serde_json::from_str(body) { Ok(v) => v, Err(_) => return None };
    let arr = match json["data"].as_array() { Some(a) => a, None => return None };
    let mut out: Vec<RelationRecord> = Vec::new();
    for item in arr {
        let name = match item["relation"].as_str() { Some(s) => s.to_string(), None => String::new() };
        out.push(RelationRecord { name, entry_id: item["entry"][0]["mal_id"].as_i64() });
    }
    Some(out)
}

/// The first hit whose media type is TV or ONA, scanning from `i`.
pub open spec fn first_media_from(hits: Seq<(Option<i64>, Seq<char>)>, i: int) -> Option<int>
    decreases hits.len() - i,
{
    if i < 0 || i >= hits.len() {
        None
    } else if hits[i].1 == "TV"@ || hits[i].1 == "ONA"@ {
        Some(i)
    } else {
        first_media_from(hits, i + 1)
    }
}

/// The identifier the search answer resolves to: the first TV or ONA hit's,
/// or the first hit's when no hit is TV or ONA; nothing when the list is
/// empty or the chosen hit carries no identifier.
pub open spec fn spec_preferred_id(hits: Seq<(Option<i64>, Seq<char>)>) -> Option<i64> {
    if hits.len() == 0 {
        None
    } else {
        match first_media_from(hits, 0) {
            Some(i) => hits[i].0,
            None => hits[0].0,
        }
    }
}

/// Pick the preferred catalog identifier from parsed search hits.
pub fn pick_preferred_id(hits: &Vec<SearchHit>) -> (r: Option<i64>)
    ensures
        r == spec_preferred_id(hits@.map_values(|h: SearchHit| (h.mal_id, h.kind@))),
{
    let ghost abs = hits@.map_values(|h: SearchHit| (h.mal_id, h.kind@));
    let n = hits.len();
    if n == 0 {
        return None;
    }
    let mut i: usize = 0;
    while i < n
        invariant
            abs == hits@.map_values(|h: SearchHit| (h.mal_id, h.kind@)),
            n == hits@.len(),
            i <= n,
            first_media_from(abs, 0) == first_media_from(abs, i as int),
        decreases n - i,
    {
        proof {
            assert(abs[i as int] == (hits@[i as int].mal_id, hits@[i as int].kind@));
        }
        if str_eq(hits[i].kind.as_str(), "TV") || str_eq(hits[i].kind.as_str(), "ONA") {
            return hits[i].mal_id;
        }
        i += 1;
    }
    proof {
        assert(abs[0] == (hits@[0].mal_id, hits@[0].kind@));
    }
    hits[0].mal_id
}

/// The first relation named "Sequel", scanning from `i`.
pub open spec fn first_sequel_from(rels: Seq<(Seq<char>, Option<i64>)>, i: int) -> Option<int>
    decreases rels.len() - i,
{
    if i < 0 || i >= rels.len() {
        None
    } else if rels[i].0 == "Sequel"@ {
        Some(i)
    } else {
        first_sequel_from(rels, i + 1)
    }
}

/// The sequel identifier a relations answer names: the first "Sequel"
/// relation's first entry, when it is a representable positive identifier;
/// nothing otherwise.
pub open spec fn spec_sequel_id(rels: Seq<(Seq<char>, Option<i64>)>) -> Option<u32> {
    match first_sequel_from(rels, 0) {
        None => None,
        Some(i) => match rels[i].1 {
            Some(x) => if 1 <= x <= u32::MAX {
                Some(x as u32)
            } else {
                None
            },
            None => None,
        },
    }
}

/// Extract the sequel identifier from parsed relation records.
pub fn sequel_id_from_relations(rels: &Vec<RelationRecord>) -> (r: Option<u32>)
    ensures
        r == spec_sequel_id(rels@.map_values(|x: RelationRecord| (x.name@, x.entry_id))),
{
    let ghost abs = rels@.map_values(|x: RelationRecord| (x.name@, x.entry_id));
    let n = rels.len();
    let mut i: usize = 0;
    while i < n
        invariant
            abs == rels@.map_values(|x: RelationRecord| (x.name@, x.entry_id)),
            n == rels@.len(),
            i <= n,
            first_sequel_from(abs, 0) == first_sequel_from(abs, i as int),
        decreases n - i,
    {
        proof {
            assert(abs[i as int] == (rels@[i as int].name@, rels@[i as int].entry_id));
        }
        if str_eq(rels[i].name.as_str(), "Sequel") {
            return match rels[i].entry_id {
                Some(x) => {
                    if 1 <= x && x <= u32::MAX as i64 {
                        Some(x as u32)
                    } else {
                        None
                    }
                },
                None => None,
            };
        }
        i += 1;
    }
    None
}

/// The display title a record resolves to: its own, or the fixed placeholder
/// when the document carries none.
pub open spec fn spec_entry_title(t: Option<Seq<char>>) -> Seq<char> {
    match t {
        Some(s) => s,
        None => "Unknown Title"@,
    }
}

/// The episode count a record resolves to: its own when it is a
/// representable non-negative count, and 0 — "unknown, consult the airing
/// schedule" — otherwise.
pub open spec fn spec_entry_episodes(e: Option<i64>) -> u32 {
    match e {
        Some(x) => if 0 <= x <= u32::MAX {
            x as u32
        } else {
            0
        },
        None => 0,
    }
}

/// The preferred identifier of a search page: nothing when the page does not
/// parse, and otherwise the preferred hit's identifier.
pub fn preferred_id_from_page(body: &str) -> (r: Option<i64>)
    ensures
        r == (match search_hits_of(body@) {
            None => None::<i64>,
            Some(hits) => spec_preferred_id(hits),
        }),
{
    let hits = match parse_search_hits(body) {
        Some(h) => h,
        None => {
            return None;
        },
    };
    let r = pick_preferred_id(&hits);
    proof {
        assert(hits@.map_values(|h: SearchHit| (h.mal_id, h.kind@)) =~= search_hits_of(
            body@,
        ).unwrap());
    }
    r
}

/// The title and episode count of a record page: nothing when the page does
/// not parse, and otherwise the record's fields with the fixed defaults
/// applied.
pub fn entry_summary_from_page(body: &str) -> (r: Option<(String, u32)>)
    ensures
        match entry_info_of(body@) {
            None => (r is None),
            Some(p) => r matches Some(s) && s.0@ == spec_entry_title(p.0) && s.1
                == spec_entry_episodes(p.1),
        },
{
    proof {
        reveal_strlit("Unknown Title");
    }
    let info = match parse_entry_info(body) {
        Some(e) => e,
        None => {
            return None;
        },
    };
    let title: String = match info.title {
        Some(t) => t,
        None => "Unknown Title".to_owned(),
    };
    let episodes: u32 = match info.episodes {
        Some(x) => {
            if 0 <= x && x <= u32::MAX as i64 {
                x as u32
            } else {
                0
            }
        },
        None => 0,
    };
    Some((title, episodes))
}

/// The sequel identifier of a relations page: nothing when the page does not
/// parse or names no usable sequel.
pub fn sequel_id_from_page(body: &str) -> (r: Option<u32>)
    ensures
        r == (match relations_of(body@) {
            None => None::<u32>,
            Some(rels) => spec_sequel_id(rels),
        }),
{
    let rels = match parse_relations(body) {
        Some(v) => v,
        None => {
            return None;
        },
    };
    let r = sequel_id_from_relations(&rels);
    proof {
        assert(rels@.map_values(|x: RelationRecord| (x.name@, x.entry_id)) =~= relations_of(
            body@,
        ).unwrap());
    }
    r
}

} // verus!
