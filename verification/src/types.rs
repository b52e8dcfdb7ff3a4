//! Data models for the official HN Firebase API and the Algolia search API,
//! plus the compact output shapes returned by each tool.
//!
//! Every upstream field is optional except `id`.

use chrono::{DateTime, SecondsFormat, Utc};
use vstd::prelude::*;

use crate::text::{decimal, lemma_parse_u64_of_decimal, parse_u64, parse_u64_spec, u64_to_decimal};

verus! {

/// The text of an optional string.
pub open spec fn opt_str_view(o: Option<String>) -> Option<Seq<char>> {
    match o {
        Some(s) => Some(s@),
        None => None,
    }
}

/// The ISO 8601 UTC text that chrono renders for a Unix timestamp in seconds
/// (`YYYY-MM-DDTHH:MM:SSZ` for years 0 to 9999, with a signed year outside
/// that range), or `None` where chrono reports the timestamp out
/// of its range.
pub uninterp spec fn iso_of_unix(ts: i64) -> Option<Seq<char>>;

/// The ISO text of an optional timestamp: none where there is no timestamp.
pub open spec fn iso_of_opt(t: Option<i64>) -> Option<Seq<char>> {
    match t {
        Some(ts) => iso_of_unix(ts),
        None => None,
    }
}

/// Convert a Unix timestamp (seconds) to an ISO 8601 UTC string with a `Z`
/// suffix, e.g. `2024-01-02T03:04:05Z`. Returns `None` for out-of-range values.
///
/// Calls chrono's `DateTime::<Utc>::from_timestamp(ts, 0)` and, on success,
/// `to_rfc3339_opts(SecondsFormat::Secs, true)`. The contract only names the
/// result as a function of `ts` (`iso_of_unix`): the calendar arithmetic
/// and the range limit are chrono's and are not restated here.
#[verifier::external_body]
pub fn unix_to_iso(ts: i64) -> (r: Option<String>)
    ensures
        opt_str_view(r) == iso_of_unix(ts),
{
    match DateTime::<Utc>::from_timestamp(ts, 0) {
        Some(dt) => Some(dt.to_rfc3339_opts(SecondsFormat::Secs, true)),
        None => None,
    }
}

/// Renders an optional timestamp in ISO form, as `time.and_then(unix_to_iso)`.
pub fn opt_unix_to_iso(t: Option<i64>) -> (r: Option<String>)
    ensures
        opt_str_view(r) == iso_of_opt(t),
{
    match t {
        Some(ts) => unix_to_iso(ts),
        None => None,
    }
}

/// The canonical Hacker News web URL of an item.
pub open spec fn hn_url_spec(id: u64) -> Seq<char> {
    "https://news.ycombinator.com/item?id="@ + decimal(id as nat)
}

/// Build the canonical Hacker News web URL for an item or user thread.
pub fn hn_item_url(id: u64) -> (r: String)
    ensures
        r@ == hn_url_spec(id),
{
    let mut url = String::from_str("https://news.ycombinator.com/item?id=");
    let digits = u64_to_decimal(id);
    url.append(digits.as_str());
    url
}

// ---------------------------------------------------------------------------
// Upstream: Firebase
// ---------------------------------------------------------------------------

/// A single HN item (story / comment / job / poll / pollopt). The Firebase API
/// returns `null` for a missing item.
#[derive(Debug, Clone)]
pub struct Item {
    pub id: u64,
    /// The item's type (`story`, `comment`, `job`, `poll`, `pollopt`).
    pub kind: Option<String>,
    pub by: Option<String>,
    pub time: Option<i64>,
    pub text: Option<String>,
    pub url: Option<String>,
    pub title: Option<String>,
    pub score: Option<i64>,
    /// Total comment count (stories/polls).
    pub descendants: Option<i64>,
    pub kids: Option<Vec<u64>>,
    /// Parent item (comments/pollopts). Modeled per the HN schema; not surfaced
    /// in tool output today, but kept so the data model stays complete.
    pub parent: Option<u64>,
    pub dead: bool,
    pub deleted: bool,
}

/// A HN user profile from `/user/{id}.json`.
#[derive(Debug, Clone)]
pub struct User {
    pub id: String,
    pub created: Option<i64>,
    pub karma: Option<i64>,
    pub about: Option<String>,
    pub submitted: Option<Vec<u64>>,
}

// ---------------------------------------------------------------------------
// Upstream: Algolia
// ---------------------------------------------------------------------------

/// The body of an Algolia search response.
#[derive(Debug, Clone)]
pub struct AlgoliaResponse {
    pub hits: Vec<AlgoliaHit>,
}

/// One Algolia search hit.
#[derive(Debug, Clone)]
pub struct AlgoliaHit {
    pub object_id: String,
    pub title: Option<String>,
    /// Present on comment hits; used as a title fallback.
    pub story_title: Option<String>,
    pub author: Option<String>,
    pub points: Option<i64>,
    pub num_comments: Option<i64>,
    pub url: Option<String>,
    pub story_url: Option<String>,
    pub created_at_i: Option<i64>,
}

// ---------------------------------------------------------------------------
// Tool output shapes (compact, model-friendly)
// ---------------------------------------------------------------------------

/// One row of a ranked story list. No comment trees here.
#[derive(Debug)]
pub struct StorySummary {
    pub id: u64,
    pub title: Option<String>,
    pub by: Option<String>,
    pub score: Option<i64>,
    /// Comment count.
    pub descendants: Option<i64>,
    pub url: Option<String>,
    pub hn_url: String,
}

/// The row that `StorySummary::from_item` makes of an item.
pub open spec fn story_summary_of(item: Item, s: StorySummary) -> bool {
    &&& s.id == item.id
    &&& s.title == item.title
    &&& s.by == item.by
    &&& s.score == item.score
    &&& s.descendants == item.descendants
    &&& s.url == item.url
    &&& s.hn_url@ == hn_url_spec(item.id)
}

impl StorySummary {
    pub fn from_item(item: Item) -> (r: Self)
        ensures
            story_summary_of(item, r),
    {
        let hn_url = hn_item_url(item.id);
        StorySummary {
            id: item.id,
            title: item.title,
            by: item.by,
            score: item.score,
            descendants: item.descendants,
            url: item.url,
            hn_url,
        }
    }
}

/// A node in the trimmed comment tree returned by `get_item`.
#[derive(Debug)]
pub struct CommentNode {
    pub id: u64,
    pub by: Option<String>,
    pub text: Option<String>,
    pub time: Option<i64>,
    pub time_iso: Option<String>,
    pub depth: u32,
    pub replies: Vec<CommentNode>,
}

/// The mathematical form of a comment tree node: its texts as character
/// sequences and its replies as a sequence of such nodes.
pub struct CommentView {
    pub id: u64,
    pub by: Option<Seq<char>>,
    pub text: Option<Seq<char>>,
    pub time: Option<i64>,
    pub time_iso: Option<Seq<char>>,
    pub depth: u32,
    pub replies: Seq<CommentView>,
}

/// The view of a comment node.
pub open spec fn node_view(c: CommentNode) -> CommentView
    decreases c,
{
    CommentView {
        id: c.id,
        by: opt_str_view(c.by),
        text: opt_str_view(c.text),
        time: c.time,
        time_iso: opt_str_view(c.time_iso),
        depth: c.depth,
        replies: nodes_view(c.replies@),
    }
}

/// The views of a sequence of comment nodes, in order.
pub open spec fn nodes_view(cs: Seq<CommentNode>) -> Seq<CommentView>
    decreases cs,
{
    if cs.len() == 0 {
        Seq::empty()
    } else {
        nodes_view(cs.subrange(0, cs.len() - 1)).push(node_view(cs[cs.len() - 1]))
    }
}


/// Full detail for a single item, optionally with a capped comment tree.
#[derive(Debug)]
pub struct ItemDetail {
    pub id: u64,
    /// The item's type.
    pub kind: Option<String>,
    pub by: Option<String>,
    pub time: Option<i64>,
    pub time_iso: Option<String>,
    pub title: Option<String>,
    pub text: Option<String>,
    pub url: Option<String>,
    pub hn_url: String,
    pub score: Option<i64>,
    pub descendants: Option<i64>,
    pub comments: Option<Vec<CommentNode>>,
    /// e.g. "12 more comments not shown" when the tree was capped.
    pub truncation_note: Option<String>,
}

impl ItemDetail {
    pub fn from_item(item: Item) -> (r: Self)
        ensures
            r.id == item.id,
            r.kind == item.kind,
            r.by == item.by,
            r.time == item.time,
            opt_str_view(r.time_iso) == iso_of_opt(item.time),
            r.title == item.title,
            r.text == item.text,
            r.url == item.url,
            r.hn_url@ == hn_url_spec(item.id),
            r.score == item.score,
            r.descendants == item.descendants,
            r.comments is None,
            r.truncation_note is None,
    {
        let hn_url = hn_item_url(item.id);
        let time_iso = opt_unix_to_iso(item.time);
        ItemDetail {
            id: item.id,
            kind: item.kind,
            by: item.by,
            time: item.time,
            time_iso,
            title: item.title,
            text: item.text,
            url: item.url,
            hn_url,
            score: item.score,
            descendants: item.descendants,
            comments: None,
            truncation_note: None,
        }
    }
}

/// A user profile as the tools return it.
#[derive(Debug)]
pub struct UserProfile {
    pub id: String,
    pub karma: Option<i64>,
    pub about: Option<String>,
    pub created: Option<i64>,
    pub created_iso: Option<String>,
    pub submitted_count: usize,
}

/// How many items a user has submitted: none when the list is absent.
pub open spec fn submitted_count_of(user: User) -> nat {
    match user.submitted {
        Some(v) => v@.len(),
        None => 0,
    }
}

impl UserProfile {
    pub fn from_user(user: User) -> (r: Self)
        ensures
            r.id == user.id,
            r.karma == user.karma,
            r.about == user.about,
            r.created == user.created,
            opt_str_view(r.created_iso) == iso_of_opt(user.created),
            r.submitted_count == submitted_count_of(user),
    {
        let created_iso = opt_unix_to_iso(user.created);
        let submitted_count = match &user.submitted {
            Some(v) => v.len(),
            None => 0,
        };
        UserProfile {
            id: user.id,
            karma: user.karma,
            about: user.about,
            created: user.created,
            created_iso,
            submitted_count,
        }
    }
}

/// One search result as the tools return it.
#[derive(Debug)]
pub struct SearchHit {
    pub id: Option<u64>,
    pub title: Option<String>,
    pub author: Option<String>,
    pub points: Option<i64>,
    pub num_comments: Option<i64>,
    pub created_at: Option<i64>,
    pub created_at_iso: Option<String>,
    pub url: Option<String>,
    pub hn_url: Option<String>,
}

/// The first of two optional values that is present, as `Option::or`.
pub open spec fn first_present<T>(a: Option<T>, b: Option<T>) -> Option<T> {
    match a {
        Some(_) => a,
        None => b,
    }
}

/// The result that `SearchHit::from_hit` makes of an Algolia hit: the id
/// parsed from `objectID`, the story's title and URL standing in for a
/// comment's, and the web URL only where the id parsed.
pub open spec fn search_hit_of(hit: AlgoliaHit, r: SearchHit) -> bool {
    &&& r.id == parse_u64_spec(hit.object_id@)
    &&& r.title == first_present(hit.title, hit.story_title)
    &&& r.author == hit.author
    &&& r.points == hit.points
    &&& r.num_comments == hit.num_comments
    &&& r.created_at == hit.created_at_i
    &&& opt_str_view(r.created_at_iso) == iso_of_opt(hit.created_at_i)
    &&& r.url == first_present(hit.url, hit.story_url)
    &&& opt_str_view(r.hn_url) == match r.id {
        Some(id) => Some(hn_url_spec(id)),
        None => None,
    }
}

impl SearchHit {
    pub fn from_hit(hit: AlgoliaHit) -> (r: Self)
        ensures
            search_hit_of(hit, r),
    {
        let id = parse_u64(hit.object_id.as_str());
        let hn_url = match id {
            Some(n) => Some(hn_item_url(n)),
            None => None,
        };
        let created_at_iso = opt_unix_to_iso(hit.created_at_i);
        let title = match hit.title {
            Some(t) => Some(t),
            None => hit.story_title,
        };
        let url = match hit.url {
            Some(u) => Some(u),
            None => hit.story_url,
        };
        SearchHit {
            id,
            title,
            author: hit.author,
            points: hit.points,
            num_comments: hit.num_comments,
            created_at: hit.created_at_i,
            created_at_iso,
            url,
            hn_url,
        }
    }
}


/// A hit whose `objectID` is an item id written in decimal gets that id
/// back, and the web URL of that item, the same one `hn_item_url` builds.
pub proof fn lemma_hit_id_of_decimal(hit: AlgoliaHit, r: SearchHit, id: u64)
    requires
        hit.object_id@ == decimal(id as nat),
        search_hit_of(hit, r),
    ensures
        r.id == Some(id),
        opt_str_view(r.hn_url) == Some(hn_url_spec(id)),
{
    lemma_parse_u64_of_decimal(id);
}

} // verus!
