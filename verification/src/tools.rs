//! The decisions of the four read-only tools: argument defaults and limits,
//! the not-found messages, and the shaping of fetched data into the compact
//! rows each tool returns. The application runs the requests between them.

use vstd::prelude::*;

use crate::client::{Category, SearchSort};
use crate::text::{decimal, i64_to_decimal, signed_decimal, u64_to_decimal};
use crate::types::{
    search_hit_of, story_summary_of, AlgoliaResponse, Item, SearchHit, StorySummary,
};

verus! {

pub const DEFAULT_STORY_LIMIT: u32 = 30;

pub const MAX_STORY_LIMIT: u32 = 100;

pub const DEFAULT_SEARCH_LIMIT: u32 = 20;

pub const MAX_SEARCH_LIMIT: u32 = 100;

pub const DEFAULT_MAX_DEPTH: u32 = 3;

pub const DEFAULT_MAX_COMMENTS: usize = 50;

// ---------------------------------------------------------------------------
// Tool argument schemas
// ---------------------------------------------------------------------------

/// Which ranked story feed to pull.
#[derive(Debug, Clone, Copy, PartialEq, Eq, Structural)]
pub enum CategoryArg {
    Top,
    New,
    Best,
    Ask,
    Show,
    Job,
}

/// The feed that a category argument names.
pub open spec fn category_of(c: CategoryArg) -> Category {
    match c {
        CategoryArg::Top => Category::Top,
        CategoryArg::New => Category::New,
        CategoryArg::Best => Category::Best,
        CategoryArg::Ask => Category::Ask,
        CategoryArg::Show => Category::Show,
        CategoryArg::Job => Category::Job,
    }
}

impl From<CategoryArg> for Category {
    fn from(c: CategoryArg) -> (r: Self) {
        match c {
            CategoryArg::Top => Category::Top,
            CategoryArg::New => Category::New,
            CategoryArg::Best => Category::Best,
            CategoryArg::Ask => Category::Ask,
            CategoryArg::Show => Category::Show,
            CategoryArg::Job => Category::Job,
        }
    }
}

impl vstd::std_specs::convert::FromSpecImpl<CategoryArg> for Category {
    open spec fn obeys_from_spec() -> bool {
        true
    }

    open spec fn from_spec(c: CategoryArg) -> Category {
        category_of(c)
    }
}

/// Arguments of `get_stories`.
#[derive(Debug)]
pub struct GetStoriesArgs {
    /// Story feed to read. One of: top, new, best, ask, show, job. Default: top.
    pub category: Option<CategoryArg>,
    /// How many stories to return. Default 30, max 100.
    pub limit: Option<u32>,
}

/// Arguments of `get_item`.
#[derive(Debug)]
pub struct GetItemArgs {
    /// The numeric HN item ID.
    pub id: u64,
    /// Include the comment tree. Default: true.
    pub include_comments: Option<bool>,
    /// How many levels of replies to descend. Default: 3.
    pub max_depth: Option<u32>,
    /// Hard cap on the comments collected into the tree (dead, deleted and
    /// missing ones do not count), to protect context. Default: 50.
    pub max_comments: Option<usize>,
}

/// Arguments of `get_user`.
#[derive(Debug)]
pub struct GetUserArgs {
    /// The HN username (case-sensitive).
    pub id: String,
}

/// How Algolia should rank search results.
#[derive(Debug, Clone, Copy, PartialEq, Eq, Structural)]
pub enum SortArg {
    Relevance,
    Date,
}

/// Arguments of `search`.
#[derive(Debug)]
pub struct SearchArgs {
    /// Free-text query.
    pub query: String,
    /// Ranking: "relevance" (default) or "date" (newest first).
    pub sort: Option<SortArg>,
    /// Algolia tag filter, e.g. "story", "comment", "ask_hn", "show_hn",
    /// "front_page", or "author_pg". Combine with commas for AND.
    pub tags: Option<String>,
    /// Only return hits with at least this many points.
    pub min_points: Option<i64>,
    /// Max hits to return. Default 20, max 100.
    pub limit: Option<u32>,
}

/// `v` held within `lo..=hi`.
pub open spec fn clamp_spec(v: int, lo: int, hi: int) -> int {
    if v < lo {
        lo
    } else if v > hi {
        hi
    } else {
        v
    }
}

/// An optional argument, or its default.
pub open spec fn or_default<T>(o: Option<T>, d: T) -> T {
    match o {
        Some(v) => v,
        None => d,
    }
}

// ---------------------------------------------------------------------------
// get_stories
// ---------------------------------------------------------------------------

/// The feed `get_stories` reads: the one asked for, top by default.
pub fn stories_category(args: &GetStoriesArgs) -> (r: Category)
    ensures
        r == category_of(or_default(args.category, CategoryArg::Top)),
{
    let c = match args.category {
        Some(c) => c,
        None => CategoryArg::Top,
    };
    Category::from(c)
}

/// How many stories `get_stories` returns: the limit asked for, 30 by
/// default, held within 1 to 100.
pub fn stories_limit(args: &GetStoriesArgs) -> (r: usize)
    ensures
        r == clamp_spec(or_default(args.limit, DEFAULT_STORY_LIMIT) as int, 1, MAX_STORY_LIMIT as int),
{
    let limit = match args.limit {
        Some(l) => l,
        None => DEFAULT_STORY_LIMIT,
    };
    let clamped = if limit < 1 {
        1
    } else if limit > MAX_STORY_LIMIT {
        MAX_STORY_LIMIT
    } else {
        limit
    };
    clamped as usize
}

/// The first `limit` ids of a feed (all of them where there are fewer).
pub fn first_ids(ids: Vec<u64>, limit: usize) -> (r: Vec<u64>)
    ensures
        r@ == if ids@.len() > limit {
            ids@.take(limit as int)
        } else {
            ids@
        },
{
    let mut ids = ids;
    ids.truncate(limit);
    ids
}

/// The compact rows of the stories that were fetched, in order.
pub fn story_rows(items: Vec<Item>) -> (r: Vec<StorySummary>)
    ensures
        r@.len() == items@.len(),
        forall|i: int| 0 <= i < items@.len() ==> story_summary_of(items@[i], #[trigger] r@[i]),
{
    let ghost all = items@;
    let mut rows: Vec<StorySummary> = Vec::new();
    for item in it: items.into_iter()
        invariant
            all == it.seq(),
            rows@.len() == it.index(),
            forall|i: int| 0 <= i < it.index() ==> story_summary_of(all[i], #[trigger] rows@[i]),
    {
        rows.push(StorySummary::from_item(item));
    }
    rows
}

// ---------------------------------------------------------------------------
// get_item
// ---------------------------------------------------------------------------

/// The message for an item that the API does not have.
pub open spec fn item_not_found_spec(id: u64) -> Seq<char> {
    "Item "@ + decimal(id as nat) + " not found — it may be deleted or the ID may be invalid."@
}

/// The message `get_item` answers with when the API has no such item.
pub fn item_not_found_message(id: u64) -> (r: String)
    ensures
        r@ == item_not_found_spec(id),
{
    let mut msg = String::from_str("Item ");
    msg.append(u64_to_decimal(id).as_str());
    msg.append(" not found — it may be deleted or the ID may be invalid.");
    msg
}

/// The direct replies of an item: none where it lists no kids.
pub fn root_kids(item: &Item) -> (r: Vec<u64>)
    ensures
        r@ == match item.kids {
            Some(v) => v@,
            None => Seq::empty(),
        },
{
    match &item.kids {
        Some(v) => {
            let r = v.clone();
            proof {
                assert(r@ =~= v@);
            }
            r
        },
        None => Vec::new(),
    }
}

/// The limits of the comment walk that `get_item` runs: the depth asked for
/// (3 by default, at least 1) and the comment cap asked for (50 by default).
/// There is no walk where comments were not wanted (they are by default) or
/// the item has no replies.
pub open spec fn comment_limits_spec(args: GetItemArgs, root_kid_count: nat) -> Option<(u32, usize)> {
    if or_default(args.include_comments, true) && root_kid_count > 0 {
        let d = or_default(args.max_depth, DEFAULT_MAX_DEPTH);
        Some((if d < 1 { 1u32 } else { d }, or_default(args.max_comments, DEFAULT_MAX_COMMENTS)))
    } else {
        None
    }
}

/// Decides whether `get_item` walks the comment tree, and with which depth
/// and comment limits.
pub fn comment_limits(args: &GetItemArgs, root_kids: &Vec<u64>) -> (r: Option<(u32, usize)>)
    ensures
        r == comment_limits_spec(*args, root_kids@.len()),
{
    let wanted = match args.include_comments {
        Some(b) => b,
        None => true,
    };
    if wanted && root_kids.len() > 0 {
        let d = match args.max_depth {
            Some(d) => d,
            None => DEFAULT_MAX_DEPTH,
        };
        let max_depth = if d < 1 {
            1
        } else {
            d
        };
        let max_comments = match args.max_comments {
            Some(m) => m,
            None => DEFAULT_MAX_COMMENTS,
        };
        Some((max_depth, max_comments))
    } else {
        None
    }
}

// ---------------------------------------------------------------------------
// get_user
// ---------------------------------------------------------------------------

/// The message for a user that the API does not have.
pub open spec fn user_not_found_spec(id: Seq<char>) -> Seq<char> {
    "User '"@ + id + "' not found — usernames are case-sensitive."@
}

/// The message `get_user` answers with when the API has no such user.
pub fn user_not_found_message(id: &str) -> (r: String)
    ensures
        r@ == user_not_found_spec(id@),
{
    let mut msg = String::from_str("User '");
    msg.append(id);
    msg.append("' not found — usernames are case-sensitive.");
    msg
}

// ---------------------------------------------------------------------------
// search
// ---------------------------------------------------------------------------

/// The ranking `search` asks Algolia for: relevance by default.
pub fn search_sort(args: &SearchArgs) -> (r: SearchSort)
    ensures
        r == match or_default(args.sort, SortArg::Relevance) {
            SortArg::Relevance => SearchSort::Relevance,
            SortArg::Date => SearchSort::Date,
        },
{
    match args.sort {
        Some(SortArg::Date) => SearchSort::Date,
        _ => SearchSort::Relevance,
    }
}

/// How many hits `search` asks for: the limit asked for, 20 by default,
/// held within 1 to 100.
pub fn search_limit(args: &SearchArgs) -> (r: u32)
    ensures
        r == clamp_spec(or_default(args.limit, DEFAULT_SEARCH_LIMIT) as int, 1, MAX_SEARCH_LIMIT as int),
{
    let limit = match args.limit {
        Some(l) => l,
        None => DEFAULT_SEARCH_LIMIT,
    };
    if limit < 1 {
        1
    } else if limit > MAX_SEARCH_LIMIT {
        MAX_SEARCH_LIMIT
    } else {
        limit
    }
}

/// The Algolia numeric filter for a minimum score.
pub open spec fn points_filter_spec(min_points: Option<i64>) -> Option<Seq<char>> {
    match min_points {
        Some(p) => Some("points>="@ + signed_decimal(p as int)),
        None => None,
    }
}

/// The numeric filter `search` sends: `points>=<min_points>` where a
/// minimum is given.
pub fn points_filter(min_points: Option<i64>) -> (r: Option<String>)
    ensures
        crate::types::opt_str_view(r) == points_filter_spec(min_points),
{
    match min_points {
        Some(p) => {
            let mut f = String::from_str("points>=");
            f.append(i64_to_decimal(p).as_str());
            Some(f)
        },
        None => None,
    }
}

/// The compact results of a search, in Algolia's order.
pub fn search_rows(resp: AlgoliaResponse) -> (r: Vec<SearchHit>)
    ensures
        r@.len() == resp.hits@.len(),
        forall|i: int| 0 <= i < resp.hits@.len() ==> search_hit_of(resp.hits@[i], #[trigger] r@[i]),
{
    let hits = resp.hits;
    let ghost all = hits@;
    let mut rows: Vec<SearchHit> = Vec::new();
    for hit in it: hits.into_iter()
        invariant
            all == it.seq(),
            rows@.len() == it.index(),
            forall|i: int| 0 <= i < it.index() ==> search_hit_of(all[i], #[trigger] rows@[i]),
    {
        rows.push(SearchHit::from_hit(hit));
    }
    rows
}

} // verus!
