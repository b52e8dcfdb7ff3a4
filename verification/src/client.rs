//! What the HTTP layer sends to the two public Hacker News APIs: the feed
//! endpoints, the request URLs and the Algolia query parameters, and how
//! the results of concurrent item fetches are put back in request order.
//! The requests themselves are made by the application around this library.

use vstd::prelude::*;

use crate::text::{decimal, u64_to_decimal};
use crate::types::Item;

verus! {

/// The `User-Agent` sent with every request.
pub const USER_AGENT: &'static str = "hackernews-mcp/0.1";

/// Max in-flight item fetches. Kept modest to be polite to the Firebase API.
pub const CONCURRENCY: usize = 10;

/// The story feed categories exposed by the Firebase API.
#[derive(Debug, Clone, Copy, PartialEq, Eq, Structural)]
pub enum Category {
    Top,
    New,
    Best,
    Ask,
    Show,
    Job,
}

/// The Firebase endpoint path segment of a feed.
pub open spec fn endpoint_spec(c: Category) -> Seq<char> {
    match c {
        Category::Top => "topstories"@,
        Category::New => "newstories"@,
        Category::Best => "beststories"@,
        Category::Ask => "askstories"@,
        Category::Show => "showstories"@,
        Category::Job => "jobstories"@,
    }
}

impl Category {
    /// The Firebase endpoint path segment for this feed.
    pub fn endpoint(self) -> (r: &'static str)
        ensures
            r@ == endpoint_spec(self),
    {
        match self {
            Category::Top => "topstories",
            Category::New => "newstories",
            Category::Best => "beststories",
            Category::Ask => "askstories",
            Category::Show => "showstories",
            Category::Job => "jobstories",
        }
    }
}

/// How Algolia should rank results.
#[derive(Debug, Clone, Copy, PartialEq, Eq, Structural)]
pub enum SearchSort {
    /// `/search` — relevance ranked.
    Relevance,
    /// `/search_by_date` — newest first.
    Date,
}

/// The base of the official HN (Firebase) API.
pub open spec fn firebase_base() -> Seq<char> {
    "https://hacker-news.firebaseio.com/v0"@
}

/// The base of the Algolia HN Search API.
pub open spec fn algolia_base() -> Seq<char> {
    "https://hn.algolia.com/api/v1"@
}

/// The URL of a feed's ordered id list.
pub open spec fn story_ids_url_spec(c: Category) -> Seq<char> {
    firebase_base() + "/"@ + endpoint_spec(c) + ".json"@
}

/// The URL of an item.
pub open spec fn item_url_spec(id: u64) -> Seq<char> {
    firebase_base() + "/item/"@ + decimal(id as nat) + ".json"@
}

/// The URL of a user profile; the name goes in as given.
pub open spec fn user_url_spec(id: Seq<char>) -> Seq<char> {
    firebase_base() + "/user/"@ + id + ".json"@
}

/// The Algolia path for a ranking.
pub open spec fn search_path_spec(sort: SearchSort) -> Seq<char> {
    match sort {
        SearchSort::Relevance => "search"@,
        SearchSort::Date => "search_by_date"@,
    }
}

/// The URL of an Algolia search.
pub open spec fn search_url_spec(sort: SearchSort) -> Seq<char> {
    algolia_base() + "/"@ + search_path_spec(sort)
}

/// The URL of the ordered id list of a story feed.
pub fn story_ids_url(category: Category) -> (r: String)
    ensures
        r@ == story_ids_url_spec(category),
{
    let mut url = String::from_str("https://hacker-news.firebaseio.com/v0");
    url.append("/");
    url.append(category.endpoint());
    url.append(".json");
    url
}

/// The URL of a single item.
pub fn item_url(id: u64) -> (r: String)
    ensures
        r@ == item_url_spec(id),
{
    let mut url = String::from_str("https://hacker-news.firebaseio.com/v0");
    url.append("/item/");
    url.append(u64_to_decimal(id).as_str());
    url.append(".json");
    url
}

/// The URL of a user profile.
pub fn user_url(id: &str) -> (r: String)
    ensures
        r@ == user_url_spec(id@),
{
    let mut url = String::from_str("https://hacker-news.firebaseio.com/v0");
    url.append("/user/");
    url.append(id);
    url.append(".json");
    url
}

/// The URL of an Algolia search with the given ranking.
pub fn search_url(sort: SearchSort) -> (r: String)
    ensures
        r@ == search_url_spec(sort),
{
    let path = match sort {
        SearchSort::Relevance => "search",
        SearchSort::Date => "search_by_date",
    };
    let mut url = String::from_str("https://hn.algolia.com/api/v1");
    url.append("/");
    url.append(path);
    url
}

/// The query parameters of an Algolia search, in order: the query, the page
/// size, then the tag filter and the numeric filter where they are given.
pub open spec fn search_params_spec(
    query: Seq<char>,
    hits_per_page: u32,
    tags: Option<Seq<char>>,
    numeric_filters: Option<Seq<char>>,
) -> Seq<(Seq<char>, Seq<char>)> {
    let base = seq![("query"@, query), ("hitsPerPage"@, decimal(hits_per_page as nat))];
    let with_tags = match tags {
        Some(t) => base.push(("tags"@, t)),
        None => base,
    };
    match numeric_filters {
        Some(f) => with_tags.push(("numericFilters"@, f)),
        None => with_tags,
    }
}

/// The text of each name and value of a parameter list.
pub open spec fn params_view(p: Seq<(String, String)>) -> Seq<(Seq<char>, Seq<char>)> {
    p.map_values(|kv: (String, String)| (kv.0@, kv.1@))
}

/// The text of an optional string slice.
pub open spec fn opt_slice_view(o: Option<&str>) -> Option<Seq<char>> {
    match o {
        Some(s) => Some(s@),
        None => None,
    }
}

/// Builds the query parameters of an Algolia search.
pub fn search_params(
    query: &str,
    hits_per_page: u32,
    tags: Option<&str>,
    numeric_filters: Option<&str>,
) -> (r: Vec<(String, String)>)
    ensures
        params_view(r@) == search_params_spec(
            query@,
            hits_per_page,
            opt_slice_view(tags),
            opt_slice_view(numeric_filters),
        ),
{
    let mut params: Vec<(String, String)> = Vec::new();
    params.push((String::from_str("query"), String::from_str(query)));
    params.push((String::from_str("hitsPerPage"), u64_to_decimal(hits_per_page as u64)));
    match tags {
        Some(t) => {
            params.push((String::from_str("tags"), String::from_str(t)));
        },
        None => {},
    }
    match numeric_filters {
        Some(f) => {
            params.push((String::from_str("numericFilters"), String::from_str(f)));
        },
        None => {},
    }
    proof {
        assert(params_view(params@) =~= search_params_spec(
            query@,
            hits_per_page,
            opt_slice_view(tags),
            opt_slice_view(numeric_filters),
        ));
    }
    params
}

/// The slots of `n` requests after the fetched items, each tagged with the
/// position of its request, are put in place in arrival order.
pub open spec fn place_all(n: nat, fetched: Seq<(usize, Item)>) -> Seq<Option<Item>>
    decreases fetched.len(),
{
    if fetched.len() == 0 {
        Seq::new(n, |i: int| None)
    } else {
        let s = place_all(n, fetched.drop_last());
        let last = fetched.last();
        if last.0 < n {
            s.update(last.0 as int, Some(last.1))
        } else {
            s
        }
    }
}

/// The values present in a sequence of slots, in order.
pub open spec fn present<T>(s: Seq<Option<T>>) -> Seq<T>
    decreases s.len(),
{
    if s.len() == 0 {
        Seq::empty()
    } else {
        let p = present(s.drop_last());
        match s.last() {
            Some(x) => p.push(x),
            None => p,
        }
    }
}

/// There is one slot per request.
proof fn lemma_place_all_len(n: nat, fetched: Seq<(usize, Item)>)
    ensures
        place_all(n, fetched).len() == n,
    decreases fetched.len(),
{
    if fetched.len() > 0 {
        lemma_place_all_len(n, fetched.drop_last());
    }
}

/// No more values are present than there are slots.
proof fn lemma_present_len<T>(s: Seq<Option<T>>)
    ensures
        present(s).len() <= s.len(),
    decreases s.len(),
{
    if s.len() > 0 {
        lemma_present_len(s.drop_last());
    }
}

/// Puts the items fetched for `n` requests back in request order. Each
/// fetched item comes tagged with the position of its request; requests
/// whose fetch failed or came back `null` have no item and are dropped.
pub fn in_request_order(n: usize, fetched: Vec<(usize, Item)>) -> (r: Vec<Item>)
    ensures
        r@ == present(place_all(n as nat, fetched@)),
        r@.len() <= n,
        (forall|i: int, j: int|
            0 <= i < j < fetched@.len() ==> #[trigger] fetched@[i].0 != #[trigger] fetched@[j].0)
            ==> forall|j: int|
            0 <= j < fetched@.len() && #[trigger] fetched@[j].0 < n ==> r@.contains(fetched@[j].1),
{
    proof {
        if forall|i: int, j: int|
            0 <= i < j < fetched@.len() ==> #[trigger] fetched@[i].0 != #[trigger] fetched@[j].0 {
            lemma_in_request_order_keeps_fetched(n as nat, fetched@);
        }
        lemma_place_all_len(n as nat, fetched@);
        lemma_present_len(place_all(n as nat, fetched@));
    }
    let mut slots: Vec<Option<Item>> = Vec::new();
    let mut i: usize = 0;
    while i < n
        invariant
            i <= n,
            slots@ =~= Seq::new(i as nat, |j: int| None::<Item>),
        decreases n - i,
    {
        slots.push(None);
        i = i + 1;
    }
    let ghost all = fetched@;
    proof {
        assert(all.take(0) =~= Seq::<(usize, Item)>::empty());
    }
    for entry in it: fetched.into_iter()
        invariant
            all == it.seq(),
            slots@ == place_all(n as nat, all.take(it.index())),
            slots@.len() == n,
    {
        let ghost k = it.index();
        proof {
            assert(all.take(k + 1).drop_last() =~= all.take(k));
            assert(all.take(k + 1).last() == entry);
        }
        let (idx, item) = entry;
        if idx < n {
            slots.set(idx, Some(item));
        }
    }
    proof {
        assert(all.take(all.len() as int) =~= all);
    }
    let ghost placed = slots@;
    let mut out: Vec<Item> = Vec::new();
    proof {
        assert(placed.take(0) =~= Seq::<Option<Item>>::empty());
    }
    for slot in it: slots.into_iter()
        invariant
            placed == it.seq(),
            out@ == present(placed.take(it.index())),
    {
        let ghost k = it.index();
        proof {
            assert(placed.take(k + 1).drop_last() =~= placed.take(k));
            assert(placed.take(k + 1).last() == slot);
        }
        match slot {
            Some(item) => {
                out.push(item);
            },
            None => {},
        }
    }
    proof {
        assert(placed.take(placed.len() as int) =~= placed);
    }
    out
}


/// Fetched items keep the order of their requests: where every request
/// position occurs at most once among the fetched items, each item lands in
/// the slot of its own request, and a request with no fetched item leaves
/// its slot empty, so the items come out ordered by request.
pub proof fn lemma_place_all_by_request(n: nat, fetched: Seq<(usize, Item)>)
    requires
        forall|i: int, j: int|
            0 <= i < j < fetched.len() ==> #[trigger] fetched[i].0 != #[trigger] fetched[j].0,
    ensures
        place_all(n, fetched).len() == n,
        forall|j: int|
            0 <= j < fetched.len() && #[trigger] fetched[j].0 < n ==> place_all(n, fetched)[fetched[j].0 as int]
                == Some(fetched[j].1),
        forall|t: int|
            0 <= t < n && (forall|j: int| 0 <= j < fetched.len() ==> #[trigger] fetched[j].0 != t)
                ==> #[trigger] place_all(n, fetched)[t] is None,
    decreases fetched.len(),
{
    if fetched.len() > 0 {
        let init = fetched.drop_last();
        assert forall|i: int, j: int| 0 <= i < j < init.len() implies #[trigger] init[i].0
            != #[trigger] init[j].0 by {
            assert(init[i] == fetched[i]);
            assert(init[j] == fetched[j]);
        }
        lemma_place_all_by_request(n, init);
        let last = fetched.last();
        assert forall|j: int| 0 <= j < fetched.len() && #[trigger] fetched[j].0 < n implies place_all(
            n,
            fetched,
        )[fetched[j].0 as int] == Some(fetched[j].1) by {
            if j < fetched.len() - 1 {
                assert(init[j] == fetched[j]);
                assert(fetched[j].0 != fetched[fetched.len() - 1].0);
            }
        }
        assert forall|t: int|
            0 <= t < n && (forall|j: int| 0 <= j < fetched.len() ==> #[trigger] fetched[j].0 != t)
            implies #[trigger] place_all(n, fetched)[t] is None by {
            assert forall|j: int| 0 <= j < init.len() implies #[trigger] init[j].0 != t by {
                assert(init[j] == fetched[j]);
            }
            assert(fetched[fetched.len() - 1].0 != t);
        }
    }
}


/// Nothing present is lost and the order is kept: the present values are the
/// slots' values in slot order (`filter_map` with the identity), one for each
/// filled slot, and every filled slot's value is among them.
pub proof fn lemma_present_keeps_every_value<T>(s: Seq<Option<T>>)
    ensures
        present(s) == s.filter_map(|o: Option<T>| o),
        present(s).len() == s.filter(|o: Option<T>| o is Some).len(),
        forall|i: int| 0 <= i < s.len() && #[trigger] s[i] is Some ==> present(s).contains(s[i]->0),
    decreases s.len(),
{
    reveal(Seq::filter);
    if s.len() > 0 {
        let init = s.drop_last();
        lemma_present_keeps_every_value(init);
        let last = s.last();
        match last {
            Some(x) => {
                assert(present(s) =~= present(init) + seq![x]);
            },
            None => {},
        }
        assert forall|i: int| 0 <= i < s.len() && #[trigger] s[i] is Some implies present(
            s,
        ).contains(s[i]->0) by {
            if i < s.len() - 1 {
                assert(init[i] == s[i]);
                assert(init[i] is Some);
                let p = choose|p: int| 0 <= p < present(init).len() && present(init)[p] == init[i]->0;
                assert(present(s)[p] == present(init)[p]);
            } else {
                assert(present(s)[present(s).len() - 1] == s[i]->0);
            }
        }
    }
}

/// No fetched item is dropped: where each request position occurs at most
/// once among the fetched items, every fetched item of a request below `n`
/// is in the result.
pub proof fn lemma_in_request_order_keeps_fetched(n: nat, fetched: Seq<(usize, Item)>)
    requires
        forall|i: int, j: int|
            0 <= i < j < fetched.len() ==> #[trigger] fetched[i].0 != #[trigger] fetched[j].0,
    ensures
        forall|j: int|
            0 <= j < fetched.len() && #[trigger] fetched[j].0 < n ==> present(
                place_all(n, fetched),
            ).contains(fetched[j].1),
{
    lemma_place_all_by_request(n, fetched);
    let s = place_all(n, fetched);
    lemma_present_keeps_every_value(s);
    assert forall|j: int| 0 <= j < fetched.len() && #[trigger] fetched[j].0 < n implies present(
        s,
    ).contains(fetched[j].1) by {
        let t = fetched[j].0 as int;
        assert(s[t] == Some(fetched[j].1));
    }
}

/// The user URL is the Firebase base, `/user/`, the name exactly as given
/// (case and every character kept) and `.json`; so different names give
/// different URLs.
pub proof fn lemma_user_url_keeps_name(id: Seq<char>, other: Seq<char>)
    ensures
        user_url_spec(id).len() == 43 + id.len() as int + 5,
        user_url_spec(id).subrange(0, 43) == "https://hacker-news.firebaseio.com/v0/user/"@,
        user_url_spec(id).subrange(43, 43 + id.len() as int) == id,
        user_url_spec(id).subrange(43 + id.len() as int, 43 + id.len() as int + 5) == ".json"@,
        user_url_spec(id) == user_url_spec(other) ==> id == other,
{
    reveal_strlit("https://hacker-news.firebaseio.com/v0");
    reveal_strlit("/user/");
    reveal_strlit(".json");
    reveal_strlit("https://hacker-news.firebaseio.com/v0/user/");
    let u = user_url_spec(id);
    assert(u.subrange(0, 43) =~= "https://hacker-news.firebaseio.com/v0/user/"@);
    assert(u.subrange(43, 43 + id.len() as int) =~= id);
    assert(u.subrange(43 + id.len() as int, 43 + id.len() as int + 5) =~= ".json"@);
    if u == user_url_spec(other) {
        let v = user_url_spec(other);
        assert(v.len() == 43 + other.len() + 5);
        assert(other.len() == id.len());
        assert(v.subrange(43, 43 + other.len() as int) =~= other);
    }
}

/// A feed's URL is the Firebase base, `/`, that feed's endpoint segment and
/// `.json`; different feeds have different segments and so different URLs.
pub proof fn lemma_story_ids_url_follows_endpoint(c: Category, d: Category)
    ensures
        story_ids_url_spec(c) == "https://hacker-news.firebaseio.com/v0/"@ + endpoint_spec(c)
            + ".json"@,
        c != d ==> endpoint_spec(c) != endpoint_spec(d),
        c != d ==> story_ids_url_spec(c) != story_ids_url_spec(d),
{
    reveal_strlit("https://hacker-news.firebaseio.com/v0");
    reveal_strlit("/");
    reveal_strlit("https://hacker-news.firebaseio.com/v0/");
    reveal_strlit(".json");
    reveal_strlit("topstories");
    reveal_strlit("newstories");
    reveal_strlit("beststories");
    reveal_strlit("askstories");
    reveal_strlit("showstories");
    reveal_strlit("jobstories");
    assert(firebase_base() + "/"@ =~= "https://hacker-news.firebaseio.com/v0/"@);
    assert(story_ids_url_spec(c) =~= "https://hacker-news.firebaseio.com/v0/"@ + endpoint_spec(c)
        + ".json"@);
    assert(story_ids_url_spec(d) =~= "https://hacker-news.firebaseio.com/v0/"@ + endpoint_spec(d)
        + ".json"@);
    if c != d {
        let ec = endpoint_spec(c);
        let ed = endpoint_spec(d);
        if ec.len() == ed.len() {
            // Segments of equal length differ in their first letter.
            assert(ec[0] != ed[0]);
        }
        let uc = story_ids_url_spec(c);
        let ud = story_ids_url_spec(d);
        if ec.len() == ed.len() {
            assert(uc[38] == ec[0] && ud[38] == ed[0]);
        } else {
            assert(uc.len() != ud.len());
        }
    }
}

/// The search parameters are the query and the page size first, then the
/// tag filter exactly when tags are given and the numeric filter exactly
/// when one is given, each carrying its value unchanged, the one
/// independently of the other.
pub proof fn lemma_search_params_each_filter(
    query: Seq<char>,
    hits_per_page: u32,
    tags: Option<Seq<char>>,
    numeric_filters: Option<Seq<char>>,
)
    ensures
        ({
            let p = search_params_spec(query, hits_per_page, tags, numeric_filters);
            &&& p.len() == 2 + (if tags is Some { 1int } else { 0 }) + (if numeric_filters is Some {
                1int
            } else {
                0
            })
            &&& p[0] == ("query"@, query)
            &&& p[1] == ("hitsPerPage"@, decimal(hits_per_page as nat))
            &&& (forall|v: Seq<char>| p.contains(("tags"@, v)) <==> tags == Some(v))
            &&& (forall|v: Seq<char>| p.contains(("numericFilters"@, v)) <==> numeric_filters == Some(v))
        }),
{
    reveal_strlit("query");
    reveal_strlit("hitsPerPage");
    reveal_strlit("tags");
    reveal_strlit("numericFilters");
    let p = search_params_spec(query, hits_per_page, tags, numeric_filters);
    assert forall|v: Seq<char>| p.contains(("tags"@, v)) <==> tags == Some(v) by {
        if tags == Some(v) {
            assert(p[2] == ("tags"@, v));
        }
        if p.contains(("tags"@, v)) {
            let i = choose|i: int| 0 <= i < p.len() && p[i] == ("tags"@, v);
            assert(p[i].0 == "tags"@);
            assert("query"@.len() != "tags"@.len());
            assert("hitsPerPage"@.len() != "tags"@.len());
            assert("numericFilters"@.len() != "tags"@.len());
        }
    }
    assert forall|v: Seq<char>| p.contains(("numericFilters"@, v)) <==> numeric_filters == Some(v) by {
        if numeric_filters == Some(v) {
            assert(p[p.len() - 1] == ("numericFilters"@, v));
        }
        if p.contains(("numericFilters"@, v)) {
            let i = choose|i: int| 0 <= i < p.len() && p[i] == ("numericFilters"@, v);
            assert(p[i].0 == "numericFilters"@);
            assert("query"@.len() != "numericFilters"@.len());
            assert("hitsPerPage"@.len() != "numericFilters"@.len());
            assert("tags"@.len() != "numericFilters"@.len());
        }
    }
}

} // verus!
