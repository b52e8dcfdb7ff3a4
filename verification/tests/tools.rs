use hackernews_mcp::client::{Category, SearchSort};
use hackernews_mcp::tools::{
    comment_limits, first_ids, item_not_found_message, points_filter, root_kids, search_limit,
    search_rows, search_sort, stories_category, stories_limit, story_rows,
    user_not_found_message, CategoryArg, GetItemArgs, GetStoriesArgs, SearchArgs, SortArg,
};
use hackernews_mcp::types::{AlgoliaHit, AlgoliaResponse, Item};

fn item(id: u64, kids: Option<Vec<u64>>) -> Item {
    Item {
        id,
        kind: None,
        by: None,
        time: None,
        text: None,
        url: None,
        title: Some(format!("t{id}")),
        score: None,
        descendants: None,
        kids,
        parent: None,
        dead: false,
        deleted: false,
    }
}

fn search(limit: Option<u32>, sort: Option<SortArg>) -> SearchArgs {
    SearchArgs { query: "q".to_string(), sort, tags: None, min_points: None, limit }
}

#[test]
fn category_arguments_map_to_feeds() {
    let pairs = [
        (CategoryArg::Top, Category::Top),
        (CategoryArg::New, Category::New),
        (CategoryArg::Best, Category::Best),
        (CategoryArg::Ask, Category::Ask),
        (CategoryArg::Show, Category::Show),
        (CategoryArg::Job, Category::Job),
    ];
    for (arg, cat) in pairs {
        assert_eq!(Category::from(arg), cat);
        assert_eq!(stories_category(&GetStoriesArgs { category: Some(arg), limit: None }), cat);
    }
    assert_eq!(stories_category(&GetStoriesArgs { category: None, limit: None }), Category::Top);
}

#[test]
fn story_limit_defaults_and_clamps() {
    let lim = |l| stories_limit(&GetStoriesArgs { category: None, limit: l });
    assert_eq!(lim(None), 30);
    assert_eq!(lim(Some(0)), 1);
    assert_eq!(lim(Some(1)), 1);
    assert_eq!(lim(Some(7)), 7);
    assert_eq!(lim(Some(100)), 100);
    assert_eq!(lim(Some(500)), 100);
}

#[test]
fn first_ids_truncates() {
    assert_eq!(first_ids(vec![1, 2, 3, 4], 2), vec![1, 2]);
    assert_eq!(first_ids(vec![1, 2], 5), vec![1, 2]);
}

#[test]
fn story_rows_in_order() {
    let rows = story_rows(vec![item(5, None), item(3, None)]);
    assert_eq!(rows.len(), 2);
    assert_eq!(rows[0].id, 5);
    assert_eq!(rows[1].title.as_deref(), Some("t3"));
    assert_eq!(rows[1].hn_url, "https://news.ycombinator.com/item?id=3");
}

#[test]
fn not_found_messages() {
    assert_eq!(
        item_not_found_message(123),
        "Item 123 not found — it may be deleted or the ID may be invalid."
    );
    assert_eq!(user_not_found_message("Pg"), "User 'Pg' not found — usernames are case-sensitive.");
}

#[test]
fn root_kids_of_items() {
    assert_eq!(root_kids(&item(1, Some(vec![4, 5]))), vec![4, 5]);
    assert!(root_kids(&item(1, None)).is_empty());
}

#[test]
fn comment_limits_defaults() {
    let args = |inc, d, c| GetItemArgs { id: 1, include_comments: inc, max_depth: d, max_comments: c };
    let kids = vec![2, 3];
    assert_eq!(comment_limits(&args(None, None, None), &kids), Some((3, 50)));
    assert_eq!(comment_limits(&args(Some(true), Some(0), Some(5)), &kids), Some((1, 5)));
    assert_eq!(comment_limits(&args(Some(true), Some(7), Some(0)), &kids), Some((7, 0)));
    assert_eq!(comment_limits(&args(Some(false), None, None), &kids), None);
    assert_eq!(comment_limits(&args(None, None, None), &Vec::new()), None);
}

#[test]
fn search_defaults_and_clamps() {
    assert_eq!(search_limit(&search(None, None)), 20);
    assert_eq!(search_limit(&search(Some(0), None)), 1);
    assert_eq!(search_limit(&search(Some(55), None)), 55);
    assert_eq!(search_limit(&search(Some(101), None)), 100);
    assert_eq!(search_sort(&search(None, None)), SearchSort::Relevance);
    assert_eq!(search_sort(&search(None, Some(SortArg::Relevance))), SearchSort::Relevance);
    assert_eq!(search_sort(&search(None, Some(SortArg::Date))), SearchSort::Date);
}

#[test]
fn points_filters() {
    assert_eq!(points_filter(None), None);
    assert_eq!(points_filter(Some(100)).as_deref(), Some("points>=100"));
    assert_eq!(points_filter(Some(-5)).as_deref(), Some("points>=-5"));
    assert_eq!(points_filter(Some(0)).as_deref(), Some("points>=0"));
}

#[test]
fn search_rows_in_order() {
    let hit = |id: &str| AlgoliaHit {
        object_id: id.to_string(),
        title: Some(format!("h{id}")),
        story_title: None,
        author: None,
        points: None,
        num_comments: None,
        url: None,
        story_url: None,
        created_at_i: None,
    };
    let rows = search_rows(AlgoliaResponse { hits: vec![hit("2"), hit("x"), hit("1")] });
    assert_eq!(rows.len(), 3);
    assert_eq!(rows[0].id, Some(2));
    assert_eq!(rows[1].id, None);
    assert_eq!(rows[1].title.as_deref(), Some("hx"));
    assert_eq!(rows[2].hn_url.as_deref(), Some("https://news.ycombinator.com/item?id=1"));
}
