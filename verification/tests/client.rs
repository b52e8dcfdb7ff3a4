use hackernews_mcp::client::{
    in_request_order, item_url, search_params, search_url, story_ids_url, user_url, Category,
    SearchSort,
};
use hackernews_mcp::types::Item;

fn item(id: u64) -> Item {
    Item {
        id,
        kind: None,
        by: None,
        time: None,
        text: None,
        url: None,
        title: None,
        score: None,
        descendants: None,
        kids: None,
        parent: None,
        dead: false,
        deleted: false,
    }
}

#[test]
fn endpoints_of_feeds() {
    assert_eq!(Category::Top.endpoint(), "topstories");
    assert_eq!(Category::New.endpoint(), "newstories");
    assert_eq!(Category::Best.endpoint(), "beststories");
    assert_eq!(Category::Ask.endpoint(), "askstories");
    assert_eq!(Category::Show.endpoint(), "showstories");
    assert_eq!(Category::Job.endpoint(), "jobstories");
}

#[test]
fn firebase_urls() {
    assert_eq!(story_ids_url(Category::Best), "https://hacker-news.firebaseio.com/v0/beststories.json");
    assert_eq!(item_url(8863), "https://hacker-news.firebaseio.com/v0/item/8863.json");
    assert_eq!(user_url("pg"), "https://hacker-news.firebaseio.com/v0/user/pg.json");
}

#[test]
fn algolia_urls() {
    assert_eq!(search_url(SearchSort::Relevance), "https://hn.algolia.com/api/v1/search");
    assert_eq!(search_url(SearchSort::Date), "https://hn.algolia.com/api/v1/search_by_date");
}

fn pairs(p: &[(String, String)]) -> Vec<(&str, &str)> {
    p.iter().map(|(k, v)| (k.as_str(), v.as_str())).collect()
}

#[test]
fn search_parameters_in_order() {
    let p = search_params("rust", 20, None, None);
    assert_eq!(pairs(&p), vec![("query", "rust"), ("hitsPerPage", "20")]);
    let p = search_params("rust", 100, Some("story"), Some("points>=10"));
    assert_eq!(
        pairs(&p),
        vec![("query", "rust"), ("hitsPerPage", "100"), ("tags", "story"), ("numericFilters", "points>=10")]
    );
    let p = search_params("", 1, None, Some("points>=-1"));
    assert_eq!(pairs(&p), vec![("query", ""), ("hitsPerPage", "1"), ("numericFilters", "points>=-1")]);
}

#[test]
fn fetched_items_come_back_in_request_order() {
    let fetched = vec![(3, item(40)), (0, item(10)), (2, item(30))];
    let ids: Vec<u64> = in_request_order(5, fetched).iter().map(|i| i.id).collect();
    assert_eq!(ids, vec![10, 30, 40]);
}

#[test]
fn nothing_fetched_gives_nothing() {
    assert!(in_request_order(3, Vec::new()).is_empty());
    assert!(in_request_order(0, vec![(0, item(1))]).is_empty());
}
