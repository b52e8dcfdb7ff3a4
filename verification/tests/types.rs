use hackernews_mcp::types::{
    hn_item_url, unix_to_iso, AlgoliaHit, Item, ItemDetail, SearchHit, StorySummary, User,
    UserProfile,
};

fn item(id: u64) -> Item {
    Item {
        id,
        kind: Some("story".to_string()),
        by: Some("pg".to_string()),
        time: Some(1_704_164_645),
        text: Some("body".to_string()),
        url: Some("https://example.com".to_string()),
        title: Some("A title".to_string()),
        score: Some(42),
        descendants: Some(7),
        kids: Some(vec![2, 3]),
        parent: None,
        dead: false,
        deleted: false,
    }
}

fn hit(object_id: &str) -> AlgoliaHit {
    AlgoliaHit {
        object_id: object_id.to_string(),
        title: None,
        story_title: Some("Story title".to_string()),
        author: Some("dang".to_string()),
        points: Some(10),
        num_comments: Some(3),
        url: None,
        story_url: Some("https://story.example".to_string()),
        created_at_i: Some(0),
    }
}

#[test]
fn iso_timestamps() {
    assert_eq!(unix_to_iso(0).as_deref(), Some("1970-01-01T00:00:00Z"));
    assert_eq!(unix_to_iso(1_704_164_645).as_deref(), Some("2024-01-02T03:04:05Z"));
    assert_eq!(unix_to_iso(-1).as_deref(), Some("1969-12-31T23:59:59Z"));
    assert_eq!(unix_to_iso(i64::MAX), None);
    assert_eq!(unix_to_iso(i64::MIN), None);
}

#[test]
fn item_urls() {
    assert_eq!(hn_item_url(8863), "https://news.ycombinator.com/item?id=8863");
    assert_eq!(hn_item_url(0), "https://news.ycombinator.com/item?id=0");
}

#[test]
fn story_summary_keeps_fields() {
    let s = StorySummary::from_item(item(8863));
    assert_eq!(s.id, 8863);
    assert_eq!(s.title.as_deref(), Some("A title"));
    assert_eq!(s.by.as_deref(), Some("pg"));
    assert_eq!(s.score, Some(42));
    assert_eq!(s.descendants, Some(7));
    assert_eq!(s.url.as_deref(), Some("https://example.com"));
    assert_eq!(s.hn_url, "https://news.ycombinator.com/item?id=8863");
}

#[test]
fn item_detail_has_iso_time_and_no_comments() {
    let d = ItemDetail::from_item(item(1));
    assert_eq!(d.kind.as_deref(), Some("story"));
    assert_eq!(d.time, Some(1_704_164_645));
    assert_eq!(d.time_iso.as_deref(), Some("2024-01-02T03:04:05Z"));
    assert_eq!(d.text.as_deref(), Some("body"));
    assert_eq!(d.hn_url, "https://news.ycombinator.com/item?id=1");
    assert!(d.comments.is_none());
    assert!(d.truncation_note.is_none());

    let mut bare = item(2);
    bare.time = None;
    assert!(ItemDetail::from_item(bare).time_iso.is_none());
}

#[test]
fn user_profile_counts_submissions() {
    let u = User {
        id: "pg".to_string(),
        created: Some(1_160_418_092),
        karma: Some(155_000),
        about: Some("Bug fixer.".to_string()),
        submitted: Some(vec![1, 2, 3]),
    };
    let p = UserProfile::from_user(u);
    assert_eq!(p.id, "pg");
    assert_eq!(p.karma, Some(155_000));
    assert_eq!(p.about.as_deref(), Some("Bug fixer."));
    assert_eq!(p.created_iso.as_deref(), Some("2006-10-09T18:21:32Z"));
    assert_eq!(p.submitted_count, 3);

    let none = User { id: "x".to_string(), created: None, karma: None, about: None, submitted: None };
    let p = UserProfile::from_user(none);
    assert_eq!(p.submitted_count, 0);
    assert!(p.created_iso.is_none());
}

#[test]
fn search_hit_falls_back_to_story_fields() {
    let h = SearchHit::from_hit(hit("8863"));
    assert_eq!(h.id, Some(8863));
    assert_eq!(h.title.as_deref(), Some("Story title"));
    assert_eq!(h.url.as_deref(), Some("https://story.example"));
    assert_eq!(h.author.as_deref(), Some("dang"));
    assert_eq!(h.points, Some(10));
    assert_eq!(h.num_comments, Some(3));
    assert_eq!(h.created_at, Some(0));
    assert_eq!(h.created_at_iso.as_deref(), Some("1970-01-01T00:00:00Z"));
    assert_eq!(h.hn_url.as_deref(), Some("https://news.ycombinator.com/item?id=8863"));
}

#[test]
fn search_hit_prefers_own_title_and_url() {
    let mut raw = hit("5");
    raw.title = Some("Own".to_string());
    raw.url = Some("https://own.example".to_string());
    let h = SearchHit::from_hit(raw);
    assert_eq!(h.title.as_deref(), Some("Own"));
    assert_eq!(h.url.as_deref(), Some("https://own.example"));
}

#[test]
fn search_hit_with_unparsable_id_has_no_url() {
    let h = SearchHit::from_hit(hit("abc"));
    assert_eq!(h.id, None);
    assert_eq!(h.hn_url, None);
}
