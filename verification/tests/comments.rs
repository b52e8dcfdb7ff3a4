use std::collections::HashMap;

use hackernews_mcp::comments::CommentWalk;
use hackernews_mcp::types::{CommentNode, Item};

/// A small thread: `(id, kids, dead)` for each comment.
fn thread() -> HashMap<u64, (Vec<u64>, bool)> {
    let mut t = HashMap::new();
    t.insert(1, (vec![4, 5], false));
    t.insert(2, (vec![], false));
    t.insert(3, (vec![7], true));
    t.insert(4, (vec![6], false));
    t.insert(5, (vec![], false));
    t.insert(6, (vec![], false));
    t.insert(7, (vec![], false));
    t
}

fn fetch(t: &HashMap<u64, (Vec<u64>, bool)>, batch: &[u64]) -> Vec<Item> {
    batch
        .iter()
        .filter_map(|id| t.get(id).map(|(kids, dead)| (*id, kids.clone(), *dead)))
        .map(|(id, kids, dead)| Item {
            id,
            kind: Some("comment".to_string()),
            by: Some(format!("user{id}")),
            time: Some(0),
            text: Some(format!("text {id}")),
            url: None,
            title: None,
            score: None,
            descendants: None,
            kids: if kids.is_empty() { None } else { Some(kids) },
            parent: None,
            dead,
            deleted: false,
        })
        .collect()
}

/// Runs a walk to the end; returns the tree, the note and the batches asked for.
fn run(root: Vec<u64>, max_depth: u32, max_comments: usize) -> (Vec<CommentNode>, Option<String>, Vec<Vec<u64>>) {
    let t = thread();
    let mut walk = CommentWalk::new(root, max_depth, max_comments);
    let mut batches = Vec::new();
    while let Some(batch) = walk.next_batch() {
        let items = fetch(&t, &batch);
        batches.push(batch);
        walk.receive(items);
    }
    let (tree, note) = walk.finish();
    (tree, note, batches)
}

fn shape(nodes: &[CommentNode]) -> Vec<(u64, u32, Vec<(u64, u32, usize)>)> {
    nodes
        .iter()
        .map(|n| (n.id, n.depth, n.replies.iter().map(|r| (r.id, r.depth, r.replies.len())).collect()))
        .collect()
}

#[test]
fn full_walk_within_limits() {
    let (tree, note, batches) = run(vec![1, 2, 3], 3, 50);
    assert_eq!(batches, vec![vec![1, 2, 3], vec![4, 5], vec![6]]);
    assert_eq!(shape(&tree), vec![(1, 1, vec![(4, 2, 1), (5, 2, 0)]), (2, 1, vec![])]);
    assert_eq!(tree[0].replies[0].replies[0].id, 6);
    assert_eq!(tree[0].replies[0].replies[0].depth, 3);
    assert_eq!(tree[0].by.as_deref(), Some("user1"));
    assert_eq!(tree[0].text.as_deref(), Some("text 1"));
    assert_eq!(tree[0].time_iso.as_deref(), Some("1970-01-01T00:00:00Z"));
    assert_eq!(note, None);
}

#[test]
fn depth_limit_cuts_deeper_replies() {
    let (tree, note, batches) = run(vec![1, 2, 3], 2, 50);
    assert_eq!(batches, vec![vec![1, 2, 3], vec![4, 5]]);
    assert_eq!(shape(&tree), vec![(1, 1, vec![(4, 2, 0), (5, 2, 0)]), (2, 1, vec![])]);
    assert_eq!(note.as_deref(), Some("Some deeper replies not shown (max_depth=2 reached)"));
}

#[test]
fn comment_cap_counts_what_was_left_out() {
    let (tree, note, batches) = run(vec![1, 2, 3], 3, 2);
    assert_eq!(batches, vec![vec![1, 2]]);
    assert_eq!(shape(&tree), vec![(1, 1, vec![]), (2, 1, vec![])]);
    assert_eq!(
        note.as_deref(),
        Some("3 more comments not shown (limited by max_comments=2, max_depth=3)")
    );
}

#[test]
fn zero_cap_fetches_nothing() {
    let (tree, note, batches) = run(vec![1, 2], 3, 0);
    assert!(batches.is_empty());
    assert!(tree.is_empty());
    assert_eq!(
        note.as_deref(),
        Some("2 more comments not shown (limited by max_comments=0, max_depth=3)")
    );
}

#[test]
fn dead_comments_are_skipped() {
    let (tree, _, _) = run(vec![3, 5], 3, 50);
    assert_eq!(shape(&tree), vec![(5, 1, vec![])]);
}

#[test]
fn missing_items_are_dropped() {
    let (tree, note, batches) = run(vec![99, 2], 3, 50);
    assert_eq!(batches, vec![vec![99, 2]]);
    assert_eq!(shape(&tree), vec![(2, 1, vec![])]);
    assert_eq!(note, None);
}

#[test]
fn a_kid_collected_at_the_same_level_is_nested_too() {
    // Item 1 lists 2 among its kids while 2 is also a direct reply: with
    // max_depth 1 both are collected at level 1, and 2 appears under 1 as
    // well as on its own.
    let mut t: HashMap<u64, (Vec<u64>, bool)> = HashMap::new();
    t.insert(1, (vec![2], false));
    t.insert(2, (vec![], false));
    let mut walk = CommentWalk::new(vec![1, 2], 1, 50);
    while let Some(batch) = walk.next_batch() {
        let items = fetch(&t, &batch);
        walk.receive(items);
    }
    let (tree, note) = walk.finish();
    assert_eq!(shape(&tree), vec![(1, 1, vec![(2, 1, 0)]), (2, 1, vec![])]);
    assert_eq!(note.as_deref(), Some("Some deeper replies not shown (max_depth=1 reached)"));
}

#[test]
fn walk_over_no_replies() {
    let (tree, note, batches) = run(vec![], 3, 50);
    assert!(batches.is_empty() && tree.is_empty() && note.is_none());
}
