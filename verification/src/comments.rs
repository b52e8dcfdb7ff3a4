//! The capped breadth-first walk of a comment tree behind `get_item`.
//!
//! The walk alternates between fetching a level of comments and deciding
//! what to fetch next, so it is a state machine: `next_batch` says which ids
//! to fetch, `receive` takes the items that came back, and `finish`
//! assembles the nested tree and the truncation note.

use std::collections::HashMap;
use vstd::prelude::*;

use crate::text::{decimal, u64_to_decimal};
use crate::types::{
    iso_of_opt, node_view, nodes_view, opt_str_view, opt_unix_to_iso, CommentNode,
    CommentView, Item,
};

verus! {

broadcast use vstd::std_specs::hash::group_hash_axioms;

/// What the walk keeps of a comment it has collected.
#[derive(Debug)]
pub struct RawComment {
    pub by: Option<String>,
    pub text: Option<String>,
    pub time: Option<i64>,
    /// The level of the walk at which the comment was collected (1 for a
    /// direct reply to the item).
    pub depth: u32,
    pub kids: Option<Vec<u64>>,
}

/// The ids of an optional kid list: none where the list is absent.
pub open spec fn kids_of(kids: Option<Vec<u64>>) -> Seq<u64> {
    match kids {
        Some(v) => v@,
        None => Seq::empty(),
    }
}

/// What the walk keeps of an item collected at `depth`.
pub open spec fn raw_of(item: Item, depth: u32) -> RawComment {
    RawComment { by: item.by, text: item.text, time: item.time, depth, kids: item.kids }
}

/// The outcome of taking in one level's fetched items.
pub struct Absorbed {
    /// The collected comments by id.
    pub collected: Map<u64, RawComment>,
    /// The ids to fetch at the next level, in order.
    pub next: Seq<u64>,
    /// Whether a kept comment at the last level had replies left unfetched.
    pub cut: bool,
}

/// Takes in `items`, fetched at level `depth`, in order: dead and deleted
/// items are skipped; every other item is collected under its id (a later
/// one replacing an earlier one with the same id); its kids are queued for
/// the next level when `expand` holds, and otherwise mark the tree as cut
/// when there are any.
pub open spec fn absorb(m: Map<u64, RawComment>, items: Seq<Item>, depth: u32, expand: bool) -> Absorbed
    decreases items.len(),
{
    if items.len() == 0 {
        Absorbed { collected: m, next: Seq::empty(), cut: false }
    } else {
        let prev = absorb(m, items.drop_last(), depth, expand);
        let it = items.last();
        if it.deleted || it.dead {
            prev
        } else {
            let kids = kids_of(it.kids);
            Absorbed {
                collected: prev.collected.insert(it.id, raw_of(it, depth)),
                next: if expand { prev.next + kids } else { prev.next },
                cut: prev.cut || (!expand && kids.len() > 0),
            }
        }
    }
}

/// The state of a comment walk.
pub struct WalkState {
    /// The item's direct replies, in order.
    pub root_kids: Seq<u64>,
    pub max_depth: u32,
    pub max_comments: usize,
    /// The comments collected so far, by id.
    pub collected: Map<u64, RawComment>,
    /// The ids to fetch at the current level.
    pub frontier: Seq<u64>,
    /// The current level (1 for the direct replies).
    pub level: nat,
    /// How many comments were left unfetched for the cap.
    pub overflow: nat,
    /// Whether anything was left out of the tree.
    pub truncated: bool,
    /// Whether the walk has stopped.
    pub finished: bool,
    /// The size of the batch handed out and not yet answered.
    pub pending: Option<nat>,
}

/// The walk at its start: the direct replies are the first level to fetch.
pub open spec fn initial_walk(root_kids: Seq<u64>, max_depth: u32, max_comments: usize) -> WalkState {
    WalkState {
        root_kids,
        max_depth,
        max_comments,
        collected: Map::empty(),
        frontier: root_kids,
        level: 1,
        overflow: 0,
        truncated: false,
        finished: false,
        pending: None,
    }
}

/// Addition that stops at `usize::MAX`.
pub open spec fn saturating_sum(a: nat, b: nat) -> nat {
    if a + b > usize::MAX {
        usize::MAX as nat
    } else {
        a + b
    }
}

/// How many more comments the cap allows.
pub open spec fn room_left(s: WalkState) -> nat {
    if s.collected.len() < s.max_comments {
        (s.max_comments - s.collected.len()) as nat
    } else {
        0
    }
}

/// The next decision of the walk: the new state and the ids to fetch, if any.
///
/// The walk stops when the frontier is empty or the level is past
/// `max_depth`. When the cap leaves no room, the whole frontier counts as
/// overflow and the walk stops. Otherwise it fetches as much of the frontier
/// as the cap allows, and what does not fit counts as overflow. While a
/// batch is unanswered nothing changes.
pub open spec fn batch_step(s: WalkState) -> (WalkState, Option<Seq<u64>>) {
    if s.pending is Some {
        (s, None)
    } else if s.finished || s.frontier.len() == 0 || s.level > s.max_depth {
        (WalkState { finished: true, ..s }, None)
    } else if room_left(s) == 0 {
        (
            WalkState {
                overflow: saturating_sum(s.overflow, s.frontier.len()),
                truncated: true,
                finished: true,
                ..s
            },
            None,
        )
    } else {
        let take = if s.frontier.len() < room_left(s) { s.frontier.len() } else { room_left(s) };
        (
            WalkState {
                overflow: if take < s.frontier.len() {
                    saturating_sum(s.overflow, (s.frontier.len() - take) as nat)
                } else {
                    s.overflow
                },
                truncated: s.truncated || take < s.frontier.len(),
                pending: Some(take),
                ..s
            },
            Some(s.frontier.take(take as int)),
        )
    }
}

/// The walk after the items fetched for the pending batch came back: they
/// are taken in at the current level, their kids form the next frontier, and
/// the level moves on. Without a pending batch nothing changes.
pub open spec fn receive_step(s: WalkState, items: Seq<Item>) -> WalkState {
    if s.pending is None {
        s
    } else {
        let a = absorb(s.collected, items, s.level as u32, s.level < s.max_depth);
        WalkState {
            collected: a.collected,
            frontier: a.next,
            truncated: s.truncated || a.cut,
            level: s.level + 1,
            pending: None,
            ..s
        }
    }
}

/// The comment tree under the collected comment `id`, nesting at most
/// `fuel` levels: the comment itself, with the trees of its collected kids
/// one level down.
pub open spec fn tree_node(id: u64, m: Map<u64, RawComment>, fuel: nat) -> CommentView
    decreases fuel, 0int, 0int,
{
    let r = m[id];
    CommentView {
        id,
        by: opt_str_view(r.by),
        text: opt_str_view(r.text),
        time: r.time,
        time_iso: iso_of_opt(r.time),
        depth: r.depth,
        replies: if fuel == 0 {
            Seq::empty()
        } else {
            tree_list(kids_of(r.kids), m, (fuel - 1) as nat)
        },
    }
}

/// The trees of those of `ids` that were collected, in the order of `ids`,
/// nesting at most `fuel` levels (none where `fuel` is 0).
///
/// The walk assembles with `fuel` equal to the number of collected
/// comments. A chain of nested replies through distinct comments is never
/// longer than that, so wherever the replies do not loop back on
/// themselves the result is the full nesting, every collected kid under
/// each comment that lists it (`lemma_tree_fuel_enough` proves that more
/// fuel changes nothing where every id occurs once); only a reply cycle,
/// whose nesting would never end, is cut off there.
pub open spec fn tree_list(ids: Seq<u64>, m: Map<u64, RawComment>, fuel: nat) -> Seq<CommentView>
    decreases fuel, 1int, ids.len(),
{
    if fuel == 0 || ids.len() == 0 {
        Seq::empty()
    } else {
        let prev = tree_list(ids.drop_last(), m, fuel);
        let k = ids.last();
        if m.contains_key(k) {
            prev.push(tree_node(k, m, fuel))
        } else {
            prev
        }
    }
}

/// The note that says what the tree leaves out, if anything.
pub open spec fn note_spec(truncated: bool, overflow: nat, max_comments: usize, max_depth: u32) -> Option<Seq<char>> {
    if !truncated {
        None
    } else if overflow > 0 {
        Some(
            decimal(overflow) + " more comments not shown (limited by max_comments="@ + decimal(
                max_comments as nat,
            ) + ", max_depth="@ + decimal(max_depth as nat) + ")"@,
        )
    } else {
        Some("Some deeper replies not shown (max_depth="@ + decimal(max_depth as nat) + " reached)"@)
    }
}

/// A breadth-first walk of a comment tree, fetching one level at a time and
/// stopping at `max_depth` or once `max_comments` are collected.
pub struct CommentWalk {
    root_kids: Vec<u64>,
    max_depth: u32,
    max_comments: usize,
    collected: HashMap<u64, RawComment>,
    frontier: Vec<u64>,
    level: u64,
    overflow: usize,
    truncated: bool,
    finished: bool,
    pending: Option<usize>,
}

impl View for CommentWalk {
    type V = WalkState;

    closed spec fn view(&self) -> WalkState {
        WalkState {
            root_kids: self.root_kids@,
            max_depth: self.max_depth,
            max_comments: self.max_comments,
            collected: self.collected@,
            frontier: self.frontier@,
            level: self.level as nat,
            overflow: self.overflow as nat,
            truncated: self.truncated,
            finished: self.finished,
            pending: match self.pending {
                Some(n) => Some(n as nat),
                None => None,
            },
        }
    }
}

/// The shape every walk keeps: levels start at 1 and never pass
/// `max_depth + 1`, a batch is only pending at a level within `max_depth`,
/// and every collected comment sits at a level within `1..=max_depth` that
/// has already been taken in.
pub open spec fn walk_wf(s: WalkState) -> bool {
    &&& 1 <= s.level <= s.max_depth + 1
    &&& (s.pending is Some ==> s.level <= s.max_depth)
    &&& s.overflow <= usize::MAX
    &&& s.collected.dom().finite()
    &&& forall|k: u64| #[trigger]
        s.collected.contains_key(k) ==> 1 <= s.collected[k].depth <= s.max_depth
            && s.collected[k].depth < s.level
}

/// Whether the walk is within its cap: at most `max_comments` collected, and
/// room for the whole pending batch.
pub open spec fn within_cap(s: WalkState) -> bool {
    &&& s.collected.len() <= s.max_comments
    &&& (s.pending matches Some(n) ==> s.collected.len() + n <= s.max_comments)
}

/// The ids of an optional batch.
pub open spec fn opt_ids(b: Option<Vec<u64>>) -> Option<Seq<u64>> {
    match b {
        Some(v) => Some(v@),
        None => None,
    }
}


/// Taking in a level keeps every collected comment at a level within
/// `1..=hi` and no deeper than the level taken in, and adds at most one
/// comment per fetched item.
proof fn lemma_absorb_shape(m: Map<u64, RawComment>, items: Seq<Item>, depth: u32, expand: bool, hi: u32)
    requires
        m.dom().finite(),
        1 <= depth <= hi,
        forall|k: u64| #[trigger] m.contains_key(k) ==> 1 <= m[k].depth <= hi && m[k].depth <= depth,
    ensures
        absorb(m, items, depth, expand).collected.dom().finite(),
        absorb(m, items, depth, expand).collected.len() <= m.len() + items.len(),
        forall|k: u64| #[trigger]
            absorb(m, items, depth, expand).collected.contains_key(k) ==> 1 <= absorb(
                m,
                items,
                depth,
                expand,
            ).collected[k].depth <= hi && absorb(m, items, depth, expand).collected[k].depth
                <= depth,
    decreases items.len(),
{
    if items.len() > 0 {
        lemma_absorb_shape(m, items.drop_last(), depth, expand, hi);
        let prev = absorb(m, items.drop_last(), depth, expand);
        let it = items.last();
        if !(it.deleted || it.dead) {
            let c2 = prev.collected.insert(it.id, raw_of(it, depth));
            assert(c2.dom() =~= prev.collected.dom().insert(it.id));
        }
    }
}

/// Clones an optional string, keeping its text.
fn clone_opt_string(o: &Option<String>) -> (r: Option<String>)
    ensures
        opt_str_view(r) == opt_str_view(*o),
{
    match o {
        Some(s) => Some(s.clone()),
        None => None,
    }
}

impl CommentWalk {
    /// The shape the walk keeps between calls.
    pub closed spec fn wf(&self) -> bool {
        &&& walk_wf(self@)
        &&& self.level <= u32::MAX as u64 + 1
    }

    /// Starts a walk over the item's direct replies `root_kids`.
    pub fn new(root_kids: Vec<u64>, max_depth: u32, max_comments: usize) -> (r: Self)
        ensures
            r.wf(),
            walk_wf(r@),
            r@ == initial_walk(root_kids@, max_depth, max_comments),
            within_cap(r@),
            r@.overflow == 0,
    {
        let frontier = root_kids.clone();
        proof {
            assert(frontier@ =~= root_kids@);
        }
        let r = CommentWalk {
            root_kids,
            max_depth,
            max_comments,
            collected: HashMap::new(),
            frontier,
            level: 1,
            overflow: 0,
            truncated: false,
            finished: false,
            pending: None,
        };
        proof {
            assert(r@.collected =~= Map::empty());
        }
        r
    }

    /// Decides what to fetch next: the ids of the next batch, or `None` once
    /// the walk has stopped (see `batch_step`).
    pub fn next_batch(&mut self) -> (r: Option<Vec<u64>>)
        requires
            old(self).wf(),
        ensures
            final(self).wf(),
            walk_wf(final(self)@),
            (final(self)@, opt_ids(r)) == batch_step(old(self)@),
            within_cap(old(self)@) ==> within_cap(final(self)@),
            r matches Some(b) ==> b.len() > 0 && b.len() <= room_left(old(self)@),
            (old(self)@.overflow > 0 ==> old(self)@.truncated) ==> (final(self)@.overflow > 0
                ==> final(self)@.truncated),
    {
        if self.pending.is_some() {
            return None;
        }
        if self.finished || self.frontier.len() == 0 || self.level > self.max_depth as u64 {
            self.finished = true;
            return None;
        }
        let have = self.collected.len();
        let room = self.max_comments.saturating_sub(have);
        let flen = self.frontier.len();
        if room == 0 {
            self.overflow = self.overflow.saturating_add(flen);
            self.truncated = true;
            self.finished = true;
            return None;
        }
        let take = if flen < room {
            flen
        } else {
            room
        };
        if take < flen {
            self.overflow = self.overflow.saturating_add(flen - take);
            self.truncated = true;
        }
        let mut batch: Vec<u64> = Vec::new();
        let mut i: usize = 0;
        while i < take
            invariant
                take <= flen,
                flen == self.frontier@.len(),
                i <= take,
                batch@ =~= self.frontier@.take(i as int),
            decreases take - i,
        {
            batch.push(self.frontier[i]);
            i = i + 1;
        }
        self.pending = Some(take);
        Some(batch)
    }

    /// Takes in the items fetched for the pending batch, in the order they
    /// were asked for, and moves to the next level (see `receive_step`).
    /// Within the cap, a batch answered by no more items than it asked for
    /// keeps the walk within the cap.
    pub fn receive(&mut self, items: Vec<Item>)
        requires
            old(self).wf(),
        ensures
            final(self).wf(),
            walk_wf(final(self)@),
            final(self)@ == receive_step(old(self)@, items@),
            within_cap(old(self)@) && (old(self)@.pending matches Some(n) && items@.len() <= n)
                ==> within_cap(final(self)@),
            (old(self)@.overflow > 0 ==> old(self)@.truncated) ==> (final(self)@.overflow > 0
                ==> final(self)@.truncated),
    {
        if self.pending.is_none() {
            return;
        }
        let ghost m0 = self.collected@;
        let ghost all = items@;
        let ghost before = *self;
        let depth: u32 = self.level as u32;
        let expand: bool = self.level < self.max_depth as u64;
        let mut next: Vec<u64> = Vec::new();
        let mut cut = false;
        proof {
            assert(all.take(0) =~= Seq::<Item>::empty());
            lemma_absorb_shape(m0, all, depth, expand, self.max_depth);
        }
        for item in it: items.into_iter()
            invariant
                all == it.seq(),
                self.root_kids == before.root_kids,
                self.max_depth == before.max_depth,
                self.max_comments == before.max_comments,
                self.frontier == before.frontier,
                self.level == before.level,
                self.overflow == before.overflow,
                self.truncated == before.truncated,
                self.finished == before.finished,
                self.pending == before.pending,
                self.level <= self.max_depth,
                depth == self.level as u32,
                1 <= depth <= self.max_depth,
                m0.dom().finite(),
                forall|k: u64| #[trigger]
                    m0.contains_key(k) ==> 1 <= m0[k].depth <= self.max_depth && m0[k].depth
                        <= depth,
                absorb(m0, all.take(it.index()), depth, expand).collected == self.collected@,
                absorb(m0, all.take(it.index()), depth, expand).next == next@,
                absorb(m0, all.take(it.index()), depth, expand).cut == cut,
        {
            let ghost i = it.index();
            proof {
                assert(all.take(i + 1).drop_last() =~= all.take(i));
                assert(all.take(i + 1).last() == item);
            }
            if !(item.deleted || item.dead) {
                match &item.kids {
                    Some(ks) => {
                        if expand {
                            let mut j: usize = 0;
                            let ghost base = next@;
                            while j < ks.len()
                                invariant
                                    j <= ks.len(),
                                    next@ =~= base + ks@.take(j as int),
                                decreases ks.len() - j,
                            {
                                next.push(ks[j]);
                                j = j + 1;
                            }
                            proof {
                                assert(ks@.take(ks@.len() as int) =~= ks@);
                            }
                        } else if ks.len() > 0 {
                            cut = true;
                        }
                    },
                    None => {
                        proof {
                            assert(next@ + Seq::<u64>::empty() =~= next@);
                        }
                    },
                }
                let id = item.id;
                let raw = RawComment {
                    by: item.by,
                    text: item.text,
                    time: item.time,
                    depth,
                    kids: item.kids,
                };
                self.collected.insert(id, raw);
            }
        }
        proof {
            assert(all.take(all.len() as int) =~= all);
        }
        self.frontier = next;
        self.truncated = self.truncated || cut;
        self.level = self.level + 1;
        self.pending = None;
    }

    /// Assembles the nested comment tree from what was collected, in the
    /// order of the item's replies, and the note that says what was left out.
    /// Every collected kid is nested under each comment that lists it; the
    /// nesting is bounded by the number of collected comments, which only a
    /// reply cycle reaches (see `tree_list`).
    pub fn finish(self) -> (r: (Vec<CommentNode>, Option<String>))
        requires
            self.wf(),
        ensures
            nodes_view(r.0@) == tree_list(
                self@.root_kids,
                self@.collected,
                self@.collected.len(),
            ),
            opt_str_view(r.1) == note_spec(
                self@.truncated,
                self@.overflow,
                self@.max_comments,
                self@.max_depth,
            ),
            r.1 is Some <==> self@.truncated,
    {
        let fuel = self.collected.len();
        let tree = assemble_list(&self.root_kids, &self.collected, fuel);
        let note = truncation_note(self.truncated, self.overflow, self.max_comments, self.max_depth);
        proof {
            lemma_note_reports_cut(self.truncated, self.overflow as nat, self.max_comments, self.max_depth);
        }
        (tree, note)
    }
}

/// Appending one node to a list appends its view to the list's views.
proof fn lemma_nodes_view_push(cs: Seq<CommentNode>, c: CommentNode)
    ensures
        nodes_view(cs.push(c)) == nodes_view(cs).push(node_view(c)),
{
    let p = cs.push(c);
    assert(p.subrange(0, p.len() - 1) =~= cs);
}

/// Builds the tree under the collected comment `id`, nesting at most `fuel`
/// levels.
fn assemble_node(id: u64, raw: &RawComment, m: &HashMap<u64, RawComment>, fuel: usize) -> (r: CommentNode)
    requires
        m@.contains_key(id),
        m@[id] == *raw,
    ensures
        node_view(r) == tree_node(id, m@, fuel as nat),
    decreases fuel, 0int, 0int,
{
    let replies = if fuel == 0 {
        Vec::new()
    } else {
        match &raw.kids {
            Some(ks) => assemble_list(ks, m, fuel - 1),
            None => Vec::new(),
        }
    };
    let r = CommentNode {
        id,
        by: clone_opt_string(&raw.by),
        text: clone_opt_string(&raw.text),
        time: raw.time,
        time_iso: opt_unix_to_iso(raw.time),
        depth: raw.depth,
        replies,
    };
    proof {
        if fuel == 0 || raw.kids is None {
            assert(r.replies@ =~= Seq::<CommentNode>::empty());
        }
        if fuel != 0 && raw.kids is None {
            assert(kids_of(raw.kids) =~= Seq::<u64>::empty());
        }
    }
    r
}

/// Builds the trees of those of `ids` that were collected, in order,
/// nesting at most `fuel` levels.
fn assemble_list(ids: &Vec<u64>, m: &HashMap<u64, RawComment>, fuel: usize) -> (r: Vec<CommentNode>)
    ensures
        nodes_view(r@) == tree_list(ids@, m@, fuel as nat),
    decreases fuel, 1int, 0int,
{
    let mut out: Vec<CommentNode> = Vec::new();
    if fuel == 0 {
        proof {
            assert(out@ =~= Seq::<CommentNode>::empty());
        }
        return out;
    }
    let mut i: usize = 0;
    proof {
        assert(ids@.take(0) =~= Seq::<u64>::empty());
        assert(out@ =~= Seq::<CommentNode>::empty());
    }
    while i < ids.len()
        invariant
            fuel > 0,
            i <= ids@.len(),
            nodes_view(out@) == tree_list(ids@.take(i as int), m@, fuel as nat),
        decreases ids.len() - i,
    {
        let k = ids[i];
        proof {
            assert(ids@.take(i + 1).drop_last() =~= ids@.take(i as int));
            assert(ids@.take(i + 1).last() == k);
        }
        match m.get(&k) {
            Some(raw) => {
                let node = assemble_node(k, raw, m, fuel);
                proof {
                    lemma_nodes_view_push(out@, node);
                }
                out.push(node);
            },
            None => {},
        }
        i = i + 1;
    }
    proof {
        assert(ids@.take(ids@.len() as int) =~= ids@);
    }
    out
}

/// Writes the note that says what the tree leaves out, if anything.
fn truncation_note(truncated: bool, overflow: usize, max_comments: usize, max_depth: u32) -> (r: Option<String>)
    ensures
        opt_str_view(r) == note_spec(truncated, overflow as nat, max_comments, max_depth),
{
    if !truncated {
        None
    } else if overflow > 0 {
        let mut note = u64_to_decimal(overflow as u64);
        note.append(" more comments not shown (limited by max_comments=");
        note.append(u64_to_decimal(max_comments as u64).as_str());
        note.append(", max_depth=");
        note.append(u64_to_decimal(max_depth as u64).as_str());
        note.append(")");
        Some(note)
    } else {
        let mut note = String::from_str("Some deeper replies not shown (max_depth=");
        note.append(u64_to_decimal(max_depth as u64).as_str());
        note.append(" reached)");
        Some(note)
    }
}


/// Every node of a list of trees, and every reply below it, sits at a
/// depth within `1..=hi`.
pub open spec fn depths_within(nodes: Seq<CommentView>, hi: int) -> bool
    decreases nodes,
{
    forall|i: int|
        0 <= i < nodes.len() ==> 1 <= #[trigger] nodes[i].depth <= hi && depths_within(
            nodes[i].replies,
            hi,
        )
}

proof fn lemma_tree_node_depths(id: u64, m: Map<u64, RawComment>, fuel: nat, hi: u32)
    requires
        forall|k: u64| #[trigger] m.contains_key(k) ==> 1 <= m[k].depth <= hi,
        m.contains_key(id),
    ensures
        1 <= tree_node(id, m, fuel).depth <= hi,
        depths_within(tree_node(id, m, fuel).replies, hi as int),
    decreases fuel, 0int, 0int,
{
    if fuel > 0 {
        lemma_tree_list_depths(kids_of(m[id].kids), m, (fuel - 1) as nat, hi);
    }
}

proof fn lemma_tree_list_depths(ids: Seq<u64>, m: Map<u64, RawComment>, fuel: nat, hi: u32)
    requires
        forall|k: u64| #[trigger] m.contains_key(k) ==> 1 <= m[k].depth <= hi,
    ensures
        depths_within(tree_list(ids, m, fuel), hi as int),
    decreases fuel, 1int, ids.len(),
{
    if fuel > 0 && ids.len() > 0 {
        lemma_tree_list_depths(ids.drop_last(), m, fuel, hi);
        let prev = tree_list(ids.drop_last(), m, fuel);
        let k = ids.last();
        if m.contains_key(k) {
            lemma_tree_node_depths(k, m, fuel, hi);
            let all = prev.push(tree_node(k, m, fuel));
            assert forall|i: int| 0 <= i < all.len() implies 1 <= #[trigger] all[i].depth <= hi
                && depths_within(all[i].replies, hi as int) by {
                if i < prev.len() {
                    assert(all[i] == prev[i]);
                }
            }
        }
    }
}

/// The comment tree never goes deeper than `max_depth`: every node of the
/// tree that a walk assembles, and every reply below it, sits at a depth
/// within `1..=max_depth`.
pub proof fn lemma_tree_depth_bounded(w: WalkState)
    requires
        walk_wf(w),
    ensures
        depths_within(tree_list(w.root_kids, w.collected, w.collected.len()), w.max_depth as int),
{
    lemma_tree_list_depths(w.root_kids, w.collected, w.collected.len(), w.max_depth);
}

/// The number of nodes in a list of trees, replies included.
pub open spec fn tree_size(nodes: Seq<CommentView>) -> nat
    decreases nodes,
{
    if nodes.len() == 0 {
        0
    } else {
        tree_size(nodes.subrange(0, nodes.len() - 1)) + 1 + tree_size(
            nodes[nodes.len() - 1].replies,
        )
    }
}

/// Whether every id occurs at most once among `ids` and the kid lists of the
/// collected comments: no list repeats an id, no id of `ids` is anyone's kid,
/// and no two collected comments list the same kid.
pub open spec fn ids_unique(m: Map<u64, RawComment>, ids: Seq<u64>) -> bool {
    &&& ids.no_duplicates()
    &&& forall|k: u64| #[trigger] m.contains_key(k) ==> kids_of(m[k].kids).no_duplicates()
    &&& forall|k: u64, y: u64|
        #[trigger] m.contains_key(k) && #[trigger] ids.contains(y) ==> !kids_of(m[k].kids).contains(y)
    &&& forall|k1: u64, k2: u64, y: u64|
        #[trigger] m.contains_key(k1) && #[trigger] m.contains_key(k2) && k1 != k2
            && #[trigger] kids_of(m[k1].kids).contains(y) ==> !kids_of(m[k2].kids).contains(y)
}

proof fn lemma_tree_size_push(nodes: Seq<CommentView>, x: CommentView)
    ensures
        tree_size(nodes.push(x)) == tree_size(nodes) + 1 + tree_size(x.replies),
{
    let p = nodes.push(x);
    assert(p.subrange(0, p.len() - 1) =~= nodes);
}

proof fn lemma_tree_size_concat(a: Seq<CommentView>, b: Seq<CommentView>)
    ensures
        tree_size(a + b) == tree_size(a) + tree_size(b),
    decreases b.len(),
{
    if b.len() == 0 {
        assert(a + b =~= a);
    } else {
        let b0 = b.drop_last();
        lemma_tree_size_concat(a, b0);
        assert(a + b =~= (a + b0).push(b.last()));
        lemma_tree_size_push(a + b0, b.last());
        assert(b =~= b0.push(b.last()));
        lemma_tree_size_push(b0, b.last());
    }
}

proof fn lemma_tree_list_concat(a: Seq<u64>, b: Seq<u64>, m: Map<u64, RawComment>, fuel: nat)
    ensures
        tree_list(a + b, m, fuel) == tree_list(a, m, fuel) + tree_list(b, m, fuel),
    decreases b.len(),
{
    if fuel == 0 {
        assert(tree_list(a, m, fuel) + tree_list(b, m, fuel) =~= Seq::<CommentView>::empty());
    } else if b.len() == 0 {
        assert(a + b =~= a);
        assert(tree_list(a, m, fuel) + tree_list(b, m, fuel) =~= tree_list(a, m, fuel));
    } else {
        let b0 = b.drop_last();
        lemma_tree_list_concat(a, b0, m, fuel);
        assert((a + b).drop_last() =~= a + b0);
        assert((a + b).last() == b.last());
        let k = b.last();
        if m.contains_key(k) {
            assert(tree_list(a + b, m, fuel) =~= tree_list(a, m, fuel) + tree_list(b, m, fuel));
        }
    }
}

proof fn lemma_tree_node_size_mono(k: u64, m: Map<u64, RawComment>, f1: nat, f2: nat)
    requires
        f1 <= f2,
    ensures
        tree_size(tree_node(k, m, f1).replies) <= tree_size(tree_node(k, m, f2).replies),
    decreases f1, 0int, 0int,
{
    if f1 > 0 {
        lemma_tree_list_size_mono(kids_of(m[k].kids), m, (f1 - 1) as nat, (f2 - 1) as nat);
    }
}

proof fn lemma_tree_list_size_mono(ids: Seq<u64>, m: Map<u64, RawComment>, f1: nat, f2: nat)
    requires
        f1 <= f2,
    ensures
        tree_size(tree_list(ids, m, f1)) <= tree_size(tree_list(ids, m, f2)),
    decreases f1, 1int, ids.len(),
{
    if f1 > 0 && ids.len() > 0 {
        lemma_tree_list_size_mono(ids.drop_last(), m, f1, f2);
        let k = ids.last();
        if m.contains_key(k) {
            lemma_tree_node_size_mono(k, m, f1, f2);
            lemma_tree_size_push(tree_list(ids.drop_last(), m, f1), tree_node(k, m, f1));
            lemma_tree_size_push(tree_list(ids.drop_last(), m, f2), tree_node(k, m, f2));
        }
    }
}

proof fn lemma_tree_node_remove(k: u64, m: Map<u64, RawComment>, x: u64, fuel: nat)
    requires
        m.contains_key(k),
        k != x,
        forall|j: u64| #[trigger] m.contains_key(j) ==> !kids_of(m[j].kids).contains(x),
    ensures
        tree_node(k, m, fuel) == tree_node(k, m.remove(x), fuel),
    decreases fuel, 0int, 0int,
{
    if fuel > 0 {
        lemma_tree_list_remove(kids_of(m[k].kids), m, x, (fuel - 1) as nat);
    }
}

proof fn lemma_tree_list_remove(ids: Seq<u64>, m: Map<u64, RawComment>, x: u64, fuel: nat)
    requires
        !ids.contains(x),
        forall|j: u64| #[trigger] m.contains_key(j) ==> !kids_of(m[j].kids).contains(x),
    ensures
        tree_list(ids, m, fuel) == tree_list(ids, m.remove(x), fuel),
    decreases fuel, 1int, ids.len(),
{
    if fuel > 0 && ids.len() > 0 {
        let init = ids.drop_last();
        assert(!init.contains(x)) by {
            if init.contains(x) {
                let i = choose|i: int| 0 <= i < init.len() && init[i] == x;
                assert(ids[i] == x);
            }
        }
        lemma_tree_list_remove(init, m, x, fuel);
        let k = ids.last();
        assert(ids[ids.len() - 1] == k);
        if m.contains_key(k) {
            lemma_tree_node_remove(k, m, x, fuel);
        }
    }
}

/// Removing the last root `x` and putting its kids after the other roots
/// keeps every id occurring at most once.
proof fn lemma_ids_unique_step(m: Map<u64, RawComment>, ids: Seq<u64>)
    requires
        ids_unique(m, ids),
        ids.len() > 0,
        m.contains_key(ids.last()),
    ensures
        ids_unique(
            m.remove(ids.last()),
            ids.drop_last() + kids_of(m[ids.last()].kids),
        ),
        !ids.drop_last().contains(ids.last()),
        !kids_of(m[ids.last()].kids).contains(ids.last()),
        forall|j: u64| #[trigger] m.contains_key(j) ==> !kids_of(m[j].kids).contains(ids.last()),
{
    let x = ids.last();
    let m2 = m.remove(x);
    let init = ids.drop_last();
    let kx = kids_of(m[x].kids);
    let all = init + kx;
    assert(ids.contains(x)) by {
        assert(ids[ids.len() - 1] == x);
    }
    assert(!init.contains(x)) by {
        if init.contains(x) {
            let i = choose|i: int| 0 <= i < init.len() && init[i] == x;
            assert(ids[i] == x && ids[ids.len() - 1] == x);
        }
    }
    assert forall|y: u64| init.contains(y) implies ids.contains(y) by {
        let i = choose|i: int| 0 <= i < init.len() && init[i] == y;
        assert(ids[i] == y);
    }
    assert(kx.no_duplicates());
    assert forall|i: int, j: int| 0 <= i < all.len() && 0 <= j < all.len() && i != j implies all[i]
        != all[j] by {
        if i < init.len() && j < init.len() {
            assert(ids[i] == all[i] && ids[j] == all[j]);
        } else if i >= init.len() && j >= init.len() {
            assert(kx[i - init.len()] == all[i] && kx[j - init.len()] == all[j]);
        } else if i < init.len() {
            assert(init.contains(all[i]));
            assert(kx.contains(all[j])) by {
                assert(kx[j - init.len()] == all[j]);
            }
        } else {
            assert(init.contains(all[j]));
            assert(kx.contains(all[i])) by {
                assert(kx[i - init.len()] == all[i]);
            }
        }
    }
    assert forall|k: u64, y: u64|
        #[trigger] m2.contains_key(k) && #[trigger] all.contains(y) implies !kids_of(
        m2[k].kids,
    ).contains(y) by {
        let i = choose|i: int| 0 <= i < all.len() && all[i] == y;
        if i < init.len() {
            assert(init[i] == y);
            assert(init.contains(y));
        } else {
            assert(kx[i - init.len()] == y);
            assert(kx.contains(y));
        }
    }
}

/// The tree under roots that occur once each has at most one node per
/// collected comment.
proof fn lemma_tree_size_bounded(ids: Seq<u64>, m: Map<u64, RawComment>, fuel: nat)
    requires
        m.dom().finite(),
        ids_unique(m, ids),
    ensures
        tree_size(tree_list(ids, m, fuel)) <= m.len(),
    decreases m.len(), ids.len(),
{
    if fuel > 0 && ids.len() > 0 {
        let x = ids.last();
        let init = ids.drop_last();
        if !m.contains_key(x) {
            assert forall|y: u64| init.contains(y) implies ids.contains(y) by {
                let i = choose|i: int| 0 <= i < init.len() && init[i] == y;
                assert(ids[i] == y);
            }
            lemma_tree_size_bounded(init, m, fuel);
        } else {
            let m2 = m.remove(x);
            let kx = kids_of(m[x].kids);
            lemma_ids_unique_step(m, ids);
            lemma_tree_list_remove(init, m, x, fuel);
            lemma_tree_list_remove(kx, m, x, (fuel - 1) as nat);
            lemma_tree_size_push(tree_list(init, m, fuel), tree_node(x, m, fuel));
            lemma_tree_list_size_mono(kx, m2, (fuel - 1) as nat, fuel);
            lemma_tree_list_concat(init, kx, m2, fuel);
            lemma_tree_size_concat(tree_list(init, m2, fuel), tree_list(kx, m2, fuel));
            lemma_tree_size_bounded(init + kx, m2, fuel);
        }
    }
}

/// Ids occurring once among the roots and kid lists also occur once among
/// any part of the roots.
proof fn lemma_ids_unique_split(m: Map<u64, RawComment>, a: Seq<u64>, b: Seq<u64>)
    requires
        ids_unique(m, a + b),
    ensures
        ids_unique(m, a),
        ids_unique(m, b),
{
    let ab = a + b;
    assert forall|y: u64| a.contains(y) implies ab.contains(y) by {
        let i = choose|i: int| 0 <= i < a.len() && a[i] == y;
        assert(ab[i] == y);
    }
    assert forall|y: u64| b.contains(y) implies ab.contains(y) by {
        let i = choose|i: int| 0 <= i < b.len() && b[i] == y;
        assert(ab[a.len() + i] == y);
    }
    assert forall|i: int, j: int| 0 <= i < a.len() && 0 <= j < a.len() && i != j implies a[i]
        != a[j] by {
        assert(ab[i] == a[i] && ab[j] == a[j]);
    }
    assert forall|i: int, j: int| 0 <= i < b.len() && 0 <= j < b.len() && i != j implies b[i]
        != b[j] by {
        assert(ab[a.len() + i] == b[i] && ab[a.len() + j] == b[j]);
    }
}

/// Where every id occurs at most once, a fuel of one level per collected
/// comment already gives the whole nesting: any more fuel gives the same
/// tree, so the tree a walk assembles is the unbounded nesting.
pub proof fn lemma_tree_fuel_enough(ids: Seq<u64>, m: Map<u64, RawComment>, fuel: nat)
    requires
        m.dom().finite(),
        ids_unique(m, ids),
        fuel >= m.len(),
    ensures
        tree_list(ids, m, fuel) == tree_list(ids, m, fuel + 1),
    decreases m.len(), ids.len(),
{
    if ids.len() == 0 {
    } else if fuel == 0 {
        // No comments at all: nothing is collected, so no level adds a node.
        assert(m.dom() =~= Set::<u64>::empty()) by {
            vstd::set_lib::lemma_set_empty_equivalency_len(m.dom());
        }
        lemma_tree_list_none_collected(ids, m, fuel + 1);
    } else {
        let x = ids.last();
        let init = ids.drop_last();
        assert forall|y: u64| init.contains(y) implies ids.contains(y) by {
            let i = choose|i: int| 0 <= i < init.len() && init[i] == y;
            assert(ids[i] == y);
        }
        assert(ids_unique(m, init));
        lemma_tree_fuel_enough(init, m, fuel);
        if m.contains_key(x) {
            let m2 = m.remove(x);
            let kx = kids_of(m[x].kids);
            lemma_ids_unique_step(m, ids);
            lemma_ids_unique_split(m2, init, kx);
            lemma_tree_list_remove(kx, m, x, (fuel - 1) as nat);
            lemma_tree_list_remove(kx, m, x, fuel);
            lemma_tree_fuel_enough(kx, m2, (fuel - 1) as nat);
            assert(tree_node(x, m, fuel).replies == tree_node(x, m, fuel + 1).replies);
            assert(tree_node(x, m, fuel) == tree_node(x, m, fuel + 1));
            assert(tree_list(ids, m, fuel) == tree_list(init, m, fuel).push(tree_node(x, m, fuel)));
            assert(tree_list(ids, m, fuel + 1) == tree_list(init, m, fuel + 1).push(
                tree_node(x, m, fuel + 1),
            ));
        } else {
            assert(tree_list(ids, m, fuel) == tree_list(init, m, fuel));
            assert(tree_list(ids, m, fuel + 1) == tree_list(init, m, fuel + 1));
        }
    }
}

/// Where nothing was collected, no tree has a node.
proof fn lemma_tree_list_none_collected(ids: Seq<u64>, m: Map<u64, RawComment>, fuel: nat)
    requires
        m.dom() =~= Set::<u64>::empty(),
    ensures
        tree_list(ids, m, fuel) == Seq::<CommentView>::empty(),
    decreases ids.len(),
{
    if fuel > 0 && ids.len() > 0 {
        lemma_tree_list_none_collected(ids.drop_last(), m, fuel);
        assert(!m.dom().contains(ids.last()));
    }
}

/// The tree is capped by `max_comments`: where every id occurs at most once
/// among the item's replies and the kid lists of the collected comments,
/// the tree a walk assembles has no more nodes than comments were
/// collected, so no more than `max_comments` while the walk is within its
/// cap.
pub proof fn lemma_tree_size_capped(w: WalkState)
    requires
        walk_wf(w),
        within_cap(w),
        ids_unique(w.collected, w.root_kids),
    ensures
        tree_size(tree_list(w.root_kids, w.collected, w.collected.len())) <= w.collected.len(),
        w.collected.len() <= w.max_comments,
{
    lemma_tree_size_bounded(w.root_kids, w.collected, w.collected.len());
}

/// Dead and deleted comments are skipped: whatever a level adds to the
/// collected comments is a live item of that level, kept as that item at
/// that depth; everything else was collected before.
pub proof fn lemma_absorb_only_live(m: Map<u64, RawComment>, items: Seq<Item>, depth: u32, expand: bool)
    ensures
        forall|k: u64| #[trigger]
            absorb(m, items, depth, expand).collected.contains_key(k) ==> (m.contains_key(k)
                && absorb(m, items, depth, expand).collected[k] == m[k]) || exists|i: int|
                0 <= i < items.len() && #[trigger] items[i].id == k && !items[i].dead
                    && !items[i].deleted && absorb(m, items, depth, expand).collected[k] == raw_of(
                    items[i],
                    depth,
                ),
    decreases items.len(),
{
    if items.len() > 0 {
        let init = items.drop_last();
        lemma_absorb_only_live(m, init, depth, expand);
        let prev = absorb(m, init, depth, expand);
        let cur = absorb(m, items, depth, expand);
        let it = items.last();
        assert forall|k: u64| #[trigger] cur.collected.contains_key(k) implies (m.contains_key(k)
            && cur.collected[k] == m[k]) || exists|i: int|
            0 <= i < items.len() && #[trigger] items[i].id == k && !items[i].dead
                && !items[i].deleted && cur.collected[k] == raw_of(items[i], depth) by {
            if !(it.deleted || it.dead) && k == it.id {
                assert(items[items.len() - 1].id == k);
            } else {
                assert(prev.collected.contains_key(k));
                if !(m.contains_key(k) && prev.collected[k] == m[k]) {
                    let i = choose|i: int|
                        0 <= i < init.len() && #[trigger] init[i].id == k && !init[i].dead
                            && !init[i].deleted && prev.collected[k] == raw_of(init[i], depth);
                    assert(items[i] == init[i]);
                }
            }
        }
    }
}

/// A cut is always reported: a batch that leaves part of the frontier
/// unfetched for the cap is a prefix of the frontier, counts every id it
/// leaves out as overflow and marks the walk truncated; stopping for a full
/// cap does the same for the whole frontier; and no step ever has overflow
/// counted without the walk marked truncated (a fresh walk has none).
pub proof fn lemma_cut_is_reported(s: WalkState, items: Seq<Item>)
    requires
        s.overflow > 0 ==> s.truncated,
    ensures
        initial_walk(s.root_kids, s.max_depth, s.max_comments).overflow == 0,
        batch_step(s).0.overflow > 0 ==> batch_step(s).0.truncated,
        receive_step(s, items).overflow > 0 ==> receive_step(s, items).truncated,
        batch_step(s).1 matches Some(b) ==> b == s.frontier.take(b.len() as int),
        batch_step(s).1 matches Some(b) ==> (b.len() < s.frontier.len() ==> batch_step(s).0.truncated
            && batch_step(s).0.overflow == (if s.overflow + s.frontier.len() - b.len() > usize::MAX {
            usize::MAX as int
        } else {
            s.overflow + s.frontier.len() - b.len()
        })),
        s.pending is None && !s.finished && s.frontier.len() > 0 && s.level <= s.max_depth
            && s.collected.len() >= s.max_comments ==> batch_step(s).1 is None
            && batch_step(s).0.truncated && batch_step(s).0.overflow > 0,
{
}

/// The note is there exactly when the walk was truncated, and where
/// comments were left out for the cap it starts with their number.
pub proof fn lemma_note_reports_cut(truncated: bool, overflow: nat, max_comments: usize, max_depth: u32)
    ensures
        note_spec(truncated, overflow, max_comments, max_depth) is Some <==> truncated,
        truncated && overflow > 0 ==> note_spec(truncated, overflow, max_comments, max_depth)->0.take(
            decimal(overflow).len() as int,
        ) == decimal(overflow),
{
    if truncated && overflow > 0 {
        let n = note_spec(truncated, overflow, max_comments, max_depth)->0;
        assert(n.take(decimal(overflow).len() as int) =~= decimal(overflow));
    }
}

/// The walk ends: no batch is handed out past level `max_depth`, and every
/// answered batch moves the walk one level deeper, so a walk asks for at
/// most `max_depth` batches.
pub proof fn lemma_walk_rounds_bounded(s: WalkState, items: Seq<Item>)
    requires
        walk_wf(s),
        s.pending is None,
    ensures
        s.level > s.max_depth ==> batch_step(s).1 is None,
        batch_step(s).1 is Some ==> s.level <= s.max_depth && receive_step(
            batch_step(s).0,
            items,
        ).level == s.level + 1 && receive_step(batch_step(s).0, items).pending is None,
{
}

} // verus!
