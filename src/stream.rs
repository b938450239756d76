//! The content stream: for a namespace and graph, the `ContentCreated`
//! changes in change-id order, from a starting offset on.
use vstd::prelude::*;
use crate::model::Content;
use crate::state::{content_for, ChangeKind, State, StateChange};

verus! {

pub enum NewContentStreamStart {
    FromLast,
    FromOffset(u64),
}

/// One delivered item: the change that announced the content, and the
/// content's id. Subscribers resume from a delivered `offset`.
#[derive(Clone, Copy, PartialEq, Eq, Structural, Debug)]
pub struct StreamItem {
    pub offset: u64,
    pub content_id: u64,
}

/// The offset a start asks for; starting from the last change asks for
/// none of those already logged.
pub open spec fn start_offset(start: NewContentStreamStart) -> u64 {
    match start {
        NewContentStreamStart::FromLast => u64::MAX,
        NewContentStreamStart::FromOffset(o) => o,
    }
}

pub fn change_offset(start: &NewContentStreamStart) -> (r: u64)
    ensures
        r == start_offset(*start),
{
    match start {
        NewContentStreamStart::FromLast => u64::MAX,
        NewContentStreamStart::FromOffset(o) => *o,
    }
}

/// A requested offset starts there; none starts from the last change.
pub fn stream_start(offset: Option<u64>) -> (r: NewContentStreamStart)
    ensures
        match offset {
            Some(o) => r == NewContentStreamStart::FromOffset(o),
            None => r == NewContentStreamStart::FromLast,
        },
{
    match offset {
        Some(o) => NewContentStreamStart::FromOffset(o),
        None => NewContentStreamStart::FromLast,
    }
}

/// The items of `changes` for the stream of `ns` / `graph`, at or after
/// offset `from`, in change order.
pub open spec fn stream_items(
    changes: Seq<StateChange>,
    contents: Seq<Content>,
    ns: Seq<char>,
    graph: Seq<char>,
    from: u64,
) -> Seq<StreamItem>
    decreases changes.len(),
{
    if changes.len() == 0 {
        Seq::empty()
    } else {
        let prev = stream_items(changes.drop_last(), contents, ns, graph, from);
        let c = changes.last();
        match c.kind {
            ChangeKind::ContentCreated { content_id } => if c.id >= from && content_for(
                contents,
                content_id,
                ns,
                graph,
            ) {
                prev.push(StreamItem { offset: c.id, content_id })
            } else {
                prev
            },
            _ => prev,
        }
    }
}

/// The items of `items` at or after offset `b`.
pub open spec fn at_least(items: Seq<StreamItem>, b: u64) -> Seq<StreamItem>
    decreases items.len(),
{
    if items.len() == 0 {
        Seq::empty()
    } else {
        let prev = at_least(items.drop_last(), b);
        if items.last().offset >= b {
            prev.push(items.last())
        } else {
            prev
        }
    }
}

/// The stream served from offset `from`.
pub fn content_stream(state: &State, ns: &String, graph: &String, from: u64) -> (r: Vec<StreamItem>)
    ensures
        r@ == stream_items(state@.changes, state@.contents, ns@, graph@, from),
{
    let changes = state.changes();
    let mut r: Vec<StreamItem> = Vec::new();
    let mut i: usize = 0;
    while i < changes.len()
        invariant
            changes@ == state@.changes,
            i <= changes@.len(),
            r@ == stream_items(changes@.take(i as int), state@.contents, ns@, graph@, from),
        decreases changes.len() - i,
    {
        assert(changes@.take(i + 1).drop_last() =~= changes@.take(i as int));
        let c = &changes[i];
        match &c.kind {
            ChangeKind::ContentCreated { content_id } => {
                if c.id >= from && state.has_content_for(*content_id, ns, graph) {
                    r.push(StreamItem { offset: c.id, content_id: *content_id });
                }
            },
            _ => {},
        }
        i += 1;
    }
    assert(changes@.take(i as int) =~= changes@);
    r
}

/// Resuming from a later offset serves exactly the items of the earlier
/// stream at or after that offset: no gap, and nothing from before it.
pub proof fn lemma_resume_has_no_gap(
    changes: Seq<StateChange>,
    contents: Seq<Content>,
    ns: Seq<char>,
    graph: Seq<char>,
    a: u64,
    b: u64,
)
    requires
        a <= b,
    ensures
        stream_items(changes, contents, ns, graph, b) == at_least(
            stream_items(changes, contents, ns, graph, a),
            b,
        ),
    decreases changes.len(),
{
    if changes.len() > 0 {
        let p = changes.drop_last();
        lemma_resume_has_no_gap(p, contents, ns, graph, a, b);
        let sa = stream_items(p, contents, ns, graph, a);
        let full = stream_items(changes, contents, ns, graph, a);
        if full.len() > sa.len() {
            assert(full.drop_last() =~= sa);
        } else {
            assert(full == sa);
        }
    }
}

/// Offsets of a stream grow strictly when change ids do.
pub proof fn lemma_stream_ordered(
    changes: Seq<StateChange>,
    contents: Seq<Content>,
    ns: Seq<char>,
    graph: Seq<char>,
    from: u64,
)
    requires
        forall|i: int| 0 <= i < changes.len() ==> (#[trigger] changes[i]).id == i,
    ensures
        forall|j: int, k: int|
            0 <= j < k < stream_items(changes, contents, ns, graph, from).len() ==> (
            #[trigger] stream_items(changes, contents, ns, graph, from)[j]).offset < (
            #[trigger] stream_items(changes, contents, ns, graph, from)[k]).offset,
        forall|j: int|
            0 <= j < stream_items(changes, contents, ns, graph, from).len() ==> (
            #[trigger] stream_items(changes, contents, ns, graph, from)[j]).offset < changes.len(),
    decreases changes.len(),
{
    if changes.len() > 0 {
        let p = changes.drop_last();
        assert forall|i: int| 0 <= i < p.len() implies (#[trigger] p[i]).id == i by {
            assert(p[i] == changes[i]);
        }
        lemma_stream_ordered(p, contents, ns, graph, from);
        let q = stream_items(p, contents, ns, graph, from);
        let s = stream_items(changes, contents, ns, graph, from);
        assert(changes.last().id == changes.len() - 1);
        assert forall|j: int| 0 <= j < s.len() implies (#[trigger] s[j]).offset < changes.len() by {
            if j < q.len() {
                assert(s[j] == q[j]);
            }
        }
        assert forall|j: int, k: int| 0 <= j < k < s.len() implies (#[trigger] s[j]).offset < (
        #[trigger] s[k]).offset by {
            if k < q.len() {
                assert(s[j] == q[j]);
                assert(s[k] == q[k]);
            } else {
                assert(s[j] == q[j]);
            }
        }
    }
}

/// A change may go once it is processed and every subscriber has read past it.
pub open spec fn can_prune(c: StateChange, offsets: Seq<u64>) -> bool {
    c.processed_at is Some && forall|j: int| 0 <= j < offsets.len() ==> #[trigger] offsets[j] > c.id
}

/// How many of the oldest changes may be pruned: the longest prefix of
/// prunable changes that leaves at least `retention` changes in the log.
pub fn prune_point(state: &State, offsets: &Vec<u64>, retention: u64) -> (r: u64)
    ensures
        r + retention <= state@.changes.len() || r == 0,
        forall|i: int| 0 <= i < r ==> can_prune(#[trigger] state@.changes[i], offsets@),
        r + retention < state@.changes.len() ==> !can_prune(state@.changes[r as int], offsets@),
{
    let changes = state.changes();
    let n: usize = changes.len();
    if retention >= n as u64 {
        return 0;
    }
    let limit: usize = n - retention as usize;
    let mut k: usize = 0;
    while k < limit
        invariant
            changes@ == state@.changes,
            n == changes@.len(),
            limit + retention == n,
            k <= limit,
            forall|i: int| 0 <= i < k ==> can_prune(#[trigger] changes@[i], offsets@),
        decreases limit - k,
    {
        let c = &changes[k];
        if c.processed_at.is_none() {
            return k as u64;
        }
        let mut j: usize = 0;
        while j < offsets.len()
            invariant
                changes@ == state@.changes,
                n == changes@.len(),
                limit + retention == n,
                k < limit,
                c == changes@[k as int],
                forall|i: int| 0 <= i < k ==> can_prune(#[trigger] changes@[i], offsets@),
                j <= offsets@.len(),
                forall|m: int| 0 <= m < j ==> #[trigger] offsets@[m] > c.id,
            decreases offsets.len() - j,
        {
            if offsets[j] <= c.id {
                return k as u64;
            }
            j += 1;
        }
        k += 1;
    }
    k as u64
}

} // verus!
