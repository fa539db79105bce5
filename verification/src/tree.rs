//! The weighted aggregation tree: a synthetic root over one node per
//! originating context, each holding one node per event with its nested
//! spans, weights summed bottom-up from the leaves.

use vstd::prelude::*;

verus! {

use crate::data::AuditEvent;
use crate::data::label_of;
use crate::text::str_eq;
use crate::text::starts_with;
use crate::text::ends_with;
use crate::text::trim;
use crate::text::trimmed;
use crate::text::has_prefix;
use crate::text::has_suffix;
use crate::text::first_index_from;
use crate::text::find_char_from;
use crate::text::lemma_first_index_from_bounds;
use vstd::string::StrSliceExecFns;

/// A node of the aggregation tree: a display label, an aggregate weight, and
/// the owned child nodes in display order.
pub struct TreeNode {
    pub name: String,
    pub value: u64,
    pub children: Vec<TreeNode>,
}

/// The weight an event contributes: 1 for an event without spans, else the
/// summed weight of its spans.
pub open spec fn event_weight(e: AuditEvent) -> int
    decreases e, 1int,
{
    if e.spans@.len() == 0 {
        1
    } else {
        spans_weight(e.spans@, 0)
    }
}

/// The summed weight of the events of `s` at or after position `i`.
pub open spec fn spans_weight(s: Seq<AuditEvent>, i: int) -> int
    decreases s, s.len() - i, 0int,
{
    if i < 0 || i >= s.len() {
        0
    } else {
        event_weight(s[i]) + spans_weight(s, i + 1)
    }
}

/// The summed `value` of the nodes of `s` at or after position `i`.
pub open spec fn children_value_sum(s: Seq<TreeNode>, i: int) -> int
    decreases s.len() - i,
{
    if i < 0 || i >= s.len() {
        0
    } else {
        s[i].value + children_value_sum(s, i + 1)
    }
}

/// Weight conservation: every node with children weighs exactly the sum of
/// its children's weights.
pub open spec fn weights_ok(n: TreeNode) -> bool
    decreases n,
{
    &&& (n.children@.len() > 0 ==> n.value as int == children_value_sum(n.children@, 0))
    &&& (forall|i: int|
        0 <= i < n.children@.len() ==> weights_ok(#[trigger] n.children@[i]))
}

/// Whether the tree node stands for the event: labelled by the labeling rule,
/// weighted by the event's weight, one child per span in order.
pub open spec fn node_models_event(n: TreeNode, e: AuditEvent) -> bool
    decreases e,
{
    &&& n.name@ == label_of(e)
    &&& n.value as int == event_weight(e)
    &&& n.children@.len() == e.spans@.len()
    &&& (forall|i: int|
        0 <= i < e.spans@.len() ==> node_models_event(
            #[trigger] n.children@[i],
            e.spans@[i],
        ))
}

/// The distinct contexts of the first `i` events, in first-occurrence order.
pub open spec fn contexts_upto(events: Seq<AuditEvent>, i: int) -> Seq<Seq<char>>
    decreases i,
{
    if i <= 0 || i > events.len() {
        Seq::empty()
    } else {
        let prev = contexts_upto(events, i - 1);
        if prev.contains(events[i - 1].context@) {
            prev
        } else {
            prev.push(events[i - 1].context@)
        }
    }
}

/// The distinct contexts of the events, in first-occurrence order.
pub open spec fn distinct_contexts(events: Seq<AuditEvent>) -> Seq<Seq<char>> {
    contexts_upto(events, events.len() as int)
}

/// The events among the first `i` whose context is `ctx`, in order.
pub open spec fn ctx_events_upto(events: Seq<AuditEvent>, ctx: Seq<char>, i: int) -> Seq<
    AuditEvent,
>
    decreases i,
{
    if i <= 0 || i > events.len() {
        Seq::empty()
    } else {
        let prev = ctx_events_upto(events, ctx, i - 1);
        if events[i - 1].context@ == ctx {
            prev.push(events[i - 1])
        } else {
            prev
        }
    }
}

/// The events whose context is `ctx`, in order.
pub open spec fn events_of_context(events: Seq<AuditEvent>, ctx: Seq<char>) -> Seq<AuditEvent> {
    ctx_events_upto(events, ctx, events.len() as int)
}

/// Whether `c` is the finished context node for `ctx` over the first `i`
/// events: named after the context, one modelling child per event of that
/// context, weighing their summed weight.
pub open spec fn ctx_child_ok(c: TreeNode, events: Seq<AuditEvent>, ctx: Seq<char>, i: int) -> bool {
    let grp = ctx_events_upto(events, ctx, i);
    &&& c.name@ == ctx
    &&& c.children@.len() == grp.len()
    &&& (forall|k: int|
        0 <= k < grp.len() ==> node_models_event(#[trigger] c.children@[k], grp[k]))
    &&& c.value as int == spans_weight(grp, 0)
}

proof fn lemma_event_weight_pos(e: AuditEvent)
    ensures
        event_weight(e) >= 1,
    decreases e, 1int,
{
    if e.spans@.len() > 0 {
        lemma_spans_weight_nonneg(e.spans@, 0);
        lemma_event_weight_pos(e.spans@[0]);
    }
}

proof fn lemma_spans_weight_nonneg(s: Seq<AuditEvent>, i: int)
    ensures
        spans_weight(s, i) >= 0,
        0 <= i < s.len() ==> spans_weight(s, i) >= event_weight(s[i]),
    decreases s, s.len() - i, 0int,
{
    if 0 <= i < s.len() {
        lemma_event_weight_pos(s[i]);
        lemma_spans_weight_nonneg(s, i + 1);
    }
}

proof fn lemma_spans_weight_push(s: Seq<AuditEvent>, e: AuditEvent, i: int)
    requires
        0 <= i <= s.len(),
    ensures
        spans_weight(s.push(e), i) == spans_weight(s, i) + event_weight(e),
    decreases s.len() - i,
{
    if i == s.len() {
        assert(s.push(e)[i] == e);
        assert(spans_weight(s.push(e), i + 1) == 0);
    } else {
        assert(s.push(e)[i] == s[i]);
        lemma_spans_weight_push(s, e, i + 1);
    }
}

proof fn lemma_children_value_sum_nonneg(s: Seq<TreeNode>, i: int)
    ensures
        children_value_sum(s, i) >= 0,
        0 <= i < s.len() ==> children_value_sum(s, i) >= s[i].value,
    decreases s.len() - i,
{
    if 0 <= i < s.len() {
        lemma_children_value_sum_nonneg(s, i + 1);
    }
}

proof fn lemma_children_value_sum_push(s: Seq<TreeNode>, c: TreeNode, i: int)
    requires
        0 <= i <= s.len(),
    ensures
        children_value_sum(s.push(c), i) == children_value_sum(s, i) + c.value,
    decreases s.len() - i,
{
    if i == s.len() {
        assert(s.push(c).len() == s.len() + 1);
        assert(s.push(c)[i] == c);
        assert(children_value_sum(s.push(c), i + 1) == 0);
        assert(children_value_sum(s, i) == 0);
    } else {
        assert(s.push(c)[i] == s[i]);
        lemma_children_value_sum_push(s, c, i + 1);
    }
}

proof fn lemma_children_value_sum_update(s: Seq<TreeNode>, j: int, c: TreeNode, i: int)
    requires
        0 <= i <= s.len(),
        0 <= j < s.len(),
    ensures
        children_value_sum(s.update(j, c), i) == if i <= j {
            children_value_sum(s, i) - s[j].value + c.value
        } else {
            children_value_sum(s, i)
        },
    decreases s.len() - i,
{
    if i < s.len() {
        lemma_children_value_sum_update(s, j, c, i + 1);
    }
}

/// Children that each model their event weigh, in sum, the events' weight.
proof fn lemma_models_sum(cs: Seq<TreeNode>, es: Seq<AuditEvent>, i: int)
    requires
        cs.len() == es.len(),
        0 <= i <= es.len(),
        forall|k: int| 0 <= k < es.len() ==> node_models_event(#[trigger] cs[k], es[k]),
    ensures
        children_value_sum(cs, i) == spans_weight(es, i),
    decreases es.len() - i,
{
    if i < es.len() {
        lemma_models_sum(cs, es, i + 1);
    }
}

/// A node that models an event conserves weights throughout its subtree.
proof fn lemma_models_weights_ok(n: TreeNode, e: AuditEvent)
    requires
        node_models_event(n, e),
    ensures
        weights_ok(n),
    decreases e,
{
    assert forall|i: int| 0 <= i < n.children@.len() implies weights_ok(
        #[trigger] n.children@[i],
    ) by {
        lemma_models_weights_ok(n.children@[i], e.spans@[i]);
    }
    if n.children@.len() > 0 {
        lemma_models_sum(n.children@, e.spans@, 0);
    }
}

proof fn lemma_contains_push<A>(s: Seq<A>, x: A, y: A)
    requires
        s.contains(y),
    ensures
        s.push(x).contains(y),
{
    let w = choose|k: int| 0 <= k < s.len() && s[k] == y;
    assert(s.push(x)[w] == y);
}

/// Every context that occurs among the first `i` events is listed.
proof fn lemma_ctx_seen(events: Seq<AuditEvent>, i: int, j: int)
    requires
        0 <= j < i <= events.len(),
    ensures
        contexts_upto(events, i).contains(events[j].context@),
    decreases i,
{
    let prev = contexts_upto(events, i - 1);
    if j == i - 1 {
        if !prev.contains(events[j].context@) {
            assert(prev.push(events[j].context@)[prev.len() as int] == events[j].context@);
        }
    } else {
        lemma_ctx_seen(events, i - 1, j);
        if !prev.contains(events[i - 1].context@) {
            lemma_contains_push(prev, events[i - 1].context@, events[j].context@);
        }
    }
}

/// A context that is not listed after `i` events has no events so far.
proof fn lemma_unseen_ctx_empty(events: Seq<AuditEvent>, ctx: Seq<char>, i: int)
    requires
        0 <= i <= events.len(),
        !contexts_upto(events, i).contains(ctx),
    ensures
        ctx_events_upto(events, ctx, i) == Seq::<AuditEvent>::empty(),
    decreases i,
{
    if i > 0 {
        if events[i - 1].context@ == ctx {
            lemma_ctx_seen(events, i, i - 1);
        }
        let prev = contexts_upto(events, i - 1);
        if prev.contains(ctx) {
            if !prev.contains(events[i - 1].context@) {
                lemma_contains_push(prev, events[i - 1].context@, ctx);
            }
        }
        lemma_unseen_ctx_empty(events, ctx, i - 1);
    }
}

/// The listed contexts are pairwise distinct.
proof fn lemma_contexts_nodup(events: Seq<AuditEvent>, i: int)
    requires
        0 <= i <= events.len(),
    ensures
        forall|a: int, b: int|
            0 <= a < b < contexts_upto(events, i).len() ==> contexts_upto(events, i)[a]
                != contexts_upto(events, i)[b],
    decreases i,
{
    if i > 0 {
        lemma_contexts_nodup(events, i - 1);
        let prev = contexts_upto(events, i - 1);
        let cur = contexts_upto(events, i);
        if !prev.contains(events[i - 1].context@) {
            assert forall|a: int, b: int| 0 <= a < b < cur.len() implies cur[a] != cur[b] by {
                if b == prev.len() as int {
                    assert(cur[b] == events[i - 1].context@);
                    if cur[a] == cur[b] {
                        assert(prev[a] == events[i - 1].context@);
                        assert(prev.contains(events[i - 1].context@));
                    }
                }
            }
        }
    }
}

/// Builds the tree node for one event: the label from the labeling rule, one
/// child per span, and the event's weight.
fn build_event_tree(event: &AuditEvent) -> (n: TreeNode)
    requires
        event_weight(*event) <= u64::MAX,
    ensures
        node_models_event(n, *event),
    decreases *event,
{
    let name: String = event.format_details();
    let m: usize = event.spans.len();
    if m == 0 {
        TreeNode { name, value: 1, children: Vec::new() }
    } else {
        let mut children: Vec<TreeNode> = Vec::new();
        let mut total: u64 = 0;
        let mut i: usize = 0;
        while i < m
            invariant
                m == event.spans@.len(),
                m > 0,
                i <= m,
                event_weight(*event) <= u64::MAX,
                children@.len() == i,
                forall|k: int|
                    0 <= k < i ==> node_models_event(
                        #[trigger] children@[k],
                        event.spans@[k],
                    ),
                total as int + spans_weight(event.spans@, i as int) == spans_weight(
                    event.spans@,
                    0,
                ),
            decreases m - i,
        {
            proof {
                assert(decreases_to!(*event => event.spans@[i as int]));
                lemma_spans_weight_nonneg(event.spans@, i as int);
                lemma_spans_weight_nonneg(event.spans@, i + 1);
                lemma_event_weight_pos(event.spans@[i as int]);
            }
            let c: TreeNode = build_event_tree(&event.spans[i]);
            total = total + c.value;
            children.push(c);
            i = i + 1;
        }
        TreeNode { name, value: total, children }
    }
}

impl TreeNode {
    /// Builds the aggregation tree: a synthetic root whose children are one
    /// node per distinct context in first-occurrence order, each holding the
    /// modelled events of that context, with weights summed bottom-up.
    pub fn from_events(events: &Vec<AuditEvent>) -> (root: TreeNode)
        requires
            spans_weight(events@, 0) <= u64::MAX,
        ensures
            root.name@ == "all"@,
            root.children@.len() == distinct_contexts(events@).len(),
            forall|j: int|
                0 <= j < distinct_contexts(events@).len() ==> ctx_child_ok(
                    #[trigger] root.children@[j],
                    events@,
                    distinct_contexts(events@)[j],
                    events@.len() as int,
                ),
            root.value as int == spans_weight(events@, 0),
            weights_ok(root),
    {
        let ghost evs: Seq<AuditEvent> = events@;
        let mut children: Vec<TreeNode> = Vec::new();
        let mut total: u64 = 0;
        let n: usize = events.len();
        let mut i: usize = 0;
        while i < n
            invariant
                n == evs.len(),
                events@ == evs,
                i <= n,
                spans_weight(evs, 0) <= u64::MAX,
                children@.len() == contexts_upto(evs, i as int).len(),
                forall|j: int|
                    0 <= j < children@.len() ==> ctx_child_ok(
                        #[trigger] children@[j],
                        evs,
                        contexts_upto(evs, i as int)[j],
                        i as int,
                    ),
                total as int + spans_weight(evs, i as int) == spans_weight(evs, 0),
                total as int == children_value_sum(children@, 0),
            decreases n - i,
        {
            let ghost ctxs = contexts_upto(evs, i as int);
            proof {
                lemma_spans_weight_nonneg(evs, i as int);
                lemma_spans_weight_nonneg(evs, i + 1);
                lemma_event_weight_pos(evs[i as int]);
                lemma_contexts_nodup(evs, i as int);
            }
            let node: TreeNode = build_event_tree(&events[i]);
            let w: u64 = node.value;
            // look for the context group of this event
            let m: usize = children.len();
            let mut j: usize = 0;
            let mut found: bool = false;
            while j < m && !found
                invariant
                    n == evs.len(),
                    events@ == evs,
                    i < n,
                    m == children@.len(),
                    j <= m,
                    children@.len() == ctxs.len(),
                    ctxs == contexts_upto(evs, i as int),
                    forall|jj: int|
                        0 <= jj < children@.len() ==> (#[trigger] children@[jj]).name@ == ctxs[jj],
                    found ==> j < m && children@[j as int].name@ == events@[i as int].context@,
                    !found ==> forall|jj: int|
                        0 <= jj < j ==> (#[trigger] children@[jj]).name@ != events@[
                            i as int].context@,
                decreases m - j, (if found { 0int } else { 1int }),
            {
                if str_eq(children[j].name.as_str(), events[i].context.as_str()) {
                    found = true;
                } else {
                    j = j + 1;
                }
            }
            let ghost e = evs[i as int];
            let ghost ctx = e.context@;
            if found {
                proof {
                    assert(ctxs[j as int] == ctx);
                    assert(ctxs.contains(ctx));
                    assert(contexts_upto(evs, i + 1) == ctxs);
                    lemma_children_value_sum_nonneg(children@, 0);
                    lemma_children_value_sum_nonneg(children@, j as int);
                    // group value fits: it is at most the running total
                    assert(children_value_sum(children@, 0) >= children@[j as int].value) by {
                        lemma_children_sum_element(children@, j as int);
                    }
                }
                let ghost old_children = children@;
                let mut g: TreeNode = children.remove(j);
                proof {
                    lemma_spans_weight_push(ctx_events_upto(evs, ctx, i as int), e, 0);
                }
                g.children.push(node);
                g.value = g.value + w;
                children.insert(j, g);
                proof {
                    let g2 = children@[j as int];
                    assert(children@ =~= old_children.update(j as int, g2));
                    lemma_children_value_sum_update(old_children, j as int, g2, 0);
                    assert forall|jj: int| 0 <= jj < children@.len() implies ctx_child_ok(
                        #[trigger] children@[jj],
                        evs,
                        contexts_upto(evs, i + 1)[jj],
                        i + 1,
                    ) by {
                        if jj != j {
                            assert(children@[jj] == old_children[jj]);
                            assert(ctxs[jj] != ctx);
                            assert(ctx_events_upto(evs, ctxs[jj], i + 1) == ctx_events_upto(
                                evs,
                                ctxs[jj],
                                i as int,
                            ));
                        } else {
                            let grp = ctx_events_upto(evs, ctx, i as int);
                            assert(ctx_events_upto(evs, ctx, i + 1) == grp.push(e));
                            assert forall|k: int| 0 <= k < grp.push(e).len() implies
                                node_models_event(
                                #[trigger] children@[jj].children@[k],
                                grp.push(e)[k],
                            ) by {
                                if k < grp.len() {
                                    assert(grp.push(e)[k] == grp[k]);
                                } else {
                                    assert(grp.push(e)[k] == e);
                                }
                            }
                        }
                    }
                }
            } else {
                proof {
                    assert forall|idx: int| 0 <= idx < ctxs.len() implies ctxs[idx] != ctx by {
                        assert(children@[idx].name@ == ctxs[idx]);
                    }
                    assert(!ctxs.contains(ctx));
                    assert(contexts_upto(evs, i + 1) == ctxs.push(ctx));
                    lemma_unseen_ctx_empty(evs, ctx, i as int);
                    assert(ctx_events_upto(evs, ctx, i + 1) =~= Seq::<
                        AuditEvent,
                    >::empty().push(e));
                }
                let mut group_children: Vec<TreeNode> = Vec::new();
                let ghost node_ghost = node;
                let name: String = events[i].context.clone();
                group_children.push(node);
                let g = TreeNode { name, value: w, children: group_children };
                proof {
                    lemma_children_value_sum_push(children@, g, 0);
                    let grp1 = ctx_events_upto(evs, ctx, i + 1);
                    assert(grp1.len() == 1);
                    assert(grp1[0] == e);
                    assert(spans_weight(grp1, 1) == 0);
                    assert(spans_weight(grp1, 0) == event_weight(grp1[0]) + spans_weight(grp1, 1));
                }
                children.push(g);
                proof {
                    assert forall|jj: int| 0 <= jj < children@.len() implies ctx_child_ok(
                        #[trigger] children@[jj],
                        evs,
                        contexts_upto(evs, i + 1)[jj],
                        i + 1,
                    ) by {
                        if jj < children@.len() - 1 {
                            assert(ctxs[jj] != ctx);
                            assert(ctx_events_upto(evs, ctxs[jj], i + 1) == ctx_events_upto(
                                evs,
                                ctxs[jj],
                                i as int,
                            ));
                        }
                    }
                }
            }
            total = total + w;
            i = i + 1;
        }
        let root = TreeNode { name: "all".to_owned(), value: total, children };
        proof {
            assert forall|j: int| 0 <= j < root.children@.len() implies weights_ok(
                #[trigger] root.children@[j],
            ) by {
                let ctx = distinct_contexts(evs)[j];
                let grp = events_of_context(evs, ctx);
                let c = root.children@[j];
                lemma_models_sum(c.children@, grp, 0);
                assert forall|k: int| 0 <= k < c.children@.len() implies weights_ok(
                    #[trigger] c.children@[k],
                ) by {
                    lemma_models_weights_ok(c.children@[k], grp[k]);
                }
            }
        }
        root
    }
}

proof fn lemma_children_sum_element(s: Seq<TreeNode>, j: int)
    requires
        0 <= j < s.len(),
    ensures
        children_value_sum(s, 0) >= s[j].value,
    decreases s.len(),
{
    lemma_children_sum_element_from(s, j, 0);
}

proof fn lemma_children_sum_element_from(s: Seq<TreeNode>, j: int, i: int)
    requires
        0 <= i <= j < s.len(),
    ensures
        children_value_sum(s, i) >= s[j].value,
    decreases s.len() - i,
{
    lemma_children_value_sum_nonneg(s, i + 1);
    if i < j {
        lemma_children_sum_element_from(s, j, i + 1);
        lemma_children_value_sum_nonneg(s, i);
        assert(s[i].value >= 0);
    }
}

/// The sum of the leaf weights of the subtree: what every node's value
/// becomes once weights are recomputed bottom-up.
pub open spec fn leaf_sum(n: TreeNode) -> int
    decreases n, 1int,
{
    if n.children@.len() == 0 {
        n.value as int
    } else {
        leaf_sum_seq(n.children@, 0)
    }
}

/// The summed leaf weights of the subtrees of `s` at or after position `i`.
pub open spec fn leaf_sum_seq(s: Seq<TreeNode>, i: int) -> int
    decreases s, s.len() - i, 0int,
{
    if i < 0 || i >= s.len() {
        0
    } else {
        leaf_sum(s[i]) + leaf_sum_seq(s, i + 1)
    }
}

/// Whether `b` is `a` with every internal weight replaced by its leaf sum:
/// same labels, same shape, leaves unchanged.
pub open spec fn is_updated(a: TreeNode, b: TreeNode) -> bool
    decreases a,
{
    &&& b.name@ == a.name@
    &&& b.value as int == leaf_sum(a)
    &&& b.children@.len() == a.children@.len()
    &&& (forall|i: int|
        0 <= i < a.children@.len() ==> is_updated(
            a.children@[i],
            #[trigger] b.children@[i],
        ))
}

proof fn lemma_leaf_sum_seq_nonneg(s: Seq<TreeNode>, i: int)
    ensures
        leaf_sum_seq(s, i) >= 0,
        0 <= i < s.len() ==> leaf_sum_seq(s, i) >= leaf_sum(s[i]),
        0 <= i < s.len() ==> leaf_sum(s[i]) >= 0,
    decreases s, s.len() - i, 1int,
{
    if 0 <= i < s.len() {
        lemma_leaf_sum_nonneg(s[i]);
        lemma_leaf_sum_seq_nonneg(s, i + 1);
    }
}

proof fn lemma_leaf_sum_nonneg(n: TreeNode)
    ensures
        leaf_sum(n) >= 0,
    decreases n, 2int,
{
    if n.children@.len() > 0 {
        lemma_leaf_sum_seq_nonneg(n.children@, 0);
    }
}

/// An updated tree conserves weights.
proof fn lemma_updated_weights_ok(a: TreeNode, b: TreeNode)
    requires
        is_updated(a, b),
    ensures
        weights_ok(b),
    decreases a,
{
    assert forall|i: int| 0 <= i < b.children@.len() implies weights_ok(
        #[trigger] b.children@[i],
    ) by {
        lemma_updated_weights_ok(a.children@[i], b.children@[i]);
    }
    if b.children@.len() > 0 {
        lemma_updated_sum(a.children@, b.children@, 0);
    }
}

proof fn lemma_updated_sum(a: Seq<TreeNode>, b: Seq<TreeNode>, i: int)
    requires
        a.len() == b.len(),
        forall|k: int| 0 <= k < a.len() ==> is_updated(a[k], #[trigger] b[k]),
        0 <= i <= a.len(),
    ensures
        children_value_sum(b, i) == leaf_sum_seq(a, i),
    decreases a.len() - i,
{
    if i < a.len() {
        lemma_updated_sum(a, b, i + 1);
    }
}

/// Rebuilds a subtree with every internal weight recomputed as its leaf sum.
fn updated_copy(n: &TreeNode) -> (r: TreeNode)
    requires
        leaf_sum(*n) <= u64::MAX,
    ensures
        is_updated(*n, r),
    decreases *n,
{
    let m: usize = n.children.len();
    if m == 0 {
        TreeNode { name: n.name.clone(), value: n.value, children: Vec::new() }
    } else {
        let mut children: Vec<TreeNode> = Vec::new();
        let mut total: u64 = 0;
        let mut i: usize = 0;
        while i < m
            invariant
                m == n.children@.len(),
                m > 0,
                i <= m,
                leaf_sum(*n) <= u64::MAX,
                children@.len() == i,
                forall|k: int|
                    0 <= k < i ==> is_updated(n.children@[k], #[trigger] children@[k]),
                total as int + leaf_sum_seq(n.children@, i as int) == leaf_sum_seq(
                    n.children@,
                    0,
                ),
            decreases m - i,
        {
            proof {
                assert(decreases_to!(*n => n.children@[i as int]));
                lemma_leaf_sum_seq_nonneg(n.children@, i as int);
                lemma_leaf_sum_seq_nonneg(n.children@, i + 1);
            }
            let c: TreeNode = updated_copy(&n.children[i]);
            total = total + c.value;
            children.push(c);
            i = i + 1;
        }
        TreeNode { name: n.name.clone(), value: total, children }
    }
}

impl TreeNode {
    /// Recomputes every weight bottom-up: leaves keep their weight, every
    /// internal node becomes the sum of its children's weights. Returns the
    /// recomputed weight of this node.
    pub fn update_values(&mut self) -> (total: u64)
        requires
            leaf_sum(*old(self)) <= u64::MAX,
        ensures
            is_updated(*old(self), *final(self)),
            total == final(self).value,
            weights_ok(*final(self)),
    {
        let r: TreeNode = updated_copy(&*self);
        let t: u64 = r.value;
        proof {
            lemma_updated_weights_ok(*self, r);
        }
        *self = r;
        t
    }
}


/// Weight conservation descends: every subtree reached by a child path from
/// a weight-conserving tree conserves weights itself, so zoomed views are
/// laid out from conserving roots too.
pub proof fn lemma_weights_ok_at(n: TreeNode, path: Seq<usize>, k: int)
    requires
        weights_ok(n),
        0 <= k <= path.len(),
    ensures
        match node_at_spec(n, path, k) {
            Some(m) => weights_ok(m),
            None => true,
        },
    decreases path.len() - k,
{
    if k < path.len() && path[k] < n.children@.len() {
        lemma_weights_ok_at(n.children@[path[k] as int], path, k + 1);
    }
}

/// The node reached from `n` by following the child indices of `path` from
/// position `k` on, if every index is in range.
pub open spec fn node_at_spec(n: TreeNode, path: Seq<usize>, k: int) -> Option<TreeNode>
    decreases path.len() - k,
{
    if k < 0 || k > path.len() {
        None
    } else if k == path.len() {
        Some(n)
    } else if path[k] < n.children@.len() {
        node_at_spec(n.children@[path[k] as int], path, k + 1)
    } else {
        None
    }
}

/// Follows a path of child indices down from `n`.
pub fn node_at<'a>(n: &'a TreeNode, path: &Vec<usize>) -> (r: Option<&'a TreeNode>)
    ensures
        match r {
            Some(m) => node_at_spec(*n, path@, 0) == Some(*m),
            None => node_at_spec(*n, path@, 0) is None,
        },
{
    let mut cur: &TreeNode = n;
    let mut k: usize = 0;
    let len: usize = path.len();
    while k < len
        invariant
            len == path@.len(),
            k <= len,
            node_at_spec(*n, path@, 0) == node_at_spec(*cur, path@, k as int),
        decreases len - k,
    {
        let idx: usize = path[k];
        if idx >= cur.children.len() {
            return None;
        }
        cur = &cur.children[idx];
        k = k + 1;
    }
    Some(cur)
}


/// The algorithm key a label contributes to the statistics: for a label of
/// the `pk::` family holding a bracketed detail list, the first trimmed,
/// non-empty detail that does not end in `bits`; none otherwise.
pub open spec fn algo_key_of(name: Seq<char>) -> Option<Seq<char>> {
    if !has_prefix(name, "pk::"@) {
        None
    } else {
        let open_i = first_index_from(name, '[', 0);
        let close_i = first_index_from(name, ']', 0);
        if open_i >= name.len() || close_i >= name.len() || open_i + 1 > close_i {
            None
        } else {
            first_algo_in(name.subrange(open_i + 1, close_i), 0)
        }
    }
}

/// The first qualifying detail of a comma-separated list, scanning from
/// position `i`: trimmed, non-empty, and not a bit length.
pub open spec fn first_algo_in(d: Seq<char>, i: int) -> Option<Seq<char>>
    decreases d.len() - i,
    via first_algo_in_decreases
{
    if i < 0 || i > d.len() {
        None
    } else {
        let j = first_index_from(d, ',', i);
        let t = trimmed(d.subrange(i, j));
        if t.len() > 0 && !has_suffix(t, "bits"@) {
            Some(t)
        } else if j >= d.len() {
            None
        } else {
            first_algo_in(d, j + 1)
        }
    }
}

#[via_fn]
proof fn first_algo_in_decreases(d: Seq<char>, i: int) {
    if 0 <= i <= d.len() {
        lemma_first_index_from_bounds(d, ',', i);
    }
}

/// The first position in the statistics holding `key`, or the length.
pub open spec fn stats_key_index(st: Seq<(Seq<char>, u64)>, key: Seq<char>, i: int) -> int
    decreases st.len() - i,
{
    if i < 0 || i >= st.len() {
        st.len() as int
    } else if st[i].0 == key {
        i
    } else {
        stats_key_index(st, key, i + 1)
    }
}

/// Saturating addition of counters.
pub open spec fn add_sat(a: u64, b: u64) -> u64 {
    if a + b > u64::MAX {
        u64::MAX
    } else {
        (a + b) as u64
    }
}

/// The statistics with `v` added under `key`: the first entry for `key` is
/// increased, or a new entry appended in encounter order.
pub open spec fn stats_bump(st: Seq<(Seq<char>, u64)>, key: Seq<char>, v: u64) -> Seq<
    (Seq<char>, u64),
> {
    let i = stats_key_index(st, key, 0);
    if i < st.len() {
        st.update(i, (key, add_sat(st[i].1, v)))
    } else {
        st.push((key, v))
    }
}

/// The statistics after walking the subtree of `n` in pre-order: every node
/// whose label yields an algorithm key adds its weight under that key.
pub open spec fn stats_after(n: TreeNode, st: Seq<(Seq<char>, u64)>) -> Seq<(Seq<char>, u64)>
    decreases n, 1int,
{
    let st1 = match algo_key_of(n.name@) {
        Some(k) => stats_bump(st, k, n.value),
        None => st,
    };
    stats_children(n.children@, 0, st1)
}

/// The statistics after walking the subtrees of `s` from position `i` on.
pub open spec fn stats_children(s: Seq<TreeNode>, i: int, st: Seq<(Seq<char>, u64)>) -> Seq<
    (Seq<char>, u64),
>
    decreases s, s.len() - i, 0int,
{
    if i < 0 || i >= s.len() {
        st
    } else {
        stats_children(s, i + 1, stats_after(s[i], st))
    }
}

/// The character-level form of an accumulated statistics list.
pub open spec fn stats_view(st: Seq<(String, u64)>) -> Seq<(Seq<char>, u64)> {
    st.map_values(|p: (String, u64)| (p.0@, p.1))
}

/// The algorithm key of a label, per `algo_key_of`.
pub fn algo_key(name: &str) -> (r: Option<String>)
    ensures
        match r {
            Some(s) => algo_key_of(name@) == Some(s@),
            None => algo_key_of(name@) is None,
        },
{
    if !starts_with(name, "pk::") {
        return None;
    }
    let nlen: usize = name.unicode_len();
    let open_i: usize = match find_char_from(name, '[', 0) {
        Some(i) => i,
        None => {
            return None;
        },
    };
    let close_i: usize = match find_char_from(name, ']', 0) {
        Some(i) => i,
        None => {
            return None;
        },
    };
    if open_i + 1 > close_i {
        return None;
    }
    let details: &str = name.substring_char(open_i + 1, close_i);
    proof {
        assert(algo_key_of(name@) == first_algo_in(details@, 0));
    }
    let dlen: usize = details.unicode_len();
    let mut i: usize = 0;
    loop
        invariant
            dlen == details@.len(),
            i <= dlen,
            algo_key_of(name@) == first_algo_in(details@, 0),
            first_algo_in(details@, 0) == first_algo_in(details@, i as int),
        decreases dlen - i,
    {
        let j: usize = match find_char_from(details, ',', i) {
            Some(j) => j,
            None => dlen,
        };
        proof {
            lemma_first_index_from_bounds(details@, ',', i as int);
        }
        let part: &str = details.substring_char(i, j);
        let t: String = trim(part);
        if t.unicode_len() > 0 && !ends_with(t.as_str(), "bits") {
            return Some(t);
        }
        if j >= dlen {
            return None;
        }
        i = j + 1;
    }
}

impl TreeNode {
    /// Accumulates, under each algorithm key found in the subtree's labels,
    /// the weight of the nodes carrying it, walking the tree in pre-order.
    /// New keys are appended in encounter order; counters saturate.
    pub fn extract_algorithm_stats(&self, stats: &mut Vec<(String, u64)>)
        ensures
            stats_view(final(stats)@) == stats_after(*self, stats_view(old(stats)@)),
        decreases *self,
    {
        match algo_key(self.name.as_str()) {
            Some(key) => {
                let m: usize = stats.len();
                let mut idx: usize = 0;
                let mut found: bool = false;
                while idx < m && !found
                    invariant
                        m == stats@.len(),
                        idx <= m,
                        found ==> idx < m && stats@[idx as int].0@ == key@,
                        forall|k: int| 0 <= k < idx ==> (#[trigger] stats@[k]).0@ != key@,
                    decreases m - idx, (if found { 0int } else { 1int }),
                {
                    if str_eq(stats[idx].0.as_str(), key.as_str()) {
                        found = true;
                    } else {
                        idx = idx + 1;
                    }
                }
                proof {
                    lemma_stats_key_index_points(stats_view(stats@), key@, 0);
                    assert forall|k: int| 0 <= k < idx implies (#[trigger] stats_view(
                        stats@,
                    )[k]).0 != key@ by {
                        assert(stats@[k].0@ != key@);
                    }
                }
                if found {
                    proof {
                        assert(stats_view(stats@)[idx as int].0 == key@);
                        lemma_stats_key_index_first(stats_view(stats@), key@, idx as int);
                    }
                    let old_count: u64 = stats[idx].1;
                    let bumped: u64 = if self.value > u64::MAX - old_count {
                        u64::MAX
                    } else {
                        old_count + self.value
                    };
                    stats.set(idx, (key, bumped));
                    proof {
                        assert(stats_view(stats@) =~= stats_bump(
                            stats_view(old(stats)@),
                            key@,
                            self.value,
                        ));
                    }
                } else {
                    proof {
                        assert forall|k: int| 0 <= k < stats_view(stats@).len() implies (
                        #[trigger] stats_view(stats@)[k]).0 != key@ by {
                            assert(stats@[k].0@ != key@);
                        }
                        lemma_stats_key_index_none(stats_view(stats@), key@, 0);
                    }
                    stats.push((key, self.value));
                    proof {
                        assert(stats_view(stats@) =~= stats_bump(
                            stats_view(old(stats)@),
                            key@,
                            self.value,
                        ));
                    }
                }
            },
            None => {},
        }
        let ghost st1 = stats_view(stats@);
        let n: usize = self.children.len();
        let mut i: usize = 0;
        while i < n
            invariant
                n == self.children@.len(),
                stats_children(self.children@, 0, st1) == stats_children(
                    self.children@,
                    i as int,
                    stats_view(stats@),
                ),
                i <= n,
            decreases n - i,
        {
            proof {
                assert(decreases_to!(*self => self.children@[i as int]));
            }
            self.children[i].extract_algorithm_stats(stats);
            i = i + 1;
        }
    }
}

proof fn lemma_stats_key_index_points(st: Seq<(Seq<char>, u64)>, key: Seq<char>, i: int)
    requires
        0 <= i <= st.len(),
    ensures
        i <= stats_key_index(st, key, i) <= st.len(),
        stats_key_index(st, key, i) < st.len() ==> st[stats_key_index(st, key, i)].0 == key,
    decreases st.len() - i,
{
    if i < st.len() && st[i].0 != key {
        lemma_stats_key_index_points(st, key, i + 1);
    }
}

/// The scan that stops at the first match finds exactly the spec index.
proof fn lemma_stats_key_index_first(st: Seq<(Seq<char>, u64)>, key: Seq<char>, idx: int)
    requires
        0 <= idx < st.len(),
        st[idx].0 == key,
        forall|k: int| 0 <= k < idx ==> (#[trigger] st[k]).0 != key,
    ensures
        stats_key_index(st, key, 0) == idx,
{
    lemma_stats_key_index_from(st, key, 0, idx);
}

proof fn lemma_stats_key_index_from(st: Seq<(Seq<char>, u64)>, key: Seq<char>, i: int, idx: int)
    requires
        0 <= i <= idx < st.len(),
        st[idx].0 == key,
        forall|k: int| 0 <= k < idx ==> (#[trigger] st[k]).0 != key,
    ensures
        stats_key_index(st, key, i) == idx,
    decreases idx - i,
{
    if i < idx {
        lemma_stats_key_index_from(st, key, i + 1, idx);
    }
}

proof fn lemma_stats_key_index_none(st: Seq<(Seq<char>, u64)>, key: Seq<char>, i: int)
    requires
        0 <= i <= st.len(),
        forall|k: int| 0 <= k < st.len() ==> (#[trigger] st[k]).0 != key,
    ensures
        stats_key_index(st, key, i) == st.len(),
    decreases st.len() - i,
{
    if i < st.len() {
        lemma_stats_key_index_none(st, key, i + 1);
    }
}


/// The weight one event would contribute, or None where it exceeds the
/// counter range.
fn event_weight_checked(event: &AuditEvent) -> (r: Option<u64>)
    ensures
        match r {
            Some(w) => w as int == event_weight(*event),
            None => event_weight(*event) > u64::MAX,
        },
    decreases *event,
{
    let m: usize = event.spans.len();
    if m == 0 {
        return Some(1);
    }
    let mut total: u64 = 0;
    let mut i: usize = 0;
    while i < m
        invariant
            m == event.spans@.len(),
            m > 0,
            i <= m,
            total as int + spans_weight(event.spans@, i as int) == spans_weight(event.spans@, 0),
        decreases m - i,
    {
        proof {
            assert(decreases_to!(*event => event.spans@[i as int]));
            lemma_spans_weight_nonneg(event.spans@, i as int);
            lemma_spans_weight_nonneg(event.spans@, i + 1);
        }
        let w: u64 = match event_weight_checked(&event.spans[i]) {
            Some(w) => w,
            None => {
                return None;
            },
        };
        if w > u64::MAX - total {
            return None;
        }
        total = total + w;
        i = i + 1;
    }
    Some(total)
}

/// The total weight the events would give the tree, or None where it
/// exceeds the counter range; `from_events` asks for a fitting total.
pub fn total_weight(events: &Vec<AuditEvent>) -> (r: Option<u64>)
    ensures
        match r {
            Some(t) => t as int == spans_weight(events@, 0),
            None => spans_weight(events@, 0) > u64::MAX,
        },
{
    let n: usize = events.len();
    let mut total: u64 = 0;
    let mut i: usize = 0;
    while i < n
        invariant
            n == events@.len(),
            i <= n,
            total as int + spans_weight(events@, i as int) == spans_weight(events@, 0),
        decreases n - i,
    {
        proof {
            lemma_spans_weight_nonneg(events@, i as int);
            lemma_spans_weight_nonneg(events@, i + 1);
        }
        let w: u64 = match event_weight_checked(&events[i]) {
            Some(w) => w,
            None => {
                return None;
            },
        };
        if w > u64::MAX - total {
            return None;
        }
        total = total + w;
        i = i + 1;
    }
    Some(total)
}

} // verus!
