//! The radial layout engine: partitions a full angular sweep and a fixed set
//! of concentric rings proportionally to subtree weight, producing a flat
//! pre-order list of positioned segments, and resolves pointer positions
//! back to segments in reverse paint order.

use vstd::prelude::*;

verus! {

use vstd::arithmetic::div_mod::lemma_div_is_ordered;
use vstd::arithmetic::div_mod::lemma_div_multiples_vanish;
use vstd::arithmetic::mul::lemma_mul_inequality;
use vstd::arithmetic::mul::lemma_mul_is_commutative;
use vstd::arithmetic::mul::lemma_mul_nonnegative;
use crate::tree::TreeNode;
use crate::tree::children_value_sum;
use crate::tree::weights_ok;

/// The number of concentric rings the radial budget is divided into.
pub const RING_COUNT: u64 = 6;

/// Angle units in a full turn: angles are held as integer units, a full
/// circle being 2^32 units.
pub const FULL_TURN: u64 = 4294967296;

/// One rendered angular-radial wedge standing for one tree node: the child
/// indices and the labels leading to the node from the display root, the
/// node's weight, its ring index, and its angular and radial bounds.
pub struct Segment {
    pub path: Vec<usize>,
    pub labels: Vec<String>,
    pub value: u64,
    pub depth: usize,
    pub start_angle: u64,
    pub end_angle: u64,
    pub inner_radius: u64,
    pub outer_radius: u64,
}

/// The mathematical shadow of a segment.
pub ghost struct SegModel {
    pub path: Seq<usize>,
    pub labels: Seq<Seq<char>>,
    pub value: int,
    pub depth: int,
    pub start_angle: int,
    pub end_angle: int,
    pub inner_radius: int,
    pub outer_radius: int,
}

impl View for Segment {
    type V = SegModel;

    open spec fn view(&self) -> SegModel {
        SegModel {
            path: self.path@,
            labels: self.labels@.map_values(|s: String| s@),
            value: self.value as int,
            depth: self.depth as int,
            start_angle: self.start_angle as int,
            end_angle: self.end_angle as int,
            inner_radius: self.inner_radius as int,
            outer_radius: self.outer_radius as int,
        }
    }
}

/// The mathematical shadows of a segment list.
pub open spec fn seg_views(s: Seq<Segment>) -> Seq<SegModel> {
    s.map_values(|g: Segment| g@)
}

/// The angular cursor position after `acc` of `total` weight units of the
/// interval from `start` to `end`: proportional, rounded down, accumulated
/// exactly from the start so sibling rounding never drifts, and clamped to
/// the interval's end.
pub open spec fn angle_cut(start: int, end: int, total: int, acc: int) -> int {
    if total <= 0 {
        start
    } else {
        let b = start + ((end - start) * acc) / total;
        if b > end {
            end
        } else {
            b
        }
    }
}

/// The segments of the subtree at `n`, laid out over the angular interval
/// from `start` to `end` at ring `depth`, in pre-order: a node without
/// weight or outside the radial budget contributes nothing; otherwise its
/// own segment comes first, then its children's, partitioned proportionally
/// to their weight in stored order. Recursion stops below the last ring.
pub open spec fn layout_node_model(
    n: TreeNode,
    path: Seq<usize>,
    labels: Seq<Seq<char>>,
    depth: int,
    start: int,
    end: int,
    inner: int,
    outer: int,
) -> Seq<SegModel>
    decreases n, 1int, 0int,
{
    if n.value == 0 {
        Seq::empty()
    } else {
        let gap = (outer - inner) / (RING_COUNT as int);
        let ri = inner + depth * gap;
        let ro = ri + gap;
        if ro > outer || ro <= ri {
            Seq::empty()
        } else {
            let seg = SegModel {
                path,
                labels: labels.push(n.name@),
                value: n.value as int,
                depth,
                start_angle: start,
                end_angle: end,
                inner_radius: ri,
                outer_radius: ro,
            };
            let kids = if depth < (RING_COUNT as int) - 1 {
                children_layout(
                    n,
                    0,
                    0,
                    path,
                    labels.push(n.name@),
                    depth + 1,
                    start,
                    end,
                    inner,
                    outer,
                )
            } else {
                Seq::empty()
            };
            seq![seg] + kids
        }
    }
}

/// The segments of the children of `n` from index `k` on, the first `k`
/// children having consumed `acc` weight units of the angular interval.
pub open spec fn children_layout(
    n: TreeNode,
    k: int,
    acc: int,
    path: Seq<usize>,
    labels: Seq<Seq<char>>,
    depth: int,
    start: int,
    end: int,
    inner: int,
    outer: int,
) -> Seq<SegModel>
    decreases n, 0int, n.children@.len() - k,
{
    if k < 0 || k >= n.children@.len() {
        Seq::empty()
    } else {
        let c = n.children@[k];
        let b0 = angle_cut(start, end, n.value as int, acc);
        let b1 = angle_cut(start, end, n.value as int, acc + c.value);
        layout_node_model(
            c,
            path.push(k as usize),
            labels,
            depth,
            b0,
            b1,
            inner,
            outer,
        ) + children_layout(n, k + 1, acc + c.value, path, labels, depth, start, end, inner, outer)
    }
}

/// Later cursor positions never lie before earlier ones.
pub proof fn lemma_angle_cut_mono(start: int, end: int, total: int, a1: int, a2: int)
    requires
        start <= end,
        0 <= a1 <= a2,
    ensures
        angle_cut(start, end, total, a1) <= angle_cut(start, end, total, a2),
        start <= angle_cut(start, end, total, a1) <= end,
{
    if total > 0 {
        lemma_mul_inequality(a1, a2, end - start);
        lemma_mul_is_commutative(a1, end - start);
        lemma_mul_is_commutative(a2, end - start);
        lemma_div_is_ordered((end - start) * a1, (end - start) * a2, total);
        lemma_mul_nonnegative(end - start, a1);
        vstd::arithmetic::div_mod::lemma_div_pos_is_pos((end - start) * a1, total);
    }
}

/// With all of the weight consumed, the cursor stands exactly at the end.
pub proof fn lemma_angle_cut_full(start: int, end: int, total: int)
    requires
        start <= end,
        total > 0,
    ensures
        angle_cut(start, end, total, total) == end,
        angle_cut(start, end, total, 0) == start,
{
    lemma_mul_is_commutative(end - start, total);
    lemma_div_multiples_vanish(end - start, total);
}

fn copy_usizes(v: &Vec<usize>) -> (r: Vec<usize>)
    ensures
        r@ == v@,
{
    let mut r: Vec<usize> = Vec::new();
    let n: usize = v.len();
    let mut i: usize = 0;
    while i < n
        invariant
            n == v@.len(),
            i <= n,
            r@ == v@.take(i as int),
        decreases n - i,
    {
        r.push(v[i]);
        proof {
            assert(r@ =~= v@.take(i + 1));
        }
        i = i + 1;
    }
    proof {
        assert(v@.take(n as int) =~= v@);
    }
    r
}

fn copy_strings(v: &Vec<String>) -> (r: Vec<String>)
    ensures
        r@ == v@,
{
    let mut r: Vec<String> = Vec::new();
    let n: usize = v.len();
    let mut i: usize = 0;
    while i < n
        invariant
            n == v@.len(),
            i <= n,
            r@ == v@.take(i as int),
        decreases n - i,
    {
        r.push(v[i].clone());
        proof {
            assert(r@ =~= v@.take(i + 1));
        }
        i = i + 1;
    }
    proof {
        assert(v@.take(n as int) =~= v@);
    }
    r
}

/// A cursor position at or past the whole weight stands at the end.
proof fn lemma_angle_cut_sat(start: int, end: int, total: int, acc: int)
    requires
        start <= end,
        0 < total <= acc,
    ensures
        angle_cut(start, end, total, acc) == end,
{
    lemma_mul_inequality(total, acc, end - start);
    lemma_mul_is_commutative(total, end - start);
    lemma_mul_is_commutative(acc, end - start);
    lemma_div_is_ordered((end - start) * total, (end - start) * acc, total);
    lemma_mul_is_commutative(end - start, total);
    lemma_div_multiples_vanish(end - start, total);
}

/// The exact angular cursor position, computed without overflow.
fn angle_cut_at(start: u64, end: u64, total: u64, acc: u128) -> (b: u64)
    requires
        start <= end,
        total > 0,
    ensures
        b as int == angle_cut(start as int, end as int, total as int, acc as int),
        start <= b <= end,
{
    let acc_c: u64 = if acc > (total as u128) {
        total
    } else {
        acc as u64
    };
    proof {
        if acc > (total as u128) {
            lemma_angle_cut_sat(start as int, end as int, total as int, total as int);
            lemma_angle_cut_sat(start as int, end as int, total as int, acc as int);
        }
    }
    let span: u64 = end - start;
    proof {
        assert((span as int) * (acc_c as int) + (u64::MAX as int) < 0x100000000000000000000000000000000int)
            by (nonlinear_arith)
            requires
                0 <= span as int <= u64::MAX as int,
                0 <= acc_c as int <= u64::MAX as int;
    }
    let num: u128 = (span as u128) * (acc_c as u128);
    proof {
        assert((num as int) / (total as int) <= num as int) by (nonlinear_arith)
            requires
                num as int >= 0,
                total as int >= 1;
    }
    let q: u128 = num / (total as u128);
    let b128: u128 = (start as u128) + q;
    proof {
        lemma_mul_nonnegative(span as int, acc_c as int);
        vstd::arithmetic::div_mod::lemma_div_pos_is_pos(
            (span as int) * (acc_c as int),
            total as int,
        );
    }
    if b128 > end as u128 {
        end
    } else {
        b128 as u64
    }
}

proof fn lemma_children_value_sum_bound(s: Seq<TreeNode>, i: int)
    requires
        0 <= i <= s.len(),
    ensures
        0 <= children_value_sum(s, i) <= (s.len() - i) * (u64::MAX as int),
    decreases s.len() - i,
{
    if i < s.len() {
        lemma_children_value_sum_bound(s, i + 1);
        lemma_mul_inequality(s.len() - i - 1, s.len() - i, u64::MAX as int);
        lemma_mul_is_commutative(s.len() - i - 1, u64::MAX as int);
        lemma_mul_is_commutative(s.len() - i, u64::MAX as int);
    }
}

/// Lays out the subtree at `node` into `segs`, appending in pre-order.
fn layout_node(
    node: &TreeNode,
    path: &Vec<usize>,
    labels: &Vec<String>,
    depth: usize,
    start: u64,
    end: u64,
    inner: u64,
    outer: u64,
    segs: &mut Vec<Segment>,
)
    requires
        start <= end,
        inner <= outer,
        depth < RING_COUNT,
    ensures
        seg_views(final(segs)@) == seg_views(old(segs)@) + layout_node_model(
            *node,
            path@,
            labels@.map_values(|s: String| s@),
            depth as int,
            start as int,
            end as int,
            inner as int,
            outer as int,
        ),
    decreases *node,
{
    let ghost labels_view = labels@.map_values(|s: String| s@);
    let ghost full_model = layout_node_model(
        *node,
        path@,
        labels_view,
        depth as int,
        start as int,
        end as int,
        inner as int,
        outer as int,
    );
    if node.value == 0 {
        proof {
            assert(seg_views(segs@) =~= seg_views(segs@) + full_model);
        }
        return ;
    }
    let gap: u64 = (outer - inner) / RING_COUNT;
    proof {
        let g = gap as int;
        let d = depth as int;
        assert(6 * g <= (outer - inner) as int) by (nonlinear_arith)
            requires
                g == ((outer - inner) as int) / 6,
                outer as int >= inner as int;
        assert(d * g <= 5 * g) by (nonlinear_arith)
            requires
                0 <= d <= 5,
                g >= 0;
        assert(inner as int + d * g + g <= outer as int);
    }
    let ri: u64 = inner + (depth as u64) * gap;
    let ro: u64 = ri + gap;
    if ro > outer || ro <= ri {
        proof {
            assert(seg_views(segs@) =~= seg_views(segs@) + full_model);
        }
        return ;
    }
    let mut child_labels: Vec<String> = copy_strings(labels);
    child_labels.push(node.name.clone());
    proof {
        assert(child_labels@.map_values(|s: String| s@) =~= labels_view.push(node.name@));
    }
    let seg = Segment {
        path: copy_usizes(path),
        labels: copy_strings(&child_labels),
        value: node.value,
        depth,
        start_angle: start,
        end_angle: end,
        inner_radius: ri,
        outer_radius: ro,
    };
    let ghost seg_model = seg@;
    segs.push(seg);
    proof {
        assert(seg_views(segs@) =~= seg_views(old(segs)@) + seq![seg_model]);
    }
    if depth < (RING_COUNT as usize) - 1 {
        let total: u64 = node.value;
        let m: usize = node.children.len();
        let mut acc: u128 = 0;
        let mut k: usize = 0;
        let ghost base = seg_views(old(segs)@) + seq![seg_model];
        proof {
            lemma_children_value_sum_bound(node.children@, 0);
        }
        while k < m
            invariant
                m == node.children@.len(),
                k <= m,
                start <= end,
                inner <= outer,
                total == node.value,
                total > 0,
                depth < RING_COUNT - 1,
                child_labels@.map_values(|s: String| s@) == labels_view.push(node.name@),
                acc as int == children_value_sum(node.children@, 0) - children_value_sum(
                    node.children@,
                    k as int,
                ),
                acc as int >= 0,
                acc as int <= children_value_sum(node.children@, 0),
                seg_views(segs@) + children_layout(
                    *node,
                    k as int,
                    acc as int,
                    path@,
                    labels_view.push(node.name@),
                    depth + 1,
                    start as int,
                    end as int,
                    inner as int,
                    outer as int,
                ) == base + children_layout(
                    *node,
                    0,
                    0,
                    path@,
                    labels_view.push(node.name@),
                    depth + 1,
                    start as int,
                    end as int,
                    inner as int,
                    outer as int,
                ),
            decreases m - k,
        {
            proof {
                assert(decreases_to!(*node => node.children@[k as int]));
                lemma_children_value_sum_bound(node.children@, 0);
                lemma_children_value_sum_bound(node.children@, k as int);
                lemma_children_value_sum_bound(node.children@, k + 1);
                assert((node.children@.len() as int) * (u64::MAX as int) < 0x100000000000000000000000000000000int)
                    by (nonlinear_arith)
                    requires
                        node.children@.len() < 0x10000000000000000int;
            }
            let c_value: u64 = node.children[k].value;
            let b0: u64 = angle_cut_at(start, end, total, acc);
            let acc1: u128 = acc + (c_value as u128);
            let b1: u64 = angle_cut_at(start, end, total, acc1);
            proof {
                lemma_angle_cut_mono(start as int, end as int, total as int, acc as int, acc1 as int);
            }
            let mut child_path: Vec<usize> = copy_usizes(path);
            child_path.push(k);
            layout_node(
                &node.children[k],
                &child_path,
                &child_labels,
                depth + 1,
                b0,
                b1,
                inner,
                outer,
                segs,
            );
            proof {
                assert(child_path@ =~= path@.push(k as usize));
            }
            acc = acc1;
            k = k + 1;
        }
        proof {
            assert(children_layout(
                *node,
                m as int,
                acc as int,
                path@,
                labels_view.push(node.name@),
                depth + 1,
                start as int,
                end as int,
                inner as int,
                outer as int,
            ) =~= Seq::<SegModel>::empty());
            assert(seg_views(segs@) =~= seg_views(segs@) + Seq::<SegModel>::empty());
            assert(full_model == seq![seg_model] + children_layout(
                *node,
                0,
                0,
                path@,
                labels_view.push(node.name@),
                depth + 1,
                start as int,
                end as int,
                inner as int,
                outer as int,
            ));
            assert(seg_views(segs@) =~= seg_views(old(segs)@) + full_model);
        }
    } else {
        proof {
            assert(full_model =~= seq![seg_model]);
            assert(seg_views(segs@) =~= seg_views(old(segs)@) + full_model);
        }
    }
}

/// Lays out the subtree rooted at `root` over the given ring and angle
/// budgets: the display root occupies ring 0 over the whole interval, its
/// descendants partition their parents' intervals proportionally to weight.
pub fn layout(root: &TreeNode, inner: u64, outer: u64, start_angle: u64, end_angle: u64) -> (segs:
    Vec<Segment>)
    requires
        inner <= outer,
        start_angle <= end_angle,
    ensures
        seg_views(segs@) == layout_node_model(
            *root,
            Seq::empty(),
            Seq::empty(),
            0,
            start_angle as int,
            end_angle as int,
            inner as int,
            outer as int,
        ),
{
    let mut segs: Vec<Segment> = Vec::new();
    let path: Vec<usize> = Vec::new();
    let labels: Vec<String> = Vec::new();
    layout_node(root, &path, &labels, 0, start_angle, end_angle, inner, outer, &mut segs);
    proof {
        assert(labels@.map_values(|s: String| s@) =~= Seq::<Seq<char>>::empty());
        assert(seg_views(segs@) =~= layout_node_model(
            *root,
            Seq::empty(),
            Seq::empty(),
            0,
            start_angle as int,
            end_angle as int,
            inner as int,
            outer as int,
        ));
    }
    segs
}

/// Whether the point at polar position (`radius`, `angle`) lies within the
/// segment's radial and angular bounds, boundaries included.
pub open spec fn seg_contains(g: SegModel, radius: int, angle: int) -> bool {
    g.inner_radius <= radius <= g.outer_radius && g.start_angle <= angle <= g.end_angle
}

/// The topmost containing segment at or below index `k`, scanning in
/// reverse paint order.
pub open spec fn find_from_top(s: Seq<SegModel>, radius: int, angle: int, k: int) -> Option<int>
    decreases k + 1,
{
    if k < 0 || k >= s.len() {
        None
    } else if seg_contains(s[k], radius, angle) {
        Some(k)
    } else {
        find_from_top(s, radius, angle, k - 1)
    }
}

/// The topmost segment containing the point, if any.
pub open spec fn find_hit(s: Seq<SegModel>, radius: int, angle: int) -> Option<int> {
    find_from_top(s, radius, angle, s.len() - 1)
}

impl Segment {
    /// Whether the polar point lies within this segment's bounds.
    pub fn contains_point(&self, radius: u64, angle: u64) -> (r: bool)
        ensures
            r == seg_contains(self@, radius as int, angle as int),
    {
        self.inner_radius <= radius && radius <= self.outer_radius && self.start_angle <= angle
            && angle <= self.end_angle
    }
}

/// The reverse scan finds the topmost containing segment: its result
/// contains the point, nothing above it does, and a miss means nothing
/// contains the point at all.
pub proof fn lemma_find_from_top_characterization(
    s: Seq<SegModel>,
    radius: int,
    angle: int,
    k: int,
)
    requires
        k < s.len(),
    ensures
        match find_from_top(s, radius, angle, k) {
            Some(j) => 0 <= j <= k && seg_contains(s[j], radius, angle) && (forall|m: int|
                j < m <= k ==> !seg_contains(#[trigger] s[m], radius, angle)),
            None => forall|m: int| 0 <= m <= k ==> !seg_contains(#[trigger] s[m], radius, angle),
        },
    decreases k + 1,
{
    if k >= 0 && !seg_contains(s[k], radius, angle) {
        lemma_find_from_top_characterization(s, radius, angle, k - 1);
    }
}

/// Resolves a polar pointer position to the topmost segment containing it,
/// iterating the pre-order list in reverse so that deeper, later-drawn
/// segments win at shared boundaries.
pub fn find_segment(segs: &Vec<Segment>, radius: u64, angle: u64) -> (r: Option<usize>)
    ensures
        match r {
            Some(i) => i < segs@.len() && find_hit(seg_views(segs@), radius as int, angle as int)
                == Some(i as int) && seg_contains(
                seg_views(segs@)[i as int],
                radius as int,
                angle as int,
            ) && (forall|m: int|
                i < m < segs@.len() ==> !seg_contains(
                    #[trigger] seg_views(segs@)[m],
                    radius as int,
                    angle as int,
                )),
            None => find_hit(seg_views(segs@), radius as int, angle as int) is None && (forall|
                m: int,
            |
                0 <= m < segs@.len() ==> !seg_contains(
                    #[trigger] seg_views(segs@)[m],
                    radius as int,
                    angle as int,
                )),
        },
{
    let n: usize = segs.len();
    let mut k: usize = n;
    while k > 0
        invariant
            n == segs@.len(),
            k <= n,
            find_from_top(seg_views(segs@), radius as int, angle as int, n - 1) == find_from_top(
                seg_views(segs@),
                radius as int,
                angle as int,
                k - 1,
            ),
        decreases k,
    {
        k = k - 1;
        if segs[k].contains_point(radius, angle) {
            proof {
                lemma_find_from_top_characterization(
                    seg_views(segs@),
                    radius as int,
                    angle as int,
                    n - 1,
                );
            }
            return Some(k);
        }
    }
    proof {
        if n > 0 {
            lemma_find_from_top_characterization(
                seg_views(segs@),
                radius as int,
                angle as int,
                n - 1,
            );
        }
    }
    None
}


/// Zero-weight invisibility and well-formedness of the produced segments:
/// every segment in a layout stands for a node of positive weight, spans a
/// non-empty angular interval, and occupies a ring of positive thickness.
/// A node with weight 0 therefore never appears, at any depth.
pub proof fn lemma_layout_segments_wf(
    n: TreeNode,
    path: Seq<usize>,
    labels: Seq<Seq<char>>,
    depth: int,
    start: int,
    end: int,
    inner: int,
    outer: int,
)
    requires
        start <= end,
    ensures
        forall|i: int|
            0 <= i < layout_node_model(n, path, labels, depth, start, end, inner, outer).len()
                ==> {
                let g = #[trigger] layout_node_model(
                    n,
                    path,
                    labels,
                    depth,
                    start,
                    end,
                    inner,
                    outer,
                )[i];
                g.value > 0 && g.start_angle <= g.end_angle && g.inner_radius < g.outer_radius
            },
    decreases n, 1int, 0int,
{
    let model = layout_node_model(n, path, labels, depth, start, end, inner, outer);
    if n.value != 0 {
        let gap = (outer - inner) / (RING_COUNT as int);
        let ri = inner + depth * gap;
        let ro = ri + gap;
        if !(ro > outer || ro <= ri) {
            let kids = if depth < (RING_COUNT as int) - 1 {
                children_layout(
                    n,
                    0,
                    0,
                    path,
                    labels.push(n.name@),
                    depth + 1,
                    start,
                    end,
                    inner,
                    outer,
                )
            } else {
                Seq::<SegModel>::empty()
            };
            if depth < (RING_COUNT as int) - 1 {
                lemma_children_layout_wf(
                    n,
                    0,
                    0,
                    path,
                    labels.push(n.name@),
                    depth + 1,
                    start,
                    end,
                    inner,
                    outer,
                );
            }
            assert forall|i: int| 0 <= i < model.len() implies {
                let g = #[trigger] model[i];
                g.value > 0 && g.start_angle <= g.end_angle && g.inner_radius < g.outer_radius
            } by {
                if i > 0 {
                    assert(model[i] == kids[i - 1]);
                }
            }
        }
    }
}

proof fn lemma_children_layout_wf(
    n: TreeNode,
    k: int,
    acc: int,
    path: Seq<usize>,
    labels: Seq<Seq<char>>,
    depth: int,
    start: int,
    end: int,
    inner: int,
    outer: int,
)
    requires
        start <= end,
        acc >= 0,
    ensures
        forall|i: int|
            0 <= i < children_layout(n, k, acc, path, labels, depth, start, end, inner, outer).len()
                ==> {
                let g = #[trigger] children_layout(
                    n,
                    k,
                    acc,
                    path,
                    labels,
                    depth,
                    start,
                    end,
                    inner,
                    outer,
                )[i];
                g.value > 0 && g.start_angle <= g.end_angle && g.inner_radius < g.outer_radius
            },
    decreases n, 0int, n.children@.len() - k,
{
    if 0 <= k < n.children@.len() {
        let c = n.children@[k];
        let b0 = angle_cut(start, end, n.value as int, acc);
        let b1 = angle_cut(start, end, n.value as int, acc + c.value);
        lemma_angle_cut_mono(start, end, n.value as int, acc, acc + c.value);
        lemma_layout_segments_wf(c, path.push(k as usize), labels, depth, b0, b1, inner, outer);
        lemma_children_layout_wf(
            n,
            k + 1,
            acc + c.value,
            path,
            labels,
            depth,
            start,
            end,
            inner,
            outer,
        );
        let model = children_layout(n, k, acc, path, labels, depth, start, end, inner, outer);
        let head = layout_node_model(c, path.push(k as usize), labels, depth, b0, b1, inner, outer);
        let tail = children_layout(
            n,
            k + 1,
            acc + c.value,
            path,
            labels,
            depth,
            start,
            end,
            inner,
            outer,
        );
        assert forall|i: int| 0 <= i < model.len() implies {
            let g = #[trigger] model[i];
            g.value > 0 && g.start_angle <= g.end_angle && g.inner_radius < g.outer_radius
        } by {
            if i < head.len() {
                assert(model[i] == head[i]);
            } else {
                assert(model[i] == tail[i - head.len()]);
            }
        }
    }
}

/// The summed angular widths handed to the children of `n` from index `k`
/// on, the first `k` children having consumed `acc` weight units.
pub open spec fn child_span_sum(n: TreeNode, k: int, acc: int, start: int, end: int) -> int
    decreases n.children@.len() - k,
{
    if k < 0 || k >= n.children@.len() {
        0
    } else {
        let c = n.children@[k];
        (angle_cut(start, end, n.value as int, acc + c.value) - angle_cut(
            start,
            end,
            n.value as int,
            acc,
        )) + child_span_sum(n, k + 1, acc + c.value, start, end)
    }
}

proof fn lemma_span_sum_telescopes(n: TreeNode, k: int, acc: int, start: int, end: int)
    requires
        0 <= k <= n.children@.len(),
    ensures
        child_span_sum(n, k, acc, start, end) == angle_cut(
            start,
            end,
            n.value as int,
            acc + children_value_sum(n.children@, k),
        ) - angle_cut(start, end, n.value as int, acc),
    decreases n.children@.len() - k,
{
    if k < n.children@.len() {
        lemma_span_sum_telescopes(n, k + 1, acc + n.children@[k].value, start, end);
    }
}

/// Angle conservation: for a weight-conserving node laid out with children,
/// the children's angular widths sum exactly to the node's own width — the
/// cursor accumulates exactly, so sibling rounding never drifts.
pub proof fn lemma_angle_conservation(n: TreeNode, start: int, end: int)
    requires
        weights_ok(n),
        n.value > 0,
        n.children@.len() > 0,
        start <= end,
    ensures
        child_span_sum(n, 0, 0, start, end) == end - start,
{
    lemma_span_sum_telescopes(n, 0, 0, start, end);
    lemma_angle_cut_full(start, end, n.value as int);
}

proof fn lemma_find_from_top_hit(s: Seq<SegModel>, radius: int, angle: int, k: int, i: int)
    requires
        0 <= i <= k < s.len(),
        seg_contains(s[i], radius, angle),
    ensures
        match find_from_top(s, radius, angle, k) {
            Some(j) => i <= j <= k && seg_contains(s[j], radius, angle),
            None => false,
        },
    decreases k,
{
    if !seg_contains(s[k], radius, angle) {
        lemma_find_from_top_hit(s, radius, angle, k - 1, i);
    }
}

/// Hit-test soundness: the polar midpoint of any well-formed segment lies
/// within that segment, and resolving it in reverse paint order yields that
/// same segment or a later-drawn one sharing the very same point.
pub proof fn lemma_hit_test_soundness(segs: Seq<SegModel>, i: int)
    requires
        0 <= i < segs.len(),
        segs[i].start_angle <= segs[i].end_angle,
        segs[i].inner_radius <= segs[i].outer_radius,
    ensures
        ({
            let mid_r = (segs[i].inner_radius + segs[i].outer_radius) / 2;
            let mid_a = (segs[i].start_angle + segs[i].end_angle) / 2;
            seg_contains(segs[i], mid_r, mid_a) && match find_hit(segs, mid_r, mid_a) {
                Some(j) => i <= j < segs.len() && seg_contains(segs[j], mid_r, mid_a),
                None => false,
            }
        }),
{
    let mid_r = (segs[i].inner_radius + segs[i].outer_radius) / 2;
    let mid_a = (segs[i].start_angle + segs[i].end_angle) / 2;
    lemma_midpoint_between(segs[i].inner_radius, segs[i].outer_radius);
    lemma_midpoint_between(segs[i].start_angle, segs[i].end_angle);
    lemma_find_from_top_hit(segs, mid_r, mid_a, segs.len() - 1, i);
}

proof fn lemma_midpoint_between(a: int, b: int)
    requires
        a <= b,
    ensures
        a <= (a + b) / 2 <= b,
{
    lemma_div_multiples_vanish(a, 2);
    lemma_div_multiples_vanish(b, 2);
    lemma_div_is_ordered(2 * a, a + b, 2);
    lemma_div_is_ordered(a + b, 2 * b, 2);
}

} // verus!
