//! The chart controller: one explicit state struct holding the loaded tree,
//! the raw events, the current segment list, and the hover, zoom and
//! selection state, with one method per external event. Layout, hit-testing,
//! statistics and projections are recomputed from this state alone.

use vstd::prelude::*;

verus! {

use vstd::string::StringExecFns;
use crate::color::Color;
use crate::color::color_model;
use crate::color::hash_label;
use crate::color::hue_of;
use crate::color::saturation_of;
use crate::color::value_of;
use crate::data::AuditEvent;
use crate::layout::FULL_TURN;
use crate::layout::SegModel;
use crate::layout::Segment;
use crate::layout::find_hit;
use crate::layout::find_segment;
use crate::layout::layout;
use crate::layout::layout_node_model;
use crate::layout::seg_views;
use crate::stats::StatsRow;
use crate::stats::pct_of;
use crate::stats::sort_desc;
use crate::stats::sort_pairs;
use crate::stats::pair_views;
use crate::text::dec_digits;
use crate::text::str_eq;
use crate::text::u64_string;
use crate::tree::TreeNode;
use crate::tree::node_at;
use crate::tree::node_at_spec;

/// What a resolved click did to the navigation state.
#[derive(Clone, Copy, Debug, PartialEq, Eq, Structural)]
pub enum ClickOutcome {
    /// No segment was hit, or the target could not be resolved.
    NoChange,
    /// A non-central segment was hit: the view zoomed into its node.
    ZoomedIn,
    /// The central segment was hit: the view returned to the true root.
    ZoomedOut,
}

/// One drawing instruction for the rendering collaborator: an annular wedge,
/// its fill colour, and whether it is hovered or selected.
#[derive(Clone, Copy, Debug, PartialEq, Eq, Structural)]
pub struct DrawInstruction {
    pub start_angle: u64,
    pub end_angle: u64,
    pub inner_radius: u64,
    pub outer_radius: u64,
    pub color: Color,
    pub hovered: bool,
    pub selected: bool,
}

/// A plain projection of one aggregation-tree node for an external
/// hierarchical list view.
pub struct TreeRow {
    pub name: String,
    pub count: String,
    pub value: u64,
    pub children: Vec<TreeRow>,
}

/// Whether `r` projects the node `n`: same label, the weight both as a
/// number and rendered in decimal, and one projected child per child.
pub open spec fn row_models_node(r: TreeRow, n: TreeNode) -> bool
    decreases n,
{
    &&& r.name@ == n.name@
    &&& r.count@ == dec_digits(n.value as int)
    &&& r.value == n.value
    &&& r.children@.len() == n.children@.len()
    &&& (forall|i: int|
        0 <= i < n.children@.len() ==> row_models_node(
            #[trigger] r.children@[i],
            n.children@[i],
        ))
}

/// The sunburst chart state: the loaded tree and events, the segment list of
/// the current frame, and the hover, zoom and selection state.
pub struct SunburstChart {
    /// The aggregation tree, once data is loaded.
    pub data: Option<TreeNode>,
    /// The raw events behind the tree, kept for the time range.
    pub events: Vec<AuditEvent>,
    /// The segment list of the current frame, in pre-order.
    pub segments: Vec<Segment>,
    /// The index of the segment under the pointer, if any.
    pub hover_segment: Option<usize>,
    /// Child indices from the true root to the zoom root; empty means the
    /// true root is shown.
    pub zoom_path: Vec<usize>,
    /// The externally selected root-to-node label path; empty means none.
    pub selected_path: Vec<String>,
    /// The outer radius of the radial budget, in pixels.
    pub radius: u64,
}

impl SunburstChart {
    /// The node the chart displays from: the true root, or the node the zoom
    /// path leads to.
    pub open spec fn display_root(self) -> Option<TreeNode> {
        match self.data {
            Some(d) => node_at_spec(d, self.zoom_path@, 0),
            None => None,
        }
    }

    /// The segment list the current state calls for: the display root laid
    /// out over the full circle and the whole radial budget.
    pub open spec fn expected_segments(self) -> Seq<SegModel> {
        match self.display_root() {
            Some(r) => layout_node_model(
                r,
                Seq::empty(),
                Seq::empty(),
                0,
                0,
                FULL_TURN as int,
                0,
                self.radius as int,
            ),
            None => Seq::empty(),
        }
    }

    /// Whether the stored segment list matches the state.
    pub open spec fn segments_current(self) -> bool {
        seg_views(self.segments@) == self.expected_segments()
    }

    /// A chart with nothing loaded.
    pub fn new() -> (c: SunburstChart)
        ensures
            c.data is None,
            c.events@.len() == 0,
            c.segments@.len() == 0,
            c.hover_segment is None,
            c.zoom_path@.len() == 0,
            c.selected_path@.len() == 0,
            c.radius == 0,
            c.segments_current(),
    {
        let c = SunburstChart {
            data: None,
            events: Vec::new(),
            segments: Vec::new(),
            hover_segment: None,
            zoom_path: Vec::new(),
            selected_path: Vec::new(),
            radius: 0,
        };
        proof {
            assert(seg_views(c.segments@) =~= c.expected_segments());
        }
        c
    }

    /// Rebuilds the segment list from the current state.
    fn relayout(&mut self)
        ensures
            final(self).data == old(self).data,
            final(self).events == old(self).events,
            final(self).hover_segment == old(self).hover_segment,
            final(self).zoom_path == old(self).zoom_path,
            final(self).selected_path == old(self).selected_path,
            final(self).radius == old(self).radius,
            final(self).segments_current(),
    {
        let new_segs: Vec<Segment> = match &self.data {
            Some(d) => {
                match node_at(d, &self.zoom_path) {
                    Some(r) => layout(r, 0, self.radius, 0, FULL_TURN),
                    None => Vec::new(),
                }
            },
            None => Vec::new(),
        };
        self.segments = new_segs;
        proof {
            if self.expected_segments().len() == 0 {
                assert(seg_views(self.segments@) =~= self.expected_segments());
            }
        }
    }

    /// Loads a freshly built tree and its events: zoom, selection and hover
    /// are reset and the layout is rebuilt.
    pub fn set_data(&mut self, data: TreeNode, events: Vec<AuditEvent>)
        ensures
            final(self).data == Some(data),
            final(self).events == events,
            final(self).zoom_path@.len() == 0,
            final(self).selected_path@.len() == 0,
            final(self).hover_segment is None,
            final(self).radius == old(self).radius,
            final(self).segments_current(),
    {
        self.data = Some(data);
        self.events = events;
        self.zoom_path = Vec::new();
        self.selected_path = Vec::new();
        self.hover_segment = None;
        self.relayout();
    }

    /// Adopts a new radial budget and rebuilds the layout.
    pub fn on_resize(&mut self, radius: u64)
        ensures
            final(self).data == old(self).data,
            final(self).events == old(self).events,
            final(self).hover_segment == old(self).hover_segment,
            final(self).zoom_path == old(self).zoom_path,
            final(self).selected_path == old(self).selected_path,
            final(self).radius == radius,
            final(self).segments_current(),
    {
        self.radius = radius;
        self.relayout();
    }

    /// Re-resolves the hover segment for a pointer position in polar
    /// coordinates; true when the hover changed and a redraw is due.
    pub fn on_pointer_move(&mut self, radius: u64, angle: u64) -> (redraw: bool)
        ensures
            final(self).data == old(self).data,
            final(self).events == old(self).events,
            final(self).segments == old(self).segments,
            final(self).zoom_path == old(self).zoom_path,
            final(self).selected_path == old(self).selected_path,
            final(self).radius == old(self).radius,
            match find_hit(seg_views(old(self).segments@), radius as int, angle as int) {
                Some(i) => final(self).hover_segment == Some(i as usize),
                None => final(self).hover_segment is None,
            },
            redraw == (final(self).hover_segment != old(self).hover_segment),
    {
        let found: Option<usize> = find_segment(&self.segments, radius, angle);
        let changed: bool = match (&found, &self.hover_segment) {
            (Some(a), Some(b)) => *a != *b,
            (None, None) => false,
            _ => true,
        };
        self.hover_segment = found;
        changed
    }

    /// Applies a click at a polar position: a hit on the central segment
    /// zooms out to the true root, a hit on any other segment zooms into
    /// its node, and either clears the external selection; no hit changes
    /// nothing. The layout is rebuilt after a zoom change.
    pub fn on_click(&mut self, radius: u64, angle: u64) -> (outcome: ClickOutcome)
        ensures
            match find_hit(seg_views(old(self).segments@), radius as int, angle as int) {
                None => outcome == ClickOutcome::NoChange && *final(self) == *old(self),
                Some(i) => {
                    let seg = seg_views(old(self).segments@)[i];
                    if seg.depth == 0 {
                        &&& outcome == ClickOutcome::ZoomedOut
                        &&& final(self).zoom_path@.len() == 0
                        &&& final(self).selected_path@.len() == 0
                        &&& final(self).data == old(self).data
                        &&& final(self).events == old(self).events
                        &&& final(self).radius == old(self).radius
                        &&& final(self).hover_segment == old(self).hover_segment
                        &&& final(self).segments_current()
                    } else {
                        let target = old(self).zoom_path@ + seg.path;
                        match old(self).data {
                            Some(d) => match node_at_spec(d, target, 0) {
                                Some(node) => {
                                    &&& outcome == ClickOutcome::ZoomedIn
                                    &&& final(self).zoom_path@ == target
                                    &&& final(self).selected_path@.len() == 0
                                    &&& final(self).data == old(self).data
                                    &&& final(self).events == old(self).events
                                    &&& final(self).radius == old(self).radius
                                    &&& final(self).hover_segment == old(self).hover_segment
                                    &&& final(self).segments_current()
                                },
                                None => outcome == ClickOutcome::NoChange && *final(self) == *old(
                                    self,
                                ),
                            },
                            None => outcome == ClickOutcome::NoChange && *final(self) == *old(self),
                        }
                    }
                },
            },
    {
        let hit: Option<usize> = find_segment(&self.segments, radius, angle);
        match hit {
            None => ClickOutcome::NoChange,
            Some(i) => {
                if self.segments[i].depth == 0 {
                    self.zoom_path = Vec::new();
                    self.selected_path = Vec::new();
                    self.relayout();
                    ClickOutcome::ZoomedOut
                } else {
                    let mut target: Vec<usize> = copy_indices(&self.zoom_path);
                    let m: usize = self.segments[i].path.len();
                    let mut j: usize = 0;
                    while j < m
                        invariant
                            i < self.segments@.len(),
                            m == self.segments@[i as int].path@.len(),
                            j <= m,
                            target@ == self.zoom_path@ + self.segments@[i as int].path@.take(
                                j as int,
                            ),
                        decreases m - j,
                    {
                        target.push(self.segments[i].path[j]);
                        proof {
                            assert(target@ =~= self.zoom_path@ + self.segments@[i as int].path@.take(
                                j + 1,
                            ));
                        }
                        j = j + 1;
                    }
                    proof {
                        assert(self.segments@[i as int].path@.take(m as int) =~= self.segments@[
                            i as int].path@);
                    }
                    let resolves: bool = match &self.data {
                        Some(d) => node_at(d, &target).is_some(),
                        None => false,
                    };
                    if resolves {
                        self.zoom_path = target;
                        self.selected_path = Vec::new();
                        self.relayout();
                        ClickOutcome::ZoomedIn
                    } else {
                        ClickOutcome::NoChange
                    }
                }
            },
        }
    }

    /// The explicit zoom reset: back to the true root, selection cleared.
    pub fn reset_zoom(&mut self)
        ensures
            final(self).data == old(self).data,
            final(self).events == old(self).events,
            final(self).hover_segment == old(self).hover_segment,
            final(self).radius == old(self).radius,
            final(self).zoom_path@.len() == 0,
            final(self).selected_path@.len() == 0,
            final(self).segments_current(),
    {
        self.zoom_path = Vec::new();
        self.selected_path = Vec::new();
        self.relayout();
    }

    /// Stores the label path selected in the external list view; the next
    /// drawing pass highlights the segment whose label path equals it.
    pub fn set_selected_path(&mut self, path: Vec<String>)
        ensures
            final(self).selected_path == path,
            final(self).data == old(self).data,
            final(self).events == old(self).events,
            final(self).segments == old(self).segments,
            final(self).hover_segment == old(self).hover_segment,
            final(self).zoom_path == old(self).zoom_path,
            final(self).radius == old(self).radius,
    {
        self.selected_path = path;
    }

    /// The colour for a label at a ring depth: deterministic, the same label
    /// and depth always give the same colour.
    pub fn get_color(name: &str, depth: usize) -> (c: Color)
        ensures
            c == color_model(name@, depth),
    {
        let h: u32 = hash_label(name, depth);
        let hue: u32 = h % 360;
        let sat: u32 = 600000 + ((h / 360) % 20) * 10000;
        let val: u32 = 700000 + ((h / 7200) % 20) * 10000;
        proof {
            assert(hue == hue_of(h));
            assert(sat == saturation_of(h));
            assert(val == value_of(h));
        }
        Color::from_hsv(hue, sat, val)
    }
}

fn copy_indices(v: &Vec<usize>) -> (r: Vec<usize>)
    ensures
        r@ == v@,
{
    let mut r: Vec<usize> = Vec::new();
    let n: usize = v.len();
    let mut i: usize = 0;
    while i < n
        invariant
            n == v@.len(),
            i <= n,
            r@ == v@.take(i as int),
        decreases n - i,
    {
        r.push(v[i]);
        proof {
            assert(r@ =~= v@.take(i + 1));
        }
        i = i + 1;
    }
    proof {
        assert(v@.take(n as int) =~= v@);
    }
    r
}

/// Zoom round-trip: the segment list a state calls for depends only on the
/// loaded tree, the zoom path and the radial budget. Zooming into a segment
/// and then clicking the centre leaves the zoom path empty again, so by this
/// lemma the rebuilt segment list equals the pre-zoom global layout — same
/// nodes, same proportions.
pub proof fn lemma_zoom_round_trip(a: SunburstChart, b: SunburstChart)
    requires
        a.data == b.data,
        a.radius == b.radius,
        a.zoom_path@ == b.zoom_path@,
    ensures
        a.expected_segments() == b.expected_segments(),
{
}


/// The (label, weight) pairs of a node's children, in stored order.
pub open spec fn child_pairs(n: TreeNode) -> Seq<(Seq<char>, u64)> {
    n.children@.map_values(|c: TreeNode| (c.name@, c.value))
}

/// A percentage clamped to the 32-bit display range.
pub open spec fn pct_clamped(count: u64, total: u64) -> int {
    if pct_of(count, total as int) > u32::MAX {
        u32::MAX as int
    } else {
        pct_of(count, total as int)
    }
}

/// One line of the tooltip's top-operations list.
pub open spec fn top_line(p: (Seq<char>, u64), total: u64) -> Seq<char> {
    "  \u{2022} "@ + p.0 + " ("@ + dec_digits(pct_clamped(p.1, total)) + "%)\n"@
}

/// The first `k` top-operations lines, concatenated.
pub open spec fn top_lines_upto(s: Seq<(Seq<char>, u64)>, k: int, total: u64) -> Seq<char>
    decreases k,
{
    if k <= 0 || k > s.len() {
        Seq::empty()
    } else {
        top_lines_upto(s, k - 1, total) + top_line(s[k - 1], total)
    }
}

/// How many children the tooltip lists: at most five.
pub open spec fn top_count(len: int) -> int {
    if len < 5 {
        len
    } else {
        5
    }
}

/// The tooltip text of a node: its label and weight, and, when it has
/// children, their number and the top five children by weight with their
/// rounded share of the node's weight.
pub open spec fn tooltip_model(n: TreeNode) -> Seq<char> {
    let base = n.name@ + "\n"@ + "Count: "@ + dec_digits(n.value as int) + "\n"@;
    if n.children@.len() == 0 {
        base
    } else {
        let sorted = sort_desc(child_pairs(n));
        base + "Children: "@ + dec_digits(n.children@.len() as int) + "\n"@
            + "\nTop operations:\n"@ + top_lines_upto(
            sorted,
            top_count(sorted.len() as int),
            n.value,
        )
    }
}

/// The clamped rounded percentage, computed exactly.
fn clamped_percentage(count: u64, total: u64) -> (p: u32)
    ensures
        p as int == pct_clamped(count, total),
{
    if total == 0 {
        return 0;
    }
    let x: u128 = 200 * (count as u128) + (total as u128);
    let q: u128 = (x / 2) / (total as u128);
    proof {
        vstd::arithmetic::div_mod::lemma_div_denominator(x as int, 2, total as int);
    }
    if q > (u32::MAX as u128) {
        u32::MAX
    } else {
        q as u32
    }
}

/// Formats the hover tooltip of a tree node: label, weight, child count, and
/// the top five children by weight with their rounded share of the node's
/// weight, ties kept in stored order.
pub fn format_tooltip(node: &TreeNode) -> (r: String)
    ensures
        r@ == tooltip_model(*node),
{
    let mut r: String = node.name.clone();
    r.append("\n");
    r.append("Count: ");
    let count_text: String = u64_string(node.value);
    r.append(count_text.as_str());
    r.append("\n");
    let m: usize = node.children.len();
    if m == 0 {
        return r;
    }
    r.append("Children: ");
    let child_count_text: String = u64_string(m as u64);
    r.append(child_count_text.as_str());
    r.append("\n");
    r.append("\nTop operations:\n");
    let ghost base2 = r@;
    let mut pairs: Vec<(String, u64)> = Vec::new();
    let mut i: usize = 0;
    while i < m
        invariant
            m == node.children@.len(),
            i <= m,
            pair_views(pairs@) == child_pairs(*node).take(i as int),
        decreases m - i,
    {
        let ghost pairs_before = pairs@;
        let cloned_name: String = node.children[i].name.clone();
        let child_value: u64 = node.children[i].value;
        pairs.push((cloned_name, child_value));
        proof {
            assert(child_pairs(*node).len() == node.children@.len());
            assert(pair_views(pairs_before).len() == pairs_before.len());
            assert(pairs_before.len() == i);
            assert(pairs@ == pairs_before.push(
                (node.children@[i as int].name, node.children@[i as int].value),
            ));
            assert forall|j: int| 0 <= j < pairs@.len() implies pair_views(pairs@)[j]
                == child_pairs(*node).take(i + 1)[j] by {
                assert(child_pairs(*node)[j] == (node.children@[j].name@, node.children@[j].value));
                if j < i {
                    assert(pairs@[j] == pairs_before[j]);
                    assert(pair_views(pairs_before)[j] == child_pairs(*node).take(i as int)[j]);
                }
            }
            assert(pair_views(pairs@) =~= child_pairs(*node).take(i + 1));
        }
        i = i + 1;
    }
    proof {
        assert(child_pairs(*node).take(m as int) =~= child_pairs(*node));
    }
    let sorted: Vec<(String, u64)> = sort_pairs(pairs);
    let ghost sorted_g = sort_desc(child_pairs(*node));
    let limit: usize = if sorted.len() < 5 {
        sorted.len()
    } else {
        5
    };
    let total: u64 = node.value;
    let mut k: usize = 0;
    while k < limit
        invariant
            pair_views(sorted@) == sorted_g,
            total == node.value,
            limit == top_count(sorted_g.len() as int),
            limit <= sorted@.len(),
            k <= limit,
            r@ == base2 + top_lines_upto(sorted_g, k as int, total),
        decreases limit - k,
    {
        r.append("  \u{2022} ");
        r.append(sorted[k].0.as_str());
        r.append(" (");
        let pct: u32 = clamped_percentage(sorted[k].1, total);
        let pct_text: String = u64_string(pct as u64);
        r.append(pct_text.as_str());
        r.append("%)\n");
        proof {
            assert(sorted_g[k as int] == (sorted@[k as int].0@, sorted@[k as int].1));
            assert(r@ =~= base2 + top_lines_upto(sorted_g, k + 1, total));
        }
        k = k + 1;
    }
    proof {
        assert(r@ =~= tooltip_model(*node));
    }
    r
}

impl SunburstChart {
    /// Projects one tree node for the external list view.
    pub fn tree_node_to_object(node: &TreeNode) -> (r: TreeRow)
        ensures
            row_models_node(r, *node),
        decreases *node,
    {
        let m: usize = node.children.len();
        let mut children: Vec<TreeRow> = Vec::new();
        let mut i: usize = 0;
        while i < m
            invariant
                m == node.children@.len(),
                i <= m,
                children@.len() == i,
                forall|j: int|
                    0 <= j < i ==> row_models_node(
                        #[trigger] children@[j],
                        node.children@[j],
                    ),
            decreases m - i,
        {
            proof {
                assert(decreases_to!(*node => node.children@[i as int]));
            }
            children.push(SunburstChart::tree_node_to_object(&node.children[i]));
            i = i + 1;
        }
        TreeRow {
            name: node.name.clone(),
            count: u64_string(node.value),
            value: node.value,
            children,
        }
    }

    /// The projected children of the display root, for the external list
    /// view: the view shows the zoomed subtree's children when zoomed.
    pub fn tree_rows(&self) -> (rows: Vec<TreeRow>)
        ensures
            match self.display_root() {
                Some(r) => rows@.len() == r.children@.len() && (forall|i: int|
                    0 <= i < r.children@.len() ==> row_models_node(
                        #[trigger] rows@[i],
                        r.children@[i],
                    )),
                None => rows@.len() == 0,
            },
    {
        let root: &TreeNode = match &self.data {
            Some(d) => {
                match node_at(d, &self.zoom_path) {
                    Some(r) => r,
                    None => {
                        return Vec::new();
                    },
                }
            },
            None => {
                return Vec::new();
            },
        };
        let m: usize = root.children.len();
        let mut rows: Vec<TreeRow> = Vec::new();
        let mut i: usize = 0;
        while i < m
            invariant
                m == root.children@.len(),
                i <= m,
                rows@.len() == i,
                forall|j: int|
                    0 <= j < i ==> row_models_node(#[trigger] rows@[j], root.children@[j]),
            decreases m - i,
        {
            rows.push(SunburstChart::tree_node_to_object(&root.children[i]));
            i = i + 1;
        }
        rows
    }

    /// The ranked algorithm statistics of the display root's subtree: when
    /// zoomed, only the zoomed subtree is counted.
    pub fn populate_stats(&self) -> (rows: Vec<StatsRow>)
        ensures
            match self.display_root() {
                Some(r) => crate::stats::row_views(rows@) == crate::stats::stats_rows_model(r),
                None => rows@.len() == 0,
            },
    {
        match &self.data {
            Some(d) => {
                match node_at(d, &self.zoom_path) {
                    Some(r) => crate::stats::stats_rows(r),
                    None => Vec::new(),
                }
            },
            None => Vec::new(),
        }
    }

    /// The three sampling-period display strings for the loaded events,
    /// relative to the boot offset in seconds.
    pub fn update_period_labels(&self, boot_secs: u64) -> (r: Option<(String, String, String)>)
        ensures
            match r {
                Some(t) => {
                    let lo = crate::data::spans_min_start(self.events@, 0);
                    let hi = crate::data::spans_max_end(self.events@, 0);
                    &&& self.events@.len() > 0
                    &&& lo <= hi
                    &&& (boot_secs as int) * 1000000000 + hi <= u64::MAX
                    &&& t.0@ == "Start: "@ + crate::period::rfc3339_of(
                        ((boot_secs as int) * 1000000000 + lo) as u64,
                    )
                    &&& t.1@ == "End: "@ + crate::period::rfc3339_of(
                        ((boot_secs as int) * 1000000000 + hi) as u64,
                    )
                    &&& t.2@ == "Duration: "@ + crate::period::duration_text_of((hi - lo) as u64)
                },
                None => self.events@.len() == 0 || crate::data::spans_min_start(self.events@, 0)
                    > crate::data::spans_max_end(self.events@, 0) || (boot_secs as int)
                    * 1000000000 + crate::data::spans_max_end(self.events@, 0) > u64::MAX,
            },
    {
        crate::period::period_label_texts(&self.events, boot_secs)
    }

    /// The tooltip for a segment of the current list, if its node resolves.
    pub fn tooltip(&self, idx: usize) -> (r: Option<String>)
        ensures
            match r {
                Some(text) => idx < self.segments@.len() && match self.data {
                    Some(d) => match node_at_spec(
                        d,
                        self.zoom_path@ + self.segments@[idx as int].path@,
                        0,
                    ) {
                        Some(node) => text@ == tooltip_model(node),
                        None => false,
                    },
                    None => false,
                },
                None => idx >= self.segments@.len() || match self.data {
                    Some(d) => node_at_spec(
                        d,
                        self.zoom_path@ + self.segments@[idx as int].path@,
                        0,
                    ) is None,
                    None => true,
                },
            },
    {
        if idx >= self.segments.len() {
            return None;
        }
        let mut target: Vec<usize> = copy_indices(&self.zoom_path);
        let m: usize = self.segments[idx].path.len();
        let mut j: usize = 0;
        while j < m
            invariant
                idx < self.segments@.len(),
                m == self.segments@[idx as int].path@.len(),
                j <= m,
                target@ == self.zoom_path@ + self.segments@[idx as int].path@.take(j as int),
            decreases m - j,
        {
            target.push(self.segments[idx].path[j]);
            proof {
                assert(target@ =~= self.zoom_path@ + self.segments@[idx as int].path@.take(j + 1));
            }
            j = j + 1;
        }
        proof {
            assert(self.segments@[idx as int].path@.take(m as int) =~= self.segments@[
                idx as int].path@);
        }
        match &self.data {
            Some(d) => {
                match node_at(d, &target) {
                    Some(node) => Some(format_tooltip(node)),
                    None => None,
                }
            },
            None => None,
        }
    }

    /// The label paths selected externally, as character sequences.
    pub open spec fn selected_view(self) -> Seq<Seq<char>> {
        self.selected_path@.map_values(|s: String| s@)
    }

    /// The drawing instruction for segment `i` of the current list: its
    /// wedge, the deterministic colour of its label and depth, whether it is
    /// hovered, and whether its label path equals the external selection.
    pub open spec fn instruction_model(self, i: int) -> DrawInstruction {
        let g = seg_views(self.segments@)[i];
        let name = if g.labels.len() > 0 {
            g.labels.last()
        } else {
            Seq::<char>::empty()
        };
        DrawInstruction {
            start_angle: g.start_angle as u64,
            end_angle: g.end_angle as u64,
            inner_radius: g.inner_radius as u64,
            outer_radius: g.outer_radius as u64,
            color: color_model(name, g.depth as usize),
            hovered: self.hover_segment == Some(i as usize),
            selected: self.selected_view().len() > 0 && g.labels == self.selected_view(),
        }
    }

    /// One drawing instruction per segment of the current list, in paint
    /// order.
    pub fn draw_instructions(&self) -> (out: Vec<DrawInstruction>)
        ensures
            out@.len() == self.segments@.len(),
            forall|i: int|
                0 <= i < out@.len() ==> out@[i] == #[trigger] self.instruction_model(i),
    {
        let n: usize = self.segments.len();
        let mut out: Vec<DrawInstruction> = Vec::new();
        let mut i: usize = 0;
        while i < n
            invariant
                n == self.segments@.len(),
                i <= n,
                out@.len() == i,
                forall|j: int| 0 <= j < i ==> out@[j] == #[trigger] self.instruction_model(j),
            decreases n - i,
        {
            let seg: &Segment = &self.segments[i];
            let llen: usize = seg.labels.len();
            let color: Color = if llen > 0 {
                SunburstChart::get_color(seg.labels[llen - 1].as_str(), seg.depth)
            } else {
                proof {
                    reveal_strlit("");
                    assert(""@ =~= Seq::<char>::empty());
                }
                SunburstChart::get_color("", seg.depth)
            };
            proof {
                if llen > 0 {
                    assert(seg@.labels.last() == seg.labels@[llen - 1]@);
                }
            }
            let hovered: bool = match &self.hover_segment {
                Some(h) => *h == i,
                None => false,
            };
            let selected: bool = self.selected_path.len() > 0 && string_vecs_equal(
                &seg.labels,
                &self.selected_path,
            );
            let instr = DrawInstruction {
                start_angle: seg.start_angle,
                end_angle: seg.end_angle,
                inner_radius: seg.inner_radius,
                outer_radius: seg.outer_radius,
                color,
                hovered,
                selected,
            };
            proof {
                assert(instr == self.instruction_model(i as int));
            }
            out.push(instr);
            i = i + 1;
        }
        out
    }
}

/// Character-level equality of two label lists.
fn string_vecs_equal(a: &Vec<String>, b: &Vec<String>) -> (r: bool)
    ensures
        r == (a@.map_values(|s: String| s@) == b@.map_values(|s: String| s@)),
{
    let n: usize = a.len();
    if n != b.len() {
        proof {
            assert(a@.map_values(|s: String| s@).len() != b@.map_values(|s: String| s@).len());
        }
        return false;
    }
    let mut i: usize = 0;
    while i < n
        invariant
            n == a@.len(),
            n == b@.len(),
            i <= n,
            forall|j: int| 0 <= j < i ==> a@[j]@ == b@[j]@,
        decreases n - i,
    {
        if !str_eq(a[i].as_str(), b[i].as_str()) {
            proof {
                assert(a@.map_values(|s: String| s@)[i as int] != b@.map_values(|s: String| s@)[
                    i as int]);
            }
            return false;
        }
        i = i + 1;
    }
    proof {
        assert(a@.map_values(|s: String| s@) =~= b@.map_values(|s: String| s@));
    }
    true
}

} // verus!
