//! Roads: the named segments of the road graph, the nearest road to a point
//! and a crossing road near it.
//!
//! Distances from the point to each segment are computed by the caller (in
//! floating point) and given here as `f64` bit patterns, one per segment, in
//! segment order; they are compared as `f64` values are (see `number`).
use vstd::prelude::*;
use crate::number;
use crate::text;
use crate::zones::Point;

verus! {

/// A road node as the data gives it.
pub struct Node {
    pub id: u16,
    pub street_name: String,
    pub position: Point,
    /// The nodes that this node links to, where the data lists any.
    pub connected_nodes: Option<Vec<ConnectedNode>>,
}

/// A node linked from another (its own links play no part).
pub struct ConnectedNode {
    pub id: u16,
    pub street_name: String,
    pub position: Point,
}

/// The nodes of one area of the map.
pub struct NodeCell {
    pub area_id: u16,
    pub nodes: Vec<Node>,
}

/// A link between two nodes that carries a street name.
pub struct RoadSegment {
    pub street_name: String,
    pub start_area_id: u16,
    pub start_node_id: u16,
    pub end_node_id: u16,
    pub start: Point,
    pub end: Point,
}

/// The model of a road segment.
pub struct SegmentModel {
    pub street_name: Seq<char>,
    pub start_area_id: u16,
    pub start_node_id: u16,
    pub end_node_id: u16,
    pub start: Point,
    pub end: Point,
}

impl View for RoadSegment {
    type V = SegmentModel;

    open spec fn view(&self) -> SegmentModel {
        SegmentModel {
            street_name: self.street_name@,
            start_area_id: self.start_area_id,
            start_node_id: self.start_node_id,
            end_node_id: self.end_node_id,
            start: self.start,
            end: self.end,
        }
    }
}

/// A road and the distance from the point to it (an `f64` bit pattern).
#[derive(Clone, Copy, Debug, PartialEq, Eq, Structural)]
pub struct RoadMatch {
    /// The index of the segment.
    pub segment: usize,
    pub distance: u64,
}

/// The data held no named road segment.
#[derive(Clone, Copy, Debug, PartialEq, Eq, Structural)]
pub struct NoNamedSegments;

/// The text that reports that the data held no named road segment.
pub const NO_NAMED_SEGMENTS: &'static str = "embedded road node data did not contain any named road segments";

// ---------------------------------------------------------------------------
// Street names and segments
// ---------------------------------------------------------------------------

/// A real street name: not blank and not `0` (after trimming).
pub open spec fn real_street_name(name: Seq<char>) -> bool {
    let t = text::trim(name);
    t.len() != 0 && t != "0"@
}

/// The name a link carries: the first real name of its two ends, or none.
pub open spec fn picked_name(first: Seq<char>, second: Seq<char>) -> Seq<char> {
    if real_street_name(first) {
        first
    } else if real_street_name(second) {
        second
    } else {
        seq![]
    }
}

/// Whether `name` is a real street name.
pub fn is_real_street_name(name: &str) -> (r: bool)
    ensures
        r == real_street_name(name@),
{
    let v = text::chars_of(name);
    let t = text::trimmed(v.as_slice());
    t.len() != 0 && !text::chars_are(t.as_slice(), "0")
}

/// The name that a link between nodes named `first` and `second` carries.
pub fn pick_street_name<'a>(first: &'a str, second: &'a str) -> (r: &'a str)
    ensures
        r@ == picked_name(first@, second@),
{
    if is_real_street_name(first) {
        first
    } else if is_real_street_name(second) {
        second
    } else {
        let empty = "";
        proof {
            reveal_strlit("");
        }
        assert(empty@ =~= seq![]);
        empty
    }
}

/// The segment for the `k`th link of `node` (in area `area`), if its name is
/// not empty.
pub open spec fn link_segment(area: u16, node: Node, k: int) -> Option<SegmentModel> {
    let c = node.connected_nodes.unwrap()@[k];
    let name = picked_name(node.street_name@, c.street_name@);
    if name.len() == 0 {
        None
    } else {
        Some(
            SegmentModel {
                street_name: name,
                start_area_id: area,
                start_node_id: node.id,
                end_node_id: c.id,
                start: node.position,
                end: c.position,
            },
        )
    }
}

/// The segments of the first `k` links of `node`.
pub open spec fn node_segments(area: u16, node: Node, k: int) -> Seq<SegmentModel>
    decreases k,
{
    if k <= 0 || node.connected_nodes is None {
        seq![]
    } else {
        let prev = node_segments(area, node, k - 1);
        match link_segment(area, node, k - 1) {
            Some(s) => prev.push(s),
            None => prev,
        }
    }
}

/// The number of links of `node`.
pub open spec fn link_count(node: Node) -> int {
    match node.connected_nodes {
        Some(v) => v@.len() as int,
        None => 0,
    }
}

/// The segments of the first `j` nodes of an area.
pub open spec fn cell_segments(area: u16, nodes: Seq<Node>, j: int) -> Seq<SegmentModel>
    decreases j,
{
    if j <= 0 {
        seq![]
    } else {
        cell_segments(area, nodes, j - 1) + node_segments(area, nodes[j - 1], link_count(
            nodes[j - 1],
        ))
    }
}

/// The segments of the first `i` areas: every link of every node, in order,
/// that carries a name.
pub open spec fn segments_of(cells: Seq<NodeCell>, i: int) -> Seq<SegmentModel>
    decreases i,
{
    if i <= 0 {
        seq![]
    } else {
        segments_of(cells, i - 1) + cell_segments(
            cells[i - 1].area_id,
            cells[i - 1].nodes@,
            cells[i - 1].nodes@.len() as int,
        )
    }
}

/// The views of a list of segments.
pub open spec fn segments_view(v: Seq<RoadSegment>) -> Seq<SegmentModel> {
    v.map_values(|s: RoadSegment| s@)
}

/// Every segment carries a real street name.
pub proof fn lemma_segment_names(cells: Seq<NodeCell>, i: int)
    ensures
        forall|j: int|
            0 <= j < segments_of(cells, i).len() ==> real_street_name(
                #[trigger] segments_of(cells, i)[j].street_name,
            ),
    decreases i,
{
    if i > 0 {
        lemma_segment_names(cells, i - 1);
        let area = cells[i - 1].area_id;
        let nodes = cells[i - 1].nodes@;
        lemma_cell_names(area, nodes, nodes.len() as int);
        let a = segments_of(cells, i - 1);
        let b = cell_segments(area, nodes, nodes.len() as int);
        assert forall|j: int| 0 <= j < (a + b).len() implies real_street_name(
            #[trigger] (a + b)[j].street_name,
        ) by {
            if j >= a.len() {
                assert((a + b)[j] == b[j - a.len()]);
            }
        }
    }
}

proof fn lemma_cell_names(area: u16, nodes: Seq<Node>, j: int)
    ensures
        forall|q: int|
            0 <= q < cell_segments(area, nodes, j).len() ==> real_street_name(
                #[trigger] cell_segments(area, nodes, j)[q].street_name,
            ),
    decreases j,
{
    if j > 0 {
        lemma_cell_names(area, nodes, j - 1);
        lemma_node_names(area, nodes[j - 1], link_count(nodes[j - 1]));
        let a = cell_segments(area, nodes, j - 1);
        let b = node_segments(area, nodes[j - 1], link_count(nodes[j - 1]));
        assert forall|q: int| 0 <= q < (a + b).len() implies real_street_name(
            #[trigger] (a + b)[q].street_name,
        ) by {
            if q >= a.len() {
                assert((a + b)[q] == b[q - a.len()]);
            }
        }
    }
}

proof fn lemma_node_names(area: u16, node: Node, k: int)
    ensures
        forall|q: int|
            0 <= q < node_segments(area, node, k).len() ==> real_street_name(
                #[trigger] node_segments(area, node, k)[q].street_name,
            ),
    decreases k,
{
    if k > 0 && node.connected_nodes is Some {
        lemma_node_names(area, node, k - 1);
        let prev = node_segments(area, node, k - 1);
        let cur = node_segments(area, node, k);
        if let Some(seg) = link_segment(area, node, k - 1) {
            let c = node.connected_nodes.unwrap()@[k - 1];
            let first = node.street_name@;
            let second = c.street_name@;
            assert(seg.street_name == picked_name(first, second));
            assert(real_street_name(seg.street_name));
            assert(cur == prev.push(seg));
            assert forall|q: int| 0 <= q < cur.len() implies real_street_name(
                #[trigger] cur[q].street_name,
            ) by {
                if q < prev.len() {
                    assert(cur[q] == prev[q]);
                }
            }
        }
    }
}

/// Builds the named road segments: one for each link of each node whose
/// ends give it a street name; an error when there is none.
pub fn build_road_segments(cells: &Vec<NodeCell>) -> (r: Result<Vec<RoadSegment>, NoNamedSegments>)
    ensures
        match r {
            Ok(v) => segments_view(v@) == segments_of(cells@, cells@.len() as int) && v@.len() > 0,
            Err(_) => segments_of(cells@, cells@.len() as int).len() == 0,
        },
        // Every segment carries a real street name.
        r matches Ok(v) ==> forall|j: int|
            0 <= j < v@.len() ==> real_street_name(#[trigger] v@[j].street_name@),
{
    let mut segments: Vec<RoadSegment> = Vec::new();
    let mut i: usize = 0;
    while i < cells.len()
        invariant
            i <= cells@.len(),
            segments_view(segments@) == segments_of(cells@, i as int),
        decreases cells@.len() - i,
    {
        let cell = &cells[i];
        let ghost base_i = segments_view(segments@);
        let mut j: usize = 0;
        while j < cell.nodes.len()
            invariant
                i < cells@.len(),
                *cell == cells@[i as int],
                j <= cell.nodes@.len(),
                base_i == segments_of(cells@, i as int),
                segments_view(segments@) == base_i + cell_segments(
                    cell.area_id,
                    cell.nodes@,
                    j as int,
                ),
            decreases cell.nodes@.len() - j,
        {
            let node = &cell.nodes[j];
            let ghost base_j = segments_view(segments@);
            match &node.connected_nodes {
                None => {
                    assert(node_segments(cell.area_id, *node, link_count(*node)) =~= seq![]);
                },
                Some(connected_nodes) => {
                    let mut k: usize = 0;
                    while k < connected_nodes.len()
                        invariant
                            *node == cell.nodes@[j as int],
                            node.connected_nodes == Some(*connected_nodes),
                            k <= connected_nodes@.len(),
                            segments_view(segments@) == base_j + node_segments(
                                cell.area_id,
                                *node,
                                k as int,
                            ),
                        decreases connected_nodes@.len() - k,
                    {
                        let connected = &connected_nodes[k];
                        let street_name = pick_street_name(
                            node.street_name.as_str(),
                            connected.street_name.as_str(),
                        );
                        let ghost before = segments_view(segments@);
                        if !street_name.is_empty() {
                            let seg = RoadSegment {
                                street_name: street_name.to_string(),
                                start_area_id: cell.area_id,
                                start_node_id: node.id,
                                end_node_id: connected.id,
                                start: node.position,
                                end: connected.position,
                            };
                            proof {
                                vstd::string::to_string_from_display_ensures_for_str(
                                    street_name,
                                    seg.street_name,
                                );
                            }
                            segments.push(seg);
                            assert(segments_view(segments@) =~= before.push(seg@));
                        }
                        k += 1;
                    }
                },
            }
            assert(segments_view(segments@) =~= base_i + cell_segments(
                cell.area_id,
                cell.nodes@,
                j + 1,
            ));
            j += 1;
        }
        i += 1;
    }
    if segments.len() == 0 {
        return Err(NoNamedSegments);
    }
    proof {
        lemma_segment_names(cells@, cells@.len() as int);
        assert forall|j: int| 0 <= j < segments@.len() implies real_street_name(
            #[trigger] segments@[j].street_name@,
        ) by {
            assert(segments_view(segments@)[j] == segments@[j]@);
            assert(segments_of(cells@, cells@.len() as int)[j] == segments@[j]@);
            assert(real_street_name(segments_of(cells@, cells@.len() as int)[j].street_name));
        }
    }
    Ok(segments)
}

// ---------------------------------------------------------------------------
// Nearest road and crossing road
// ---------------------------------------------------------------------------

/// The pick of `Iterator::min_by` with `partial_cmp` (incomparable taken as
/// equal) over the indices `k < n` for which `candidate(k)` holds: the first
/// candidate, replaced by each later candidate that is strictly smaller.
pub open spec fn min_pick(d: Seq<u64>, candidate: spec_fn(int) -> bool, n: int) -> Option<int>
    decreases n,
{
    if n <= 0 {
        None
    } else {
        let prev = min_pick(d, candidate, n - 1);
        if !candidate(n - 1) {
            prev
        } else {
            match prev {
                None => Some(n - 1),
                Some(b) => if number::gt(d[b], d[n - 1]) {
                    Some(n - 1)
                } else {
                    Some(b)
                },
            }
        }
    }
}

/// `min_pick` picks a candidate; it picks none exactly when there is no
/// candidate; and when no candidate distance is NaN, it picks the first of
/// the candidates at the least distance.
pub proof fn lemma_min_pick(d: Seq<u64>, candidate: spec_fn(int) -> bool, n: int)
    requires
        0 <= n <= d.len(),
    ensures
        min_pick(d, candidate, n) matches Some(b) ==> 0 <= b < n && candidate(b),
        min_pick(d, candidate, n) is None <==> (forall|k: int| 0 <= k < n ==> !#[trigger] candidate(k)),
        (forall|k: int| 0 <= k < n && #[trigger] candidate(k) ==> !number::is_nan(d[k])) ==> (min_pick(
            d,
            candidate,
            n,
        ) matches Some(b) ==> (forall|k: int|
            0 <= k < n && #[trigger] candidate(k) ==> number::le(d[b], d[k]) && (k < b ==> number::lt(
                d[b],
                d[k],
            )))),
    decreases n,
{
    if n > 0 {
        lemma_min_pick(d, candidate, n - 1);
    }
}

/// The nearest segment: among the segments within `street_radius` (all
/// segments when there is none), the first at the least distance.
pub open spec fn nearest(distances: Seq<u64>, street_radius: Option<u64>) -> Option<int> {
    min_pick(
        distances,
        |k: int|
            match street_radius {
                Some(r) => !number::gt(distances[k], r),
                None => true,
            },
        distances.len() as int,
    )
}

/// The nearest road: the first segment at the least distance among those
/// within `street_radius`, or none when no segment is within it.
/// `distances[k]` is the distance to segment `k`.
pub fn find_nearest_road(distances: &Vec<u64>, street_radius: Option<u64>) -> (r: Option<RoadMatch>)
    ensures
        match nearest(distances@, street_radius) {
            Some(b) => r == Some(RoadMatch { segment: b as usize, distance: distances@[b] }),
            None => r is None,
        },
        // The road lies within the radius, and there is none only when every
        // segment lies beyond it (so, without a radius, only when there is no
        // segment).
        r matches Some(m) ==> (m.segment < distances@.len() && (street_radius matches Some(rad)
            ==> !number::gt(m.distance, rad))),
        r is None <==> (forall|k: int|
            0 <= k < distances@.len() ==> (street_radius matches Some(rad) && number::gt(
                #[trigger] distances@[k],
                rad,
            ))),
        // Where no distance is NaN, the road is the first of the nearest.
        (forall|k: int| 0 <= k < distances@.len() ==> !number::is_nan(#[trigger] distances@[k]))
            ==> (r matches Some(m) ==> (forall|k: int|
            0 <= k < distances@.len() && (street_radius matches Some(rad) ==> !number::gt(
                #[trigger] distances@[k],
                rad,
            )) ==> number::le(m.distance, distances@[k]) && (k < m.segment ==> number::lt(
                m.distance,
                distances@[k],
            )))),
{
    let ghost cand = |k: int|
        match street_radius {
            Some(rad) => !number::gt(distances@[k], rad),
            None => true,
        };
    let mut best: Option<RoadMatch> = None;
    let mut k: usize = 0;
    while k < distances.len()
        invariant
            k <= distances@.len(),
            cand == (|k: int|
                match street_radius {
                    Some(rad) => !number::gt(distances@[k], rad),
                    None => true,
                }),
            match min_pick(distances@, cand, k as int) {
                Some(b) => best == Some(RoadMatch { segment: b as usize, distance: distances@[b] })
                    && 0 <= b < k,
                None => best is None,
            },
        decreases distances@.len() - k,
    {
        proof {
            lemma_min_pick(distances@, cand, k as int);
        }
        let d = distances[k];
        let keep = match street_radius {
            Some(radius) => !number::less(radius, d),
            None => true,
        };
        if keep {
            match best {
                None => {
                    best = Some(RoadMatch { segment: k, distance: d });
                },
                Some(b) => {
                    if number::less(d, b.distance) {
                        best = Some(RoadMatch { segment: k, distance: d });
                    }
                },
            }
        }
        k += 1;
    }
    proof {
        let n = distances@.len() as int;
        lemma_min_pick(distances@, cand, n);
        if (forall|k: int|
            0 <= k < n ==> (street_radius matches Some(rad) && number::gt(
                #[trigger] distances@[k],
                rad,
            ))) {
            assert forall|k: int| 0 <= k < n implies !#[trigger] cand(k) by {
                assert(street_radius matches Some(rad) && number::gt(distances@[k], rad));
            }
        }
        if best is None {
            assert forall|k: int| 0 <= k < n implies (street_radius matches Some(rad)
                && number::gt(#[trigger] distances@[k], rad)) by {
                assert(!cand(k));
            }
        }
        if let Some(m) = best {
            assert(cand(m.segment as int));
            if (forall|k: int| 0 <= k < n ==> !number::is_nan(#[trigger] distances@[k])) {
                assert forall|k: int|
                    0 <= k < n && (street_radius matches Some(rad) ==> !number::gt(
                        #[trigger] distances@[k],
                        rad,
                    )) implies number::le(m.distance, distances@[k]) && (k < m.segment
                    ==> number::lt(m.distance, distances@[k])) by {
                    assert(cand(k));
                    assert(!number::is_nan(distances@[k]));
                }
            }
        }
    }
    best
}

/// How far a crossing road may be when no street radius is given: 35 m (the
/// bit pattern of the `f64` value 35.0).
pub const CROSSING_SEARCH_RADIUS: u64 = 0x4041_8000_0000_0000;

/// How far a crossing road may be: the street radius (or 35 m), but at
/// least the distance to the road itself.
pub open spec fn crossing_reach(primary_distance: u64, street_radius: Option<u64>) -> u64 {
    number::max_of(
        match street_radius {
            Some(r) => r,
            None => CROSSING_SEARCH_RADIUS,
        },
        primary_distance,
    )
}

/// The crossing segment: among the segments whose street name differs from
/// the road's and that are within reach, the first at the least distance.
pub open spec fn crossing(
    segments: Seq<SegmentModel>,
    distances: Seq<u64>,
    primary: RoadMatch,
    street_radius: Option<u64>,
) -> Option<int> {
    let reach = crossing_reach(primary.distance, street_radius);
    let name = segments[primary.segment as int].street_name;
    min_pick(
        distances,
        |k: int| segments[k].street_name != name && !number::gt(distances[k], reach),
        distances.len() as int,
    )
}

/// A road that crosses the nearest one: the first segment at the least
/// distance among those with another street name within reach (the street
/// radius or 35 m, but at least the distance to the nearest road); none
/// when there is no nearest road. `distances[k]` is the distance to segment
/// `k`.
pub fn find_intersection_road(
    segments: &Vec<RoadSegment>,
    distances: &Vec<u64>,
    road_match: Option<RoadMatch>,
    street_radius: Option<u64>,
) -> (r: Option<RoadMatch>)
    requires
        segments@.len() == distances@.len(),
        road_match matches Some(p) ==> p.segment < segments@.len(),
    ensures
        match road_match {
            None => r is None,
            Some(p) => match crossing(segments_view(segments@), distances@, p, street_radius) {
                Some(b) => r == Some(RoadMatch { segment: b as usize, distance: distances@[b] }),
                None => r is None,
            },
        },
        // The crossing road has another street name than the road.
        r matches Some(m) ==> (m.segment < segments@.len() && (road_match matches Some(p)
            && segments@[m.segment as int].street_name@ != segments@[p.segment as int].street_name@)),
        // A road within the street radius has its crossing road within it too.
        (r matches Some(m) && road_match matches Some(p) && street_radius matches Some(rad)
            && !number::is_nan(rad) && !number::gt(p.distance, rad)) ==> !number::gt(
            r.unwrap().distance,
            street_radius.unwrap(),
        ),
{
    let primary = match road_match {
        Some(p) => p,
        None => {
            return None;
        },
    };
    let radius = match street_radius {
        Some(r) => r,
        None => CROSSING_SEARCH_RADIUS,
    };
    let max_distance = number::max_bits(radius, primary.distance);
    let primary_name = segments[primary.segment].street_name.as_str();
    let ghost sv = segments_view(segments@);
    let ghost name = sv[primary.segment as int].street_name;
    let ghost cand = |k: int| sv[k].street_name != name && !number::gt(distances@[k], max_distance);
    assert(primary_name@ == name);
    let mut best: Option<RoadMatch> = None;
    let mut k: usize = 0;
    while k < distances.len()
        invariant
            k <= distances@.len(),
            segments@.len() == distances@.len(),
            sv == segments_view(segments@),
            primary_name@ == name,
            cand == (|k: int| sv[k].street_name != name && !number::gt(distances@[k], max_distance)),
            match min_pick(distances@, cand, k as int) {
                Some(b) => best == Some(RoadMatch { segment: b as usize, distance: distances@[b] })
                    && 0 <= b < k,
                None => best is None,
            },
        decreases distances@.len() - k,
    {
        proof {
            lemma_min_pick(distances@, cand, k as int);
        }
        let d = distances[k];
        let other = !text::text_is(segments[k].street_name.as_str(), primary_name);
        assert(sv[k as int].street_name == segments@[k as int].street_name@);
        let keep = other && !number::less(max_distance, d);
        if keep {
            match best {
                None => {
                    best = Some(RoadMatch { segment: k, distance: d });
                },
                Some(b) => {
                    if number::less(d, b.distance) {
                        best = Some(RoadMatch { segment: k, distance: d });
                    }
                },
            }
        }
        k += 1;
    }
    proof {
        lemma_min_pick(distances@, cand, distances@.len() as int);
        if let Some(m) = best {
            assert(cand(m.segment as int));
            assert(sv[m.segment as int].street_name == segments@[m.segment as int].street_name@);
            assert(name == segments@[primary.segment as int].street_name@);
        }
    }
    best
}

// ---------------------------------------------------------------------------
// Laws
// ---------------------------------------------------------------------------

/// Segment `s` is the one that the link from `node` (in area `area`) to
/// `link` gives: it starts at the node and ends at the linked node, and
/// carries the node's street name where that is a real one, else the linked
/// node's.
pub open spec fn built_from_link(s: SegmentModel, area: u16, node: Node, link: ConnectedNode) -> bool {
    &&& s.start_area_id == area
    &&& s.start_node_id == node.id
    &&& s.end_node_id == link.id
    &&& s.start == node.position
    &&& s.end == link.position
    &&& s.street_name == if real_street_name(node.street_name@) {
        node.street_name@
    } else {
        link.street_name@
    }
}

proof fn lemma_real_name_not_empty(name: Seq<char>)
    ensures
        real_street_name(name) ==> name.len() > 0,
{
    text::lemma_trim(name);
}

proof fn lemma_node_links(area: u16, node: Node, k: int)
    requires
        node.connected_nodes is Some,
        0 <= k <= link_count(node),
    ensures
        forall|q: int|
            0 <= q < node_segments(area, node, k).len() ==> exists|c: int|
                0 <= c < k && built_from_link(
                    #[trigger] node_segments(area, node, k)[q],
                    area,
                    node,
                    node.connected_nodes.unwrap()@[c],
                ),
        forall|c: int|
            0 <= c < k && (real_street_name(node.street_name@) || real_street_name(
                (#[trigger] node.connected_nodes.unwrap()@[c]).street_name@,
            )) ==> exists|q: int|
                0 <= q < node_segments(area, node, k).len() && built_from_link(
                    node_segments(area, node, k)[q],
                    area,
                    node,
                    node.connected_nodes.unwrap()@[c],
                ),
    decreases k,
{
    if k > 0 {
        lemma_node_links(area, node, k - 1);
        let links = node.connected_nodes.unwrap()@;
        let prev = node_segments(area, node, k - 1);
        let cur = node_segments(area, node, k);
        let l = links[k - 1];
        lemma_real_name_not_empty(node.street_name@);
        lemma_real_name_not_empty(l.street_name@);
        match link_segment(area, node, k - 1) {
            Some(seg) => {
                assert(cur == prev.push(seg));
                assert(built_from_link(seg, area, node, l));
                assert forall|q: int| 0 <= q < cur.len() implies exists|c: int|
                    0 <= c < k && built_from_link(#[trigger] cur[q], area, node, links[c]) by {
                    if q < prev.len() {
                        assert(cur[q] == prev[q]);
                    } else {
                        assert(cur[q] == seg);
                        assert(built_from_link(cur[q], area, node, links[k - 1]));
                    }
                }
                assert forall|c: int|
                    0 <= c < k && (real_street_name(node.street_name@) || real_street_name(
                        (#[trigger] links[c]).street_name@,
                    )) implies exists|q: int|
                    0 <= q < cur.len() && built_from_link(cur[q], area, node, links[c]) by {
                    if c < k - 1 {
                        let q = choose|q: int|
                            0 <= q < prev.len() && built_from_link(prev[q], area, node, links[c]);
                        assert(cur[q] == prev[q]);
                    } else {
                        assert(cur[prev.len() as int] == seg);
                    }
                }
            },
            None => {
                assert(cur == prev);
            },
        }
    }
}

/// Segment `s` comes from a link of one of the first `j` nodes of an area.
spec fn from_node_link(s: SegmentModel, area: u16, nodes: Seq<Node>, j: int) -> bool {
    exists|n: int, c: int|
        0 <= n < j && nodes[n].connected_nodes is Some && 0 <= c < link_count(nodes[n])
            && #[trigger] built_from_link(s, area, nodes[n], nodes[n].connected_nodes.unwrap()@[c])
}

/// Some segment of `segs` comes from the link from `node` to `link`.
spec fn has_link_segment(segs: Seq<SegmentModel>, area: u16, node: Node, link: ConnectedNode) -> bool {
    exists|q: int| 0 <= q < segs.len() && #[trigger] built_from_link(segs[q], area, node, link)
}

proof fn lemma_cell_link_sources(area: u16, nodes: Seq<Node>, j: int)
    requires
        0 <= j <= nodes.len(),
    ensures
        forall|q: int|
            0 <= q < cell_segments(area, nodes, j).len() ==> from_node_link(
                #[trigger] cell_segments(area, nodes, j)[q],
                area,
                nodes,
                j,
            ),
    decreases j,
{
    if j > 0 {
        lemma_cell_link_sources(area, nodes, j - 1);
        let node = nodes[j - 1];
        let a = cell_segments(area, nodes, j - 1);
        let b = node_segments(area, node, link_count(node));
        let cur = cell_segments(area, nodes, j);
        assert(cur == a + b);
        if node.connected_nodes is Some {
            lemma_node_links(area, node, link_count(node));
        } else {
            assert(b.len() == 0);
        }
        assert forall|q: int| 0 <= q < cur.len() implies from_node_link(
            #[trigger] cur[q],
            area,
            nodes,
            j,
        ) by {
            if q < a.len() {
                assert(cur[q] == a[q]);
                assert(from_node_link(a[q], area, nodes, j - 1));
                let (n, c) = choose|n: int, c: int|
                    0 <= n < j - 1 && nodes[n].connected_nodes is Some && 0 <= c < link_count(
                        nodes[n],
                    ) && #[trigger] built_from_link(
                        a[q],
                        area,
                        nodes[n],
                        nodes[n].connected_nodes.unwrap()@[c],
                    );
                assert(built_from_link(cur[q], area, nodes[n], nodes[n].connected_nodes.unwrap()@[c]));
            } else {
                assert(cur[q] == b[q - a.len()]);
                let c = choose|c: int|
                    0 <= c < link_count(node) && built_from_link(
                        #[trigger] b[q - a.len()],
                        area,
                        node,
                        node.connected_nodes.unwrap()@[c],
                    );
                assert(built_from_link(
                    cur[q],
                    area,
                    nodes[j - 1],
                    nodes[j - 1].connected_nodes.unwrap()@[c],
                ));
            }
        }
    }
}

proof fn lemma_cell_link_segments(area: u16, nodes: Seq<Node>, j: int)
    requires
        0 <= j <= nodes.len(),
    ensures
        forall|n: int, c: int|
            0 <= n < j && nodes[n].connected_nodes is Some && 0 <= c < link_count(nodes[n]) && (
            real_street_name(nodes[n].street_name@) || real_street_name(
                (#[trigger] nodes[n].connected_nodes.unwrap()@[c]).street_name@,
            )) ==> has_link_segment(
                cell_segments(area, nodes, j),
                area,
                nodes[n],
                nodes[n].connected_nodes.unwrap()@[c],
            ),
    decreases j,
{
    if j > 0 {
        lemma_cell_link_segments(area, nodes, j - 1);
        let node = nodes[j - 1];
        let a = cell_segments(area, nodes, j - 1);
        let b = node_segments(area, node, link_count(node));
        let cur = cell_segments(area, nodes, j);
        assert(cur == a + b);
        if node.connected_nodes is Some {
            lemma_node_links(area, node, link_count(node));
        } else {
            assert(b.len() == 0);
        }
        assert forall|n: int, c: int|
            0 <= n < j && nodes[n].connected_nodes is Some && 0 <= c < link_count(nodes[n]) && (
            real_street_name(nodes[n].street_name@) || real_street_name(
                (#[trigger] nodes[n].connected_nodes.unwrap()@[c]).street_name@,
            )) implies has_link_segment(cur, area, nodes[n], nodes[n].connected_nodes.unwrap()@[c]) by {
            let link = nodes[n].connected_nodes.unwrap()@[c];
            if n < j - 1 {
                assert(has_link_segment(a, area, nodes[n], link));
                let q = choose|q: int| 0 <= q < a.len() && #[trigger] built_from_link(a[q], area, nodes[n], link);
                assert(cur[q] == a[q]);
                assert(built_from_link(cur[q], area, nodes[n], link));
            } else {
                let links = node.connected_nodes.unwrap()@;
                assert(links[c] == link);
                let q = choose|q: int|
                    0 <= q < b.len() && built_from_link(#[trigger] b[q], area, node, links[c]);
                assert(cur[a.len() + q] == b[q]);
                assert(built_from_link(cur[a.len() + q], area, nodes[n], link));
            }
        }
    }
}

/// Each segment that `build_road_segments` gives comes from a link of a node
/// of the data: it starts at that node's position and ends at the linked
/// node's, with their ids and the node's area.
pub proof fn law_segment_comes_from_a_link(cells: Seq<NodeCell>, i: int, j: int)
    requires
        0 <= i <= cells.len(),
        0 <= j < segments_of(cells, i).len(),
    ensures
        exists|a: int, n: int, c: int|
            0 <= a < i && 0 <= n < cells[a].nodes@.len() && cells[a].nodes@[n].connected_nodes is Some
                && 0 <= c < link_count(cells[a].nodes@[n]) && #[trigger] built_from_link(
                segments_of(cells, i)[j],
                cells[a].area_id,
                cells[a].nodes@[n],
                cells[a].nodes@[n].connected_nodes.unwrap()@[c],
            ),
    decreases i,
{
    let prev = segments_of(cells, i - 1);
    let nodes = cells[i - 1].nodes@;
    let area = cells[i - 1].area_id;
    let b = cell_segments(area, nodes, nodes.len() as int);
    assert(segments_of(cells, i) == prev + b);
    if j < prev.len() {
        law_segment_comes_from_a_link(cells, i - 1, j);
        let (a, n, c) = choose|a: int, n: int, c: int|
            0 <= a < i - 1 && 0 <= n < cells[a].nodes@.len() && cells[a].nodes@[n].connected_nodes is Some
                && 0 <= c < link_count(cells[a].nodes@[n]) && #[trigger] built_from_link(
                prev[j],
                cells[a].area_id,
                cells[a].nodes@[n],
                cells[a].nodes@[n].connected_nodes.unwrap()@[c],
            );
        assert(segments_of(cells, i)[j] == prev[j]);
        assert(built_from_link(
            segments_of(cells, i)[j],
            cells[a].area_id,
            cells[a].nodes@[n],
            cells[a].nodes@[n].connected_nodes.unwrap()@[c],
        ));
    } else {
        lemma_cell_link_sources(area, nodes, nodes.len() as int);
        let q = j - prev.len();
        assert(segments_of(cells, i)[j] == b[q]);
        assert(from_node_link(b[q], area, nodes, nodes.len() as int));
        let (n, c) = choose|n: int, c: int|
            0 <= n < nodes.len() && nodes[n].connected_nodes is Some && 0 <= c < link_count(nodes[n])
                && built_from_link(b[q], area, nodes[n], nodes[n].connected_nodes.unwrap()@[c]);
        assert(built_from_link(
            segments_of(cells, i)[j],
            cells[i - 1].area_id,
            cells[i - 1].nodes@[n],
            cells[i - 1].nodes@[n].connected_nodes.unwrap()@[c],
        ));
    }
}

/// Each link of a node of the data whose ends give it a real street name
/// yields a segment from that node to the linked node.
pub proof fn law_named_link_gives_segment(cells: Seq<NodeCell>, i: int, a: int, n: int, c: int)
    requires
        0 <= a < i <= cells.len(),
        0 <= n < cells[a].nodes@.len(),
        cells[a].nodes@[n].connected_nodes is Some,
        0 <= c < link_count(cells[a].nodes@[n]),
        real_street_name(cells[a].nodes@[n].street_name@) || real_street_name(
            cells[a].nodes@[n].connected_nodes.unwrap()@[c].street_name@,
        ),
    ensures
        exists|j: int|
            0 <= j < segments_of(cells, i).len() && #[trigger] built_from_link(
                segments_of(cells, i)[j],
                cells[a].area_id,
                cells[a].nodes@[n],
                cells[a].nodes@[n].connected_nodes.unwrap()@[c],
            ),
    decreases i,
{
    let prev = segments_of(cells, i - 1);
    let nodes = cells[i - 1].nodes@;
    let area = cells[i - 1].area_id;
    let b = cell_segments(area, nodes, nodes.len() as int);
    assert(segments_of(cells, i) == prev + b);
    let node = cells[a].nodes@[n];
    let link = node.connected_nodes.unwrap()@[c];
    if a < i - 1 {
        law_named_link_gives_segment(cells, i - 1, a, n, c);
        let j = choose|j: int|
            0 <= j < prev.len() && #[trigger] built_from_link(prev[j], cells[a].area_id, node, link);
        assert(segments_of(cells, i)[j] == prev[j]);
        assert(built_from_link(segments_of(cells, i)[j], cells[a].area_id, node, link));
    } else {
        lemma_cell_link_segments(area, nodes, nodes.len() as int);
        assert(nodes[n] == node);
        assert(has_link_segment(b, area, nodes[n], nodes[n].connected_nodes.unwrap()@[c]));
        let q = choose|q: int| 0 <= q < b.len() && built_from_link(b[q], area, nodes[n], nodes[n].connected_nodes.unwrap()@[c]);
        assert(segments_of(cells, i)[prev.len() + q] == b[q]);
        assert(built_from_link(segments_of(cells, i)[prev.len() + q], cells[a].area_id, node, link));
    }
}

/// A crossing road is found whenever some segment, wherever it stands in the
/// list, has another street name than the road and lies within reach (the
/// street radius or 35 m, but at least the road's own distance). The one
/// found has another street name and lies within reach too, and, where no
/// such segment's distance is NaN, it is the nearest of them, the first one
/// of the nearest.
pub proof fn law_crossing_is_nearest_other_street(
    segments: Seq<SegmentModel>,
    distances: Seq<u64>,
    primary: RoadMatch,
    street_radius: Option<u64>,
    k: int,
)
    requires
        segments.len() == distances.len(),
        primary.segment < segments.len(),
        0 <= k < distances.len(),
        segments[k].street_name != segments[primary.segment as int].street_name,
        !number::gt(
            distances[k],
            number::max_of(
                match street_radius {
                    Some(r) => r,
                    None => CROSSING_SEARCH_RADIUS,
                },
                primary.distance,
            ),
        ),
    ensures
        ({
            let reach = number::max_of(
                match street_radius {
                    Some(r) => r,
                    None => CROSSING_SEARCH_RADIUS,
                },
                primary.distance,
            );
            let name = segments[primary.segment as int].street_name;
            &&& crossing(segments, distances, primary, street_radius) matches Some(b)
            &&& 0 <= b < distances.len()
            &&& segments[b].street_name != name
            &&& !number::gt(distances[b], reach)
            &&& (forall|q: int|
                0 <= q < distances.len() && segments[q].street_name != name && !number::gt(
                    #[trigger] distances[q],
                    reach,
                ) ==> !number::is_nan(distances[q])) ==> (forall|q: int|
                0 <= q < distances.len() && segments[q].street_name != name && !number::gt(
                    #[trigger] distances[q],
                    reach,
                ) ==> number::le(distances[b], distances[q]) && (q < b ==> number::lt(
                    distances[b],
                    distances[q],
                )))
        }),
{
    let reach = crossing_reach(primary.distance, street_radius);
    let name = segments[primary.segment as int].street_name;
    let cand = |q: int| segments[q].street_name != name && !number::gt(distances[q], reach);
    lemma_min_pick(distances, cand, distances.len() as int);
    assert(cand(k));
    let r = crossing(segments, distances, primary, street_radius);
    assert(r == min_pick(distances, cand, distances.len() as int));
    let b = r.unwrap();
    assert(cand(b));
    if forall|q: int|
        0 <= q < distances.len() && segments[q].street_name != name && !number::gt(
            #[trigger] distances[q],
            reach,
        ) ==> !number::is_nan(distances[q]) {
        assert forall|q: int| 0 <= q < distances.len() && #[trigger] cand(q) implies !number::is_nan(
            distances[q],
        ) by {}
        assert forall|q: int|
            0 <= q < distances.len() && segments[q].street_name != name && !number::gt(
                #[trigger] distances[q],
                reach,
            ) implies number::le(distances[b], distances[q]) && (q < b ==> number::lt(
            distances[b],
            distances[q],
        )) by {
            assert(cand(q));
        }
    }
}

/// There is no crossing road exactly when no segment has another street name
/// than the road and lies within reach.
pub proof fn law_no_crossing_without_other_street(
    segments: Seq<SegmentModel>,
    distances: Seq<u64>,
    primary: RoadMatch,
    street_radius: Option<u64>,
)
    requires
        segments.len() == distances.len(),
        primary.segment < segments.len(),
    ensures
        crossing(segments, distances, primary, street_radius) is None <==> forall|q: int|
            0 <= q < distances.len() ==> !(segments[q].street_name
                != segments[primary.segment as int].street_name && !number::gt(
                #[trigger] distances[q],
                number::max_of(
                    match street_radius {
                        Some(r) => r,
                        None => CROSSING_SEARCH_RADIUS,
                    },
                    primary.distance,
                ),
            )),
{
    let reach = crossing_reach(primary.distance, street_radius);
    let name = segments[primary.segment as int].street_name;
    let cand = |q: int| segments[q].street_name != name && !number::gt(distances[q], reach);
    lemma_min_pick(distances, cand, distances.len() as int);
    assert(crossing(segments, distances, primary, street_radius) == min_pick(
        distances,
        cand,
        distances.len() as int,
    ));
    if crossing(segments, distances, primary, street_radius) is None {
        assert forall|q: int| 0 <= q < distances.len() implies !(segments[q].street_name != name
            && !number::gt(#[trigger] distances[q], reach)) by {
            assert(!cand(q));
        }
    } else {
        let b = crossing(segments, distances, primary, street_radius).unwrap();
        assert(cand(b));
        assert(!number::gt(distances[b], reach));
    }
}

} // verus!
