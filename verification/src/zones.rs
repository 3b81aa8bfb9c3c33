//! Zones: which zone boxes hold a point.
//!
//! Coordinates are IEEE-754 binary64 bit patterns, compared as `f64` values
//! are (see `number`). A point is matched against every box of every zone in
//! three dimensions; only when no box holds it in three dimensions are the
//! boxes matched on `x` and `y` alone. Matches come smallest box first.
use vstd::prelude::*;
use crate::number;

verus! {

/// A point; each coordinate is the bit pattern of an `f64`.
#[derive(Clone, Copy, Debug, PartialEq, Eq, Structural)]
pub struct Point {
    pub x: u64,
    pub y: u64,
    pub z: u64,
}

/// An axis-aligned box of a zone, with its volume `|dx| * |dy| * max(|dz|, 1)`
/// (all as `f64` bit patterns).
#[derive(Clone, Copy, Debug, PartialEq, Eq, Structural)]
pub struct Bounds {
    pub min: Point,
    pub max: Point,
    pub volume: u64,
}

/// A zone: its code, its display name where the data has one, and its boxes.
pub struct Zone {
    pub name: String,
    pub display_name: Option<String>,
    pub bounds: Vec<Bounds>,
}

/// How a zone box matched.
#[derive(Clone, Copy, Debug, PartialEq, Eq, Structural)]
pub enum MatchType {
    /// The box holds the point.
    Exact3d,
    /// The box holds the point on `x` and `y`; no box held it outright.
    XyFallback,
}

/// A box that holds the point: `zones[zone].bounds[bounds]`.
#[derive(Clone, Copy, Debug, PartialEq, Eq, Structural)]
pub struct ZoneMatch {
    pub zone: usize,
    pub bounds: usize,
    pub match_type: MatchType,
}

// ---------------------------------------------------------------------------
// Specification
// ---------------------------------------------------------------------------

/// The box holds the point on `x` and `y`.
pub open spec fn box_holds_xy(b: Bounds, p: Point) -> bool {
    number::ge(p.x, b.min.x) && number::le(p.x, b.max.x) && number::ge(p.y, b.min.y)
        && number::le(p.y, b.max.y)
}

/// The box holds the point.
pub open spec fn box_holds_3d(b: Bounds, p: Point) -> bool {
    box_holds_xy(b, p) && number::ge(p.z, b.min.z) && number::le(p.z, b.max.z)
}

/// The box holds the point in the way that `t` asks.
pub open spec fn holds(b: Bounds, p: Point, t: MatchType) -> bool {
    match t {
        MatchType::Exact3d => box_holds_3d(b, p),
        MatchType::XyFallback => box_holds_xy(b, p),
    }
}

/// The matches among the first `k` boxes of zone `z`, in order.
pub open spec fn box_matches(zones: Seq<Zone>, p: Point, t: MatchType, z: int, k: int) -> Seq<
    ZoneMatch,
>
    decreases k,
{
    if k <= 0 {
        seq![]
    } else {
        let prev = box_matches(zones, p, t, z, k - 1);
        if holds(zones[z].bounds@[k - 1], p, t) {
            prev.push(ZoneMatch { zone: z as usize, bounds: (k - 1) as usize, match_type: t })
        } else {
            prev
        }
    }
}

/// The matches among the boxes of the first `n` zones, zone by zone and box
/// by box.
pub open spec fn zone_matches(zones: Seq<Zone>, p: Point, t: MatchType, n: int) -> Seq<ZoneMatch>
    decreases n,
{
    if n <= 0 {
        seq![]
    } else {
        zone_matches(zones, p, t, n - 1) + box_matches(
            zones,
            p,
            t,
            n - 1,
            zones[n - 1].bounds.len() as int,
        )
    }
}

/// All boxes that hold the point in the way `t` asks, zone by zone and box
/// by box.
pub open spec fn found(zones: Seq<Zone>, p: Point, t: MatchType) -> Seq<ZoneMatch> {
    zone_matches(zones, p, t, zones.len() as int)
}

/// The way the point is matched: in three dimensions when any box holds it
/// so, else on `x` and `y`.
pub open spec fn match_mode(zones: Seq<Zone>, p: Point) -> MatchType {
    if found(zones, p, MatchType::Exact3d).len() > 0 {
        MatchType::Exact3d
    } else {
        MatchType::XyFallback
    }
}

/// Whether `m` names a box of `zones`.
pub open spec fn names_box(zones: Seq<Zone>, m: ZoneMatch) -> bool {
    m.zone < zones.len() && m.bounds < zones[m.zone as int].bounds@.len()
}

/// The order key of the volume of the box that `m` names.
pub open spec fn volume_key(zones: Seq<Zone>, m: ZoneMatch) -> int {
    number::order_key(zones[m.zone as int].bounds@[m.bounds as int].volume)
}

/// `a` comes before `b` by zone and box index.
pub open spec fn index_before(a: ZoneMatch, b: ZoneMatch) -> bool {
    a.zone < b.zone || (a.zone == b.zone && a.bounds < b.bounds)
}

/// `a` comes before `b`: smaller volume first, ties in zone and box order
/// (the order of a stable sort by volume).
pub open spec fn before(zones: Seq<Zone>, a: ZoneMatch, b: ZoneMatch) -> bool {
    volume_key(zones, a) < volume_key(zones, b) || (volume_key(zones, a) == volume_key(zones, b)
        && index_before(a, b))
}

/// No box that holds the point, in the way the point is matched, has a NaN
/// volume (the others are never compared).
pub open spec fn matched_volumes_ordered(zones: Seq<Zone>, p: Point) -> bool {
    forall|z: int, k: int|
        0 <= z < zones.len() && 0 <= k < zones[z].bounds@.len() && holds(
            zones[z].bounds@[k],
            p,
            match_mode(zones, p),
        ) ==> !number::is_nan(#[trigger] zones[z].bounds@[k].volume)
}

/// The volume of the box that `m` names is not NaN.
pub open spec fn volume_ordered(zones: Seq<Zone>, m: ZoneMatch) -> bool {
    !number::is_nan(zones[m.zone as int].bounds@[m.bounds as int].volume)
}

// ---------------------------------------------------------------------------
// Lemmas
// ---------------------------------------------------------------------------

proof fn lemma_box_matches(zones: Seq<Zone>, p: Point, t: MatchType, z: int, k: int)
    requires
        0 <= z < zones.len(),
        0 <= k <= zones[z].bounds.len(),
        zones.len() <= usize::MAX,
    ensures
        forall|j: int|
            0 <= j < box_matches(zones, p, t, z, k).len() ==> {
                let m = #[trigger] box_matches(zones, p, t, z, k)[j];
                &&& m.zone == z
                &&& m.bounds < k
                &&& m.match_type == t
                &&& holds(zones[z].bounds@[m.bounds as int], p, t)
            },
        forall|i: int, j: int|
            0 <= i < j < box_matches(zones, p, t, z, k).len() ==> index_before(
                #[trigger] box_matches(zones, p, t, z, k)[i],
                #[trigger] box_matches(zones, p, t, z, k)[j],
            ),
        forall|b: int|
            0 <= b < k && holds(zones[z].bounds@[b], p, t) ==> #[trigger] box_matches(
                zones,
                p,
                t,
                z,
                k,
            ).contains(ZoneMatch { zone: z as usize, bounds: b as usize, match_type: t }),
    decreases k,
{
    if k > 0 {
        lemma_box_matches(zones, p, t, z, k - 1);
        let prev = box_matches(zones, p, t, z, k - 1);
        let cur = box_matches(zones, p, t, z, k);
        assert forall|b: int|
            0 <= b < k && holds(zones[z].bounds@[b], p, t) implies #[trigger] cur.contains(
            ZoneMatch { zone: z as usize, bounds: b as usize, match_type: t },
        ) by {
            let m = ZoneMatch { zone: z as usize, bounds: b as usize, match_type: t };
            if b < k - 1 {
                assert(prev.contains(m));
                let q = choose|q: int| 0 <= q < prev.len() && prev[q] == m;
                assert(cur[q] == m);
            } else {
                assert(cur[prev.len() as int] == m);
            }
        }
    }
}

proof fn lemma_zone_matches(zones: Seq<Zone>, p: Point, t: MatchType, n: int)
    requires
        0 <= n <= zones.len(),
        zones.len() <= usize::MAX,
    ensures
        forall|j: int|
            0 <= j < zone_matches(zones, p, t, n).len() ==> {
                let m = #[trigger] zone_matches(zones, p, t, n)[j];
                &&& m.zone < n
                &&& names_box(zones, m)
                &&& m.match_type == t
                &&& holds(zones[m.zone as int].bounds@[m.bounds as int], p, t)
            },
        forall|i: int, j: int|
            0 <= i < j < zone_matches(zones, p, t, n).len() ==> index_before(
                #[trigger] zone_matches(zones, p, t, n)[i],
                #[trigger] zone_matches(zones, p, t, n)[j],
            ),
        forall|z: int, b: int|
            0 <= z < n && 0 <= b < zones[z].bounds@.len() && holds(zones[z].bounds@[b], p, t)
                ==> #[trigger] zone_matches(zones, p, t, n).contains(
                ZoneMatch { zone: z as usize, bounds: b as usize, match_type: t },
            ),
    decreases n,
{
    if n > 0 {
        lemma_zone_matches(zones, p, t, n - 1);
        let prev = zone_matches(zones, p, t, n - 1);
        let last = box_matches(zones, p, t, n - 1, zones[n - 1].bounds.len() as int);
        lemma_box_matches(zones, p, t, n - 1, zones[n - 1].bounds.len() as int);
        let cur = zone_matches(zones, p, t, n);
        assert(cur == prev + last);
        assert forall|j: int| 0 <= j < cur.len() implies {
            let m = #[trigger] cur[j];
            &&& m.zone < n
            &&& names_box(zones, m)
            &&& m.match_type == t
            &&& holds(zones[m.zone as int].bounds@[m.bounds as int], p, t)
        } by {
            if j >= prev.len() {
                assert(cur[j] == last[j - prev.len()]);
            }
        }
        assert forall|i: int, j: int| 0 <= i < j < cur.len() implies index_before(
            #[trigger] cur[i],
            #[trigger] cur[j],
        ) by {
            if j >= prev.len() {
                assert(cur[j] == last[j - prev.len()]);
                if i >= prev.len() {
                    assert(cur[i] == last[i - prev.len()]);
                }
            }
        }
        assert forall|z: int, b: int|
            0 <= z < n && 0 <= b < zones[z].bounds@.len() && holds(
                zones[z].bounds@[b],
                p,
                t,
            ) implies #[trigger] cur.contains(
            ZoneMatch { zone: z as usize, bounds: b as usize, match_type: t },
        ) by {
            let m = ZoneMatch { zone: z as usize, bounds: b as usize, match_type: t };
            if z < n - 1 {
                assert(prev.contains(m));
                let q = choose|q: int| 0 <= q < prev.len() && prev[q] == m;
                assert(cur[q] == m);
            } else {
                assert(last.contains(m));
                let q = choose|q: int| 0 <= q < last.len() && last[q] == m;
                assert(cur[prev.len() + q] == m);
            }
        }
    }
}

/// The boxes found are exactly those that hold the point in the way asked.
pub proof fn lemma_found(zones: Seq<Zone>, p: Point, t: MatchType, m: ZoneMatch)
    requires
        zones.len() <= usize::MAX,
    ensures
        found(zones, p, t).contains(m) <==> (names_box(zones, m) && m.match_type == t && holds(
            zones[m.zone as int].bounds@[m.bounds as int],
            p,
            t,
        )),
{
    lemma_zone_matches(zones, p, t, zones.len() as int);
    if names_box(zones, m) && m.match_type == t && holds(
        zones[m.zone as int].bounds@[m.bounds as int],
        p,
        t,
    ) {
        let z = m.zone as int;
        let b = m.bounds as int;
        assert(zone_matches(zones, p, t, zones.len() as int).contains(
            ZoneMatch { zone: z as usize, bounds: b as usize, match_type: t },
        ));
        assert(m == ZoneMatch { zone: z as usize, bounds: b as usize, match_type: t });
    }
    if found(zones, p, t).contains(m) {
        let q = choose|q: int|
            0 <= q < found(zones, p, t).len() && found(zones, p, t)[q] == m;
        assert(found(zones, p, t)[q] == m);
    }
}

/// Zones are matched in three dimensions when any box holds the point, and
/// fall back to `x` and `y` only when no box does.
pub proof fn lemma_match_mode(zones: Seq<Zone>, p: Point)
    requires
        zones.len() <= usize::MAX,
    ensures
        match_mode(zones, p) == MatchType::Exact3d <==> exists|m: ZoneMatch|
            names_box(zones, m) && #[trigger] box_holds_3d(
                zones[m.zone as int].bounds@[m.bounds as int],
                p,
            ),
{
    if match_mode(zones, p) == MatchType::Exact3d {
        let f = found(zones, p, MatchType::Exact3d);
        let m = f[0];
        assert(f.contains(m));
        lemma_found(zones, p, MatchType::Exact3d, m);
    }
    if exists|m: ZoneMatch|
        names_box(zones, m) && #[trigger] box_holds_3d(
            zones[m.zone as int].bounds@[m.bounds as int],
            p,
        ) {
        let m = choose|m: ZoneMatch|
            names_box(zones, m) && #[trigger] box_holds_3d(
                zones[m.zone as int].bounds@[m.bounds as int],
                p,
            );
        let m3 = ZoneMatch { match_type: MatchType::Exact3d, ..m };
        lemma_found(zones, p, MatchType::Exact3d, m3);
        assert(found(zones, p, MatchType::Exact3d).contains(m3));
    }
}

// ---------------------------------------------------------------------------
// Implementation
// ---------------------------------------------------------------------------

/// Whether the box holds the point on `x` and `y`.
pub fn contains_xy(bounds: Bounds, point: Point) -> (r: bool)
    ensures
        r == box_holds_xy(bounds, point),
{
    number::less_eq(bounds.min.x, point.x) && number::less_eq(point.x, bounds.max.x)
        && number::less_eq(bounds.min.y, point.y) && number::less_eq(point.y, bounds.max.y)
}

/// Whether the box holds the point.
pub fn contains_3d(bounds: Bounds, point: Point) -> (r: bool)
    ensures
        r == box_holds_3d(bounds, point),
{
    contains_xy(bounds, point) && number::less_eq(bounds.min.z, point.z) && number::less_eq(
        point.z,
        bounds.max.z,
    )
}

/// All boxes that hold the point in the way `match_type` asks, zone by zone
/// and box by box.
pub fn find_zones_by(zones: &Vec<Zone>, point: Point, match_type: MatchType) -> (r: Vec<
    ZoneMatch,
>)
    ensures
        r@ == found(zones@, point, match_type),
{
    let mut r: Vec<ZoneMatch> = Vec::new();
    let mut z: usize = 0;
    while z < zones.len()
        invariant
            z <= zones@.len(),
            r@ == zone_matches(zones@, point, match_type, z as int),
        decreases zones@.len() - z,
    {
        let zone = &zones[z];
        let ghost base = r@;
        let mut k: usize = 0;
        while k < zone.bounds.len()
            invariant
                z < zones@.len(),
                *zone == zones@[z as int],
                k <= zone.bounds@.len(),
                base == zone_matches(zones@, point, match_type, z as int),
                r@ == base + box_matches(zones@, point, match_type, z as int, k as int),
            decreases zone.bounds@.len() - k,
        {
            let b = zone.bounds[k];
            let hit = match match_type {
                MatchType::Exact3d => contains_3d(b, point),
                MatchType::XyFallback => contains_xy(b, point),
            };
            if hit {
                r.push(ZoneMatch { zone: z, bounds: k, match_type });
            }
            assert(r@ =~= base + box_matches(zones@, point, match_type, z as int, k + 1));
            k += 1;
        }
        z += 1;
    }
    r
}

/// Sorts matches by box volume, smallest first, keeping the order of equal
/// volumes (a stable sort); the matches come in zone and box order.
fn sort_by_volume(zones: &Vec<Zone>, matches: Vec<ZoneMatch>) -> (r: Vec<ZoneMatch>)
    requires
        forall|j: int| 0 <= j < matches@.len() ==> names_box(zones@, #[trigger] matches@[j]),
        forall|j: int| 0 <= j < matches@.len() ==> volume_ordered(zones@, #[trigger] matches@[j]),
        forall|i: int, j: int|
            0 <= i < j < matches@.len() ==> index_before(#[trigger] matches@[i], #[trigger] matches@[j]),
    ensures
        r@.len() == matches@.len(),
        forall|m: ZoneMatch| r@.contains(m) <==> matches@.contains(m),
        forall|i: int, j: int|
            0 <= i < j < r@.len() ==> before(zones@, #[trigger] r@[i], #[trigger] r@[j]),
{
    let mut r: Vec<ZoneMatch> = Vec::new();
    let mut i: usize = 0;
    while i < matches.len()
        invariant
            i <= matches@.len(),
            forall|j: int| 0 <= j < matches@.len() ==> names_box(zones@, #[trigger] matches@[j]),
            forall|j: int| 0 <= j < matches@.len() ==> volume_ordered(zones@, #[trigger] matches@[j]),
            forall|a: int, b: int|
                0 <= a < b < matches@.len() ==> index_before(
                    #[trigger] matches@[a],
                    #[trigger] matches@[b],
                ),
            r@.len() == i,
            forall|q: int| 0 <= q < r@.len() ==> names_box(zones@, #[trigger] r@[q]),
            forall|m: ZoneMatch| r@.contains(m) <==> matches@.subrange(0, i as int).contains(m),
            forall|a: int, b: int|
                0 <= a < b < r@.len() ==> before(zones@, #[trigger] r@[a], #[trigger] r@[b]),
        decreases matches@.len() - i,
    {
        let m = matches[i];
        let key = number::key_of(zones[m.zone].bounds[m.bounds].volume);
        let mut pos: usize = 0;
        while pos < r.len() && number::key_of(zones[r[pos].zone].bounds[r[pos].bounds].volume)
            <= key
            invariant
                pos <= r@.len(),
                forall|j: int| 0 <= j < matches@.len() ==> names_box(zones@, #[trigger] matches@[j]),
                forall|q: int| 0 <= q < r@.len() ==> names_box(zones@, #[trigger] r@[q]),
                forall|q: int| 0 <= q < pos ==> volume_key(zones@, #[trigger] r@[q]) <= key,
                key == volume_key(zones@, m),
                names_box(zones@, m),
            decreases r@.len() - pos,
        {
            pos += 1;
        }
        let ghost old_r = r@;
        let ghost prefix = matches@.subrange(0, i as int);
        proof {
            // Everything placed so far comes before `m` by index.
            assert forall|q: int| 0 <= q < old_r.len() implies index_before(
                #[trigger] old_r[q],
                m,
            ) by {
                assert(old_r.contains(old_r[q]));
                assert(prefix.contains(old_r[q]));
                let a = choose|a: int| 0 <= a < prefix.len() && prefix[a] == old_r[q];
                assert(matches@[a] == old_r[q]);
            }
            // Everything from `pos` on has a larger volume than `m`.
            assert forall|q: int| pos <= q < old_r.len() implies volume_key(
                zones@,
                #[trigger] old_r[q],
            ) > key by {
                if pos < old_r.len() {
                    assert(volume_key(zones@, old_r[pos as int]) > key);
                    if q > pos {
                        assert(before(zones@, old_r[pos as int], old_r[q]));
                    }
                }
            }
        }
        r.insert(pos, m);
        proof {
            let new_r = r@;
            assert(new_r == old_r.insert(pos as int, m));
            assert forall|q: int| 0 <= q < new_r.len() implies names_box(zones@, #[trigger] new_r[q]) by {
                if q < pos {
                    assert(new_r[q] == old_r[q]);
                } else if q > pos {
                    assert(new_r[q] == old_r[q - 1]);
                }
            }
            assert forall|a: int, b: int| 0 <= a < b < new_r.len() implies before(
                zones@,
                #[trigger] new_r[a],
                #[trigger] new_r[b],
            ) by {
                if b < pos {
                    assert(new_r[a] == old_r[a] && new_r[b] == old_r[b]);
                } else if b == pos {
                    assert(new_r[a] == old_r[a]);
                } else if a < pos {
                    assert(new_r[a] == old_r[a] && new_r[b] == old_r[b - 1]);
                } else if a == pos {
                    assert(new_r[b] == old_r[b - 1]);
                } else {
                    assert(new_r[a] == old_r[a - 1] && new_r[b] == old_r[b - 1]);
                }
            }
            let prefix2 = matches@.subrange(0, i + 1);
            assert(prefix2 == prefix.push(m));
            assert forall|m2: ZoneMatch| new_r.contains(m2) <==> prefix2.contains(m2) by {
                if new_r.contains(m2) {
                    let q = choose|q: int| 0 <= q < new_r.len() && new_r[q] == m2;
                    if q == pos {
                        assert(prefix2[i as int] == m2);
                    } else {
                        let q2 = if q < pos {
                            q
                        } else {
                            q - 1
                        };
                        assert(old_r[q2] == m2);
                        assert(old_r.contains(m2));
                        assert(prefix.contains(m2));
                        let a = choose|a: int| 0 <= a < prefix.len() && prefix[a] == m2;
                        assert(prefix2[a] == m2);
                    }
                }
                if prefix2.contains(m2) {
                    let a = choose|a: int| 0 <= a < prefix2.len() && prefix2[a] == m2;
                    if a == i {
                        assert(new_r[pos as int] == m2);
                    } else {
                        assert(prefix[a] == m2);
                        assert(prefix.contains(m2));
                        assert(old_r.contains(m2));
                        let q = choose|q: int| 0 <= q < old_r.len() && old_r[q] == m2;
                        if q < pos {
                            assert(new_r[q] == m2);
                        } else {
                            assert(new_r[q + 1] == m2);
                        }
                    }
                }
            }
        }
        i += 1;
    }
    assert(matches@.subrange(0, matches@.len() as int) =~= matches@);
    r
}

/// The boxes that hold the point, smallest volume first (ties in zone and
/// box order): in three dimensions when any box holds it so, else on `x` and
/// `y`.
pub fn find_zones(zones: &Vec<Zone>, point: Point) -> (r: Vec<ZoneMatch>)
    requires
        matched_volumes_ordered(zones@, point),
    ensures
        r@.len() == found(zones@, point, match_mode(zones@, point)).len(),
        forall|m: ZoneMatch| r@.contains(m) <==> found(zones@, point, match_mode(zones@, point)).contains(m),
        forall|i: int, j: int|
            0 <= i < j < r@.len() ==> before(zones@, #[trigger] r@[i], #[trigger] r@[j]),
{
    let mut matches = find_zones_by(zones, point, MatchType::Exact3d);
    if matches.len() == 0 {
        matches = find_zones_by(zones, point, MatchType::XyFallback);
    }
    let ghost mode = match_mode(zones@, point);
    proof {
        assert(zones@.len() == zones.len());
        lemma_zone_matches(zones@, point, mode, zones@.len() as int);
    }
    sort_by_volume(zones, matches)
}

/// Whether no box that holds the point, in the way the point is matched, has
/// a NaN volume: what `find_zones` needs to order its matches.
pub fn matched_volumes_compare(zones: &Vec<Zone>, point: Point) -> (r: bool)
    ensures
        r == matched_volumes_ordered(zones@, point),
{
    let mut matches = find_zones_by(zones, point, MatchType::Exact3d);
    if matches.len() == 0 {
        matches = find_zones_by(zones, point, MatchType::XyFallback);
    }
    let ghost mode = match_mode(zones@, point);
    proof {
        assert(zones@.len() == zones.len());
        lemma_zone_matches(zones@, point, mode, zones@.len() as int);
    }
    let mut i: usize = 0;
    while i < matches.len()
        invariant
            i <= matches@.len(),
            zones@.len() <= usize::MAX,
            matches@ == found(zones@, point, mode),
            mode == match_mode(zones@, point),
            forall|j: int| 0 <= j < matches@.len() ==> names_box(zones@, #[trigger] matches@[j]),
            forall|j: int| 0 <= j < matches@.len() ==> (#[trigger] matches@[j]).match_type == mode,
            forall|j: int| 0 <= j < i ==> volume_ordered(zones@, #[trigger] matches@[j]),
        decreases matches@.len() - i,
    {
        let m = matches[i];
        if number::nan_bits(zones[m.zone].bounds[m.bounds].volume) {
            proof {
                assert(found(zones@, point, mode).contains(m));
                lemma_found(zones@, point, mode, m);
            }
            return false;
        }
        i += 1;
    }
    proof {
        assert forall|z: int, k: int|
            0 <= z < zones@.len() && 0 <= k < zones@[z].bounds@.len() && holds(
                zones@[z].bounds@[k],
                point,
                mode,
            ) implies !number::is_nan(#[trigger] zones@[z].bounds@[k].volume) by {
            assert(zones@[z].bounds@.len() == zones@[z].bounds.len());
            let m = ZoneMatch { zone: z as usize, bounds: k as usize, match_type: mode };
            assert(m.zone == z && m.bounds == k);
            lemma_found(zones@, point, mode, m);
            let q = choose|q: int| 0 <= q < matches@.len() && matches@[q] == m;
            assert(volume_ordered(zones@, matches@[q]));
        }
    }
    true
}

// ---------------------------------------------------------------------------
// Laws
// ---------------------------------------------------------------------------

/// Every match that `find_zones` reports names a box of the data that holds
/// the point: `min <= p <= max` on `x` and on `y`, and on `z` too when the
/// match is a three-dimensional one.
pub proof fn law_match_holds_point(zones: Seq<Zone>, p: Point, m: ZoneMatch)
    requires
        zones.len() <= usize::MAX,
        found(zones, p, match_mode(zones, p)).contains(m),
    ensures
        m.zone < zones.len(),
        m.bounds < zones[m.zone as int].bounds@.len(),
        ({
            let b = zones[m.zone as int].bounds@[m.bounds as int];
            &&& number::le(b.min.x, p.x) && number::le(p.x, b.max.x)
            &&& number::le(b.min.y, p.y) && number::le(p.y, b.max.y)
            &&& m.match_type == MatchType::Exact3d ==> number::le(b.min.z, p.z) && number::le(
                p.z,
                b.max.z,
            )
        }),
{
    lemma_found(zones, p, match_mode(zones, p), m);
}

/// Every box that holds the point in all three dimensions is reported, as a
/// three-dimensional match.
pub proof fn law_box_holding_point_is_found(zones: Seq<Zone>, p: Point, z: int, k: int)
    requires
        zones.len() <= usize::MAX,
        0 <= z < zones.len(),
        0 <= k < zones[z].bounds@.len(),
        ({
            let b = zones[z].bounds@[k];
            &&& number::le(b.min.x, p.x) && number::le(p.x, b.max.x)
            &&& number::le(b.min.y, p.y) && number::le(p.y, b.max.y)
            &&& number::le(b.min.z, p.z) && number::le(p.z, b.max.z)
        }),
    ensures
        match_mode(zones, p) == MatchType::Exact3d,
        found(zones, p, match_mode(zones, p)).contains(
            ZoneMatch { zone: z as usize, bounds: k as usize, match_type: MatchType::Exact3d },
        ),
{
    assert(zones[z].bounds@.len() == zones[z].bounds.len());
    let m = ZoneMatch { zone: z as usize, bounds: k as usize, match_type: MatchType::Exact3d };
    assert(m.zone == z && m.bounds == k);
    lemma_found(zones, p, MatchType::Exact3d, m);
    lemma_match_mode(zones, p);
    assert(names_box(zones, m) && box_holds_3d(zones[m.zone as int].bounds@[m.bounds as int], p));
}

/// When no box holds the point in three dimensions, every box that holds it
/// on `x` and `y` is reported, as a fallback match.
pub proof fn law_xy_fallback_is_found(zones: Seq<Zone>, p: Point, z: int, k: int)
    requires
        zones.len() <= usize::MAX,
        forall|y: int, j: int|
            0 <= y < zones.len() && 0 <= j < zones[y].bounds@.len() ==> !(number::le(
                (#[trigger] zones[y].bounds@[j]).min.x,
                p.x,
            ) && number::le(p.x, zones[y].bounds@[j].max.x) && number::le(
                zones[y].bounds@[j].min.y,
                p.y,
            ) && number::le(p.y, zones[y].bounds@[j].max.y) && number::le(
                zones[y].bounds@[j].min.z,
                p.z,
            ) && number::le(p.z, zones[y].bounds@[j].max.z)),
        0 <= z < zones.len(),
        0 <= k < zones[z].bounds@.len(),
        ({
            let b = zones[z].bounds@[k];
            &&& number::le(b.min.x, p.x) && number::le(p.x, b.max.x)
            &&& number::le(b.min.y, p.y) && number::le(p.y, b.max.y)
        }),
    ensures
        match_mode(zones, p) == MatchType::XyFallback,
        found(zones, p, match_mode(zones, p)).contains(
            ZoneMatch { zone: z as usize, bounds: k as usize, match_type: MatchType::XyFallback },
        ),
{
    assert(zones[z].bounds@.len() == zones[z].bounds.len());
    let m = ZoneMatch { zone: z as usize, bounds: k as usize, match_type: MatchType::XyFallback };
    assert(m.zone == z && m.bounds == k);
    lemma_match_mode(zones, p);
    if match_mode(zones, p) == MatchType::Exact3d {
        let w = choose|w: ZoneMatch|
            names_box(zones, w) && #[trigger] box_holds_3d(
                zones[w.zone as int].bounds@[w.bounds as int],
                p,
            );
        let b = zones[w.zone as int].bounds@[w.bounds as int];
        assert(!(number::le(b.min.x, p.x) && number::le(p.x, b.max.x) && number::le(b.min.y, p.y)
            && number::le(p.y, b.max.y) && number::le(b.min.z, p.z) && number::le(p.z, b.max.z)));
        assert(false);
    }
    lemma_found(zones, p, MatchType::XyFallback, m);
}

/// Matches in the order `find_zones` gives them come by volume, smallest
/// first, with equal volumes in the order of the zones and their boxes.
pub proof fn law_before_orders_by_volume(zones: Seq<Zone>, a: ZoneMatch, b: ZoneMatch)
    requires
        volume_ordered(zones, a),
        volume_ordered(zones, b),
        before(zones, a, b),
    ensures
        ({
            let va = zones[a.zone as int].bounds@[a.bounds as int].volume;
            let vb = zones[b.zone as int].bounds@[b.bounds as int].volume;
            &&& number::le(va, vb)
            &&& !number::lt(va, vb) ==> (a.zone < b.zone || (a.zone == b.zone && a.bounds < b.bounds))
        }),
{
}

} // verus!
