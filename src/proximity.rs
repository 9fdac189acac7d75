use vstd::prelude::*;

verus! {

/// Largest magnitude of a coordinate or a length, in fixed-point units.
pub const COORD_BOUND: i64 = 0x1000_0000_0000_0000;

/// Lateral separation, in fixed-point units, up to which two boxes count as
/// sharing a lane.
pub const SIDE_MARGIN: i64 = 0;

/// An axis-aligned bounding box; x runs along the road, y across it.
#[derive(Copy, Clone, Debug, PartialEq, Eq, Structural)]
pub struct Aabb {
    pub min_x: i64,
    pub min_y: i64,
    pub max_x: i64,
    pub max_y: i64,
}

/// What the proximity queries read of a car: the longitudinal position of its
/// centre, its length, its footprint's bounding box at its pose, and whether it
/// has crashed.
#[derive(Copy, Clone, Debug, PartialEq, Eq, Structural)]
pub struct CarExtent {
    pub x: i64,
    pub length: i64,
    pub bounds: Aabb,
    pub crashed: bool,
}

pub open spec fn in_bound(v: i64) -> bool {
    -COORD_BOUND <= v <= COORD_BOUND
}

impl Aabb {
    pub open spec fn valid(self) -> bool {
        in_bound(self.min_x) && in_bound(self.min_y) && in_bound(self.max_x) && in_bound(self.max_y)
    }
}

impl CarExtent {
    pub open spec fn valid(self) -> bool {
        in_bound(self.x) && 0 <= self.length <= COORD_BOUND && self.bounds.valid()
    }
}

pub open spec fn all_valid(cars: Seq<CarExtent>) -> bool {
    forall|i: int| 0 <= i < cars.len() ==> (#[trigger] cars[i]).valid()
}

pub open spec fn max3(a: int, b: int, c: int) -> int {
    if a >= b && a >= c {
        a
    } else if b >= c {
        b
    } else {
        c
    }
}

/// The gap between the intervals `[low_a, high_a]` and `[low_b, high_b]`; zero
/// when they overlap.
pub open spec fn range_gap(low_a: int, high_a: int, low_b: int, high_b: int) -> int {
    max3(0, low_a - high_b, low_b - high_a)
}

/// The gap between two intervals along one axis (zero when they overlap).
pub fn range_dist(low_a: i64, high_a: i64, low_b: i64, high_b: i64) -> (r: i64)
    requires
        in_bound(low_a),
        in_bound(high_a),
        in_bound(low_b),
        in_bound(high_b),
    ensures
        r == range_gap(low_a as int, high_a as int, low_b as int, high_b as int),
{
    let sep1 = if low_a - high_b > 0 { low_a - high_b } else { 0 };
    let sep2 = if low_b - high_a > 0 { low_b - high_a } else { 0 };
    if sep1 >= sep2 {
        sep1
    } else {
        sep2
    }
}

/// Whether car `i` is a neighbour of car `car_i` for a clearance query: within
/// `dist_thresh` along the road, on the queried side (`ahead` or behind), not car
/// `car_i` itself, not a crashed obstacle when those are shown to the ego only and
/// `car_i` is not the ego, and laterally within the side margin of `query`.
pub open spec fn is_neighbor(
    cars: Seq<CarExtent>,
    car_i: int,
    query: Aabb,
    ahead: bool,
    dist_thresh: int,
    obstacles_only_for_ego: bool,
    i: int,
) -> bool {
    let car = cars[car_i];
    let c = cars[i];
    &&& 0 <= i < cars.len()
    &&& i != car_i
    &&& -dist_thresh < c.x - car.x < dist_thresh
    &&& if ahead { c.x >= car.x } else { c.x <= car.x }
    &&& !(obstacles_only_for_ego && c.crashed && car_i != 0)
    &&& range_gap(query.min_y as int, query.max_y as int, c.bounds.min_y as int, c.bounds.max_y as int) <= SIDE_MARGIN
}

/// The longitudinal gap between `query` and car `i` on the queried side: from the
/// front of `query` to the back of the car ahead, or from the back of `query` to
/// the front of the car behind.
pub open spec fn gap_to(cars: Seq<CarExtent>, query: Aabb, ahead: bool, i: int) -> int {
    if ahead {
        cars[i].bounds.min_x - query.max_x
    } else {
        query.min_x - cars[i].bounds.max_x
    }
}

/// Finds the nearest neighbour of car `car_i` on the queried side (see
/// `is_neighbor`), with the gap to it. `query` is car `car_i`'s bounding box with
/// rotation removed, centred on the queried lane's centre line when a lane is
/// asked for. Among neighbours at equal gaps the one listed first is returned.
pub fn dist_clear_in_lane(
    cars: &Vec<CarExtent>,
    car_i: usize,
    query: Aabb,
    ahead: bool,
    dist_thresh: i64,
    obstacles_only_for_ego: bool,
) -> (r: Option<(i64, usize)>)
    requires
        car_i < cars@.len(),
        all_valid(cars@),
        query.valid(),
        0 <= dist_thresh,
    ensures
        r is None <==> forall|i: int| !is_neighbor(cars@, car_i as int, query, ahead, dist_thresh as int, obstacles_only_for_ego, i),
        r matches Some((gap, j)) ==> {
            &&& is_neighbor(cars@, car_i as int, query, ahead, dist_thresh as int, obstacles_only_for_ego, j as int)
            &&& gap == gap_to(cars@, query, ahead, j as int)
            &&& forall|i: int| #[trigger] is_neighbor(cars@, car_i as int, query, ahead, dist_thresh as int, obstacles_only_for_ego, i)
                    ==> gap <= gap_to(cars@, query, ahead, i)
            &&& forall|i: int| 0 <= i < j && #[trigger] is_neighbor(cars@, car_i as int, query, ahead, dist_thresh as int, obstacles_only_for_ego, i)
                    ==> gap < gap_to(cars@, query, ahead, i)
        },
{
    let car = cars[car_i];
    let mut best: Option<(i64, usize)> = None;
    let mut i: usize = 0;
    while i < cars.len()
        invariant
            car_i < cars@.len(),
            car == cars@[car_i as int],
            all_valid(cars@),
            query.valid(),
            0 <= dist_thresh,
            i <= cars@.len(),
            best is None <==> forall|k: int| 0 <= k < i ==> !is_neighbor(cars@, car_i as int, query, ahead, dist_thresh as int, obstacles_only_for_ego, k),
            best matches Some((gap, j)) ==> {
                &&& j < i
                &&& is_neighbor(cars@, car_i as int, query, ahead, dist_thresh as int, obstacles_only_for_ego, j as int)
                &&& gap == gap_to(cars@, query, ahead, j as int)
                &&& forall|k: int| 0 <= k < i && #[trigger] is_neighbor(cars@, car_i as int, query, ahead, dist_thresh as int, obstacles_only_for_ego, k)
                        ==> gap <= gap_to(cars@, query, ahead, k)
                &&& forall|k: int| 0 <= k < j && #[trigger] is_neighbor(cars@, car_i as int, query, ahead, dist_thresh as int, obstacles_only_for_ego, k)
                        ==> gap < gap_to(cars@, query, ahead, k)
            },
        decreases cars@.len() - i,
    {
        let c = cars[i];
        assert(cars@[i as int].valid());
        let dx = c.x - car.x;
        let near = -dist_thresh < dx && dx < dist_thresh;
        let side_ok = if ahead { c.x >= car.x } else { c.x <= car.x };
        let shown = !(obstacles_only_for_ego && c.crashed && car_i != 0);
        if near && side_ok && i != car_i && shown {
            let side_sep = range_dist(query.min_y, query.max_y, c.bounds.min_y, c.bounds.max_y);
            if side_sep <= SIDE_MARGIN {
                let gap = if ahead { c.bounds.min_x - query.max_x } else { query.min_x - c.bounds.max_x };
                match best {
                    None => {
                        best = Some((gap, i));
                    },
                    Some((g, _)) => {
                        if gap < g {
                            best = Some((gap, i));
                        }
                    },
                }
            }
        }
        proof {
            let nb = is_neighbor(cars@, car_i as int, query, ahead, dist_thresh as int, obstacles_only_for_ego, i as int);
            assert(nb ==> best is Some);
        }
        i = i + 1;
    }
    best
}

/// Two cars are further apart along the road than half their lengths added.
pub open spec fn apart_along_road(a: CarExtent, b: CarExtent) -> bool {
    2 * (if a.x >= b.x { a.x - b.x } else { b.x - a.x }) > a.length + b.length
}

/// Whether two cars are further apart along the road than half their lengths
/// added: then their footprints cannot meet and no exact test is needed.
pub fn clearly_apart(a: &CarExtent, b: &CarExtent) -> (r: bool)
    requires
        a.valid(),
        b.valid(),
    ensures
        r == apart_along_road(*a, *b),
{
    let dx = if a.x >= b.x { a.x - b.x } else { b.x - a.x };
    2 * dx > a.length + b.length
}

/// The longitudinal pre-test of a collision query does not depend on the order
/// in which the two cars are given.
pub proof fn lemma_clearly_apart_symmetric(a: CarExtent, b: CarExtent)
    ensures
        apart_along_road(a, b) == apart_along_road(b, a),
{
}

/// Whether car `i` is close enough to car `car_i` that its exact clearance is
/// worth computing for the safety cost: another car, nearer along the road than
/// twice the length of car `car_i` plus the margin, and with bounding boxes that
/// come within `margin` of each other on both axes.
pub open spec fn within_margin_box(cars: Seq<CarExtent>, car_i: int, margin: int, i: int) -> bool {
    let a = cars[car_i];
    let c = cars[i];
    &&& 0 <= i < cars.len()
    &&& i != car_i
    &&& -(2 * a.length + margin) < c.x - a.x < 2 * a.length + margin
    &&& range_gap(a.bounds.min_y as int, a.bounds.max_y as int, c.bounds.min_y as int, c.bounds.max_y as int) < margin
    &&& range_gap(a.bounds.min_x as int, a.bounds.max_x as int, c.bounds.min_x as int, c.bounds.max_x as int) < margin
}

/// The cars whose exact clearance to car `car_i` can be under `margin`, in
/// index order: bounding boxes never lie closer than the shapes inside them, so
/// no other car can be.
pub fn unsafe_candidates(cars: &Vec<CarExtent>, car_i: usize, margin: i64) -> (r: Vec<usize>)
    requires
        car_i < cars@.len(),
        all_valid(cars@),
        0 <= margin <= COORD_BOUND,
    ensures
        forall|m: int| 0 <= m < r@.len() ==> within_margin_box(cars@, car_i as int, margin as int, #[trigger] r@[m] as int),
        forall|i: int| #[trigger] within_margin_box(cars@, car_i as int, margin as int, i) ==> r@.contains(i as usize),
        forall|a: int, b: int| 0 <= a < b < r@.len() ==> #[trigger] r@[a] < #[trigger] r@[b],
{
    let car = cars[car_i];
    assert(cars@[car_i as int].valid());
    let thresh = 2 * car.length + margin;
    let mut r: Vec<usize> = Vec::new();
    let mut i: usize = 0;
    while i < cars.len()
        invariant
            car_i < cars@.len(),
            car == cars@[car_i as int],
            car.valid(),
            all_valid(cars@),
            0 <= margin <= COORD_BOUND,
            thresh == 2 * car.length + margin,
            i <= cars@.len(),
            forall|m: int| 0 <= m < r@.len() ==> within_margin_box(cars@, car_i as int, margin as int, #[trigger] r@[m] as int) && r@[m] < i,
            forall|k: int| 0 <= k < i && #[trigger] within_margin_box(cars@, car_i as int, margin as int, k) ==> r@.contains(k as usize),
            forall|a: int, b: int| 0 <= a < b < r@.len() ==> #[trigger] r@[a] < #[trigger] r@[b],
        decreases cars@.len() - i,
    {
        let c = cars[i];
        assert(cars@[i as int].valid());
        let dx = c.x - car.x;
        let ghost prev = r@;
        if i != car_i && -thresh < dx && dx < thresh {
            let side_sep = range_dist(car.bounds.min_y, car.bounds.max_y, c.bounds.min_y, c.bounds.max_y);
            let long_sep = range_dist(car.bounds.min_x, car.bounds.max_x, c.bounds.min_x, c.bounds.max_x);
            if side_sep < margin && long_sep < margin {
                r.push(i);
                assert(r@[r@.len() - 1] == i);
            }
        }
        proof {
            assert forall|k: int| 0 <= k < i + 1 && #[trigger] within_margin_box(cars@, car_i as int, margin as int, k) implies r@.contains(k as usize) by {
                if k == i {
                    assert(r@[r@.len() - 1] == i);
                } else {
                    let w = choose|w: int| 0 <= w < prev.len() && prev[w] == k as usize;
                    assert(r@[w] == prev[w]);
                }
            }
        }
        i = i + 1;
    }
    r
}

/// The least of the given clearances that is under `margin`, if any;
/// `None` stands for a car found further away than the margin.
pub open spec fn is_min_clearance(dists: Seq<Option<i64>>, margin: int, r: Option<i64>) -> bool {
    match r {
        None => forall|m: int| 0 <= m < dists.len() ==> !(#[trigger] dists[m] matches Some(d) && d < margin),
        Some(v) => {
            &&& v < margin
            &&& exists|m: int| 0 <= m < dists.len() && #[trigger] dists[m] == Some(v)
            &&& forall|m: int| 0 <= m < dists.len() ==> (#[trigger] dists[m] matches Some(d) ==> v <= d)
        },
    }
}

/// The least clearance under `margin` among the exact clearances of the
/// candidates (zero for footprints that overlap), or `None` when the car is
/// safely clear of all of them.
pub fn min_clearance(dists: &Vec<Option<i64>>, margin: i64) -> (r: Option<i64>)
    ensures
        is_min_clearance(dists@, margin as int, r),
{
    let mut best: Option<i64> = None;
    let mut m: usize = 0;
    while m < dists.len()
        invariant
            m <= dists@.len(),
            is_min_clearance(dists@.subrange(0, m as int), margin as int, best),
        decreases dists@.len() - m,
    {
        let ghost prev = dists@.subrange(0, m as int);
        let ghost old_best = best;
        if let Some(d) = dists[m] {
            let bound = match best {
                None => margin,
                Some(b) => b,
            };
            if d < bound {
                best = Some(d);
            }
        }
        proof {
            let cur = dists@.subrange(0, m + 1);
            assert(cur =~= prev.push(dists@[m as int]));
            assert(forall|k: int| 0 <= k < m ==> cur[k] == prev[k]);
            if best is Some {
                if best == old_best {
                    let w = choose|w: int| 0 <= w < prev.len() && #[trigger] prev[w] == best;
                    assert(cur[w] == best);
                } else {
                    assert(cur[m as int] == best);
                }
            }
        }
        m = m + 1;
    }
    assert(dists@.subrange(0, m as int) =~= dists@);
    best
}

} // verus!
