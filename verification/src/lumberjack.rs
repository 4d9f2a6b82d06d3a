//! Path finding over the part of the world the robot has already seen: the
//! costed tile map, its neighbour relation, shortest walks, and the conversion
//! of a walk into moves.
use vstd::prelude::*;
use crate::world::{grid_view, Content, Direction, Tile};

verus! {

/// A position on the grid: (row, column).
pub type Coords = (usize, usize);

/// The positions a tile can be left towards; `None` where there is no known tile.
#[derive(Clone, Copy, Debug)]
pub struct Neighbors {
    pub up: Option<Coords>,
    pub down: Option<Coords>,
    pub left: Option<Coords>,
    pub right: Option<Coords>,
}

impl Neighbors {
    /// A tile with no neighbours yet.
    pub fn new() -> (r: Self)
        ensures
            r.up is None,
            r.down is None,
            r.left is None,
            r.right is None,
    {
        Self { up: None, down: None, left: None, right: None }
    }
}

/// What the path finder knows of one tile: the cost of entering it, its height,
/// and where it can be left towards.
#[derive(Clone, Copy, Debug)]
pub struct Contents {
    pub cost: usize,
    pub elevation: usize,
    pub neighbors: Neighbors,
}

impl Contents {
    pub fn create(cost: usize, elevation: usize, neighbors: Neighbors) -> (r: Self)
        ensures
            r == (Contents { cost, elevation, neighbors }),
    {
        Self { cost, elevation, neighbors }
    }
}

/// An entry of the search frontier: a tile reached by `path` (the tiles after
/// the start, in order) at total `cost`, standing at `elevation`.
#[derive(Debug)]
pub struct Node {
    pub coords: Coords,
    pub path: Vec<Coords>,
    pub cost: usize,
    pub elevation: usize,
}

impl Node {
    /// A frontier entry with an empty path.
    pub fn new(coords: Coords, cost: usize, elevation: usize) -> (r: Self)
        ensures
            r.coords == coords,
            r.path@ == Seq::<Coords>::empty(),
            r.cost == cost,
            r.elevation == elevation,
    {
        Self { coords, path: Vec::new(), cost, elevation }
    }

    pub fn create(coords: Coords, path: Vec<Coords>, cost: usize, elevation: usize) -> (r: Self)
        ensures
            r.coords == coords,
            r.path@ == path@,
            r.cost == cost,
            r.elevation == elevation,
    {
        Self { coords, path, cost, elevation }
    }
}

/// The known tiles, keyed by position: a `height` x `width` grid stored row by row.
pub struct TileMap {
    pub height: usize,
    pub width: usize,
    pub cells: Vec<Option<Contents>>,
}

impl TileMap {
    pub open spec fn wf(&self) -> bool {
        self.cells@.len() == self.height * self.width
    }

    pub open spec fn in_bounds(&self, c: Coords) -> bool {
        c.0 < self.height && c.1 < self.width
    }

    pub open spec fn index_of(&self, c: Coords) -> int {
        c.0 * self.width + c.1
    }

    /// The tile stored at `c`, if `c` is on the grid and known.
    pub open spec fn tile(&self, c: Coords) -> Option<Contents> {
        if self.in_bounds(c) {
            self.cells@[self.index_of(c)]
        } else {
            None
        }
    }

    /// The number of positions on the grid.
    pub open spec fn size(&self) -> int {
        self.cells@.len() as int
    }

    /// Returns the tile stored at `c`.
    pub fn get(&self, c: &Coords) -> (r: Option<Contents>)
        requires
            self.wf(),
        ensures
            r == self.tile(*c),
    {
        if c.0 < self.height && c.1 < self.width {
            let i = self.index(c);
            self.cells[i]
        } else {
            None
        }
    }

    /// The index of an on-grid position in `cells`.
    pub fn index(&self, c: &Coords) -> (i: usize)
        requires
            self.wf(),
            self.in_bounds(*c),
        ensures
            i == self.index_of(*c),
            i < self.cells@.len(),
    {
        let len = self.cells.len();
        proof {
            lemma_index_in_range(self.height as int, self.width as int, c.0 as int, c.1 as int);
        }
        c.0 * self.width + c.1
    }
}

/// Row-major indices of on-grid positions lie in the grid.
proof fn lemma_index_in_range(h: int, w: int, x: int, y: int)
    requires
        0 <= x < h,
        0 <= y < w,
    ensures
        0 <= x * w + y < h * w,
        x * w <= x * w + y,
{
    assert(0 <= x * w) by (nonlinear_arith)
        requires
            0 <= x,
            0 <= w,
    ;
    assert((x + 1) * w <= h * w) by (nonlinear_arith)
        requires
            x + 1 <= h,
            0 <= w,
    ;
    assert((x + 1) * w == x * w + w) by (nonlinear_arith);
}

/// Different on-grid positions have different row-major indices.
proof fn lemma_index_injective(w: int, a: Coords, b: Coords)
    requires
        a.1 < w,
        b.1 < w,
        a.0 * w + a.1 == b.0 * w + b.1,
    ensures
        a == b,
{
    let (x1, y1, x2, y2) = (a.0 as int, a.1 as int, b.0 as int, b.1 as int);
    if x1 < x2 {
        assert(x1 * w + w <= x2 * w) by (nonlinear_arith)
            requires
                x1 + 1 <= x2,
                0 <= w,
        ;
    } else if x2 < x1 {
        assert(x2 * w + w <= x1 * w) by (nonlinear_arith)
            requires
                x2 + 1 <= x1,
                0 <= w,
        ;
    }
}

/// The neighbour slots of a tile in the order the search visits them.
pub open spec fn neighbor_slots(n: Neighbors) -> Seq<Option<Coords>> {
    seq![n.up, n.right, n.left, n.down]
}

/// The slots that name a known tile, in order.
pub open spec fn known_targets(m: TileMap, slots: Seq<Option<Coords>>) -> Seq<Coords>
    decreases slots.len(),
{
    if slots.len() == 0 {
        Seq::empty()
    } else {
        let rest = known_targets(m, slots.drop_last());
        match slots.last() {
            Some(c) => if m.tile(c) is Some {
                rest.push(c)
            } else {
                rest
            },
            None => rest,
        }
    }
}

/// The known tiles that can be entered from `c`, in the order the search visits them.
pub open spec fn neighbor_coords(m: TileMap, c: Coords) -> Seq<Coords> {
    match m.tile(c) {
        Some(t) => known_targets(m, neighbor_slots(t.neighbors)),
        None => Seq::empty(),
    }
}

proof fn lemma_known_targets(m: TileMap, slots: Seq<Option<Coords>>)
    ensures
        known_targets(m, slots).len() <= slots.len(),
        forall|i: int|
            0 <= i < known_targets(m, slots).len() ==> (#[trigger] m.tile(
                known_targets(m, slots)[i],
            )) is Some,
    decreases slots.len(),
{
    if slots.len() > 0 {
        lemma_known_targets(m, slots.drop_last());
    }
}

/// Returns a frontier entry for each known tile that can be entered from
/// `coords`, in the order up, right, left, down; each carries that tile's
/// cost and elevation and the one-step path to it.
pub fn get_neighbors(coords: &Coords, map: &TileMap) -> (r: Vec<Node>)
    requires
        map.wf(),
    ensures
        r@.len() == neighbor_coords(*map, *coords).len(),
        r@.len() <= 4,
        forall|i: int|
            0 <= i < r@.len() ==> {
                let n = #[trigger] r@[i];
                &&& n.coords == neighbor_coords(*map, *coords)[i]
                &&& n.path@ == seq![n.coords]
                &&& map.tile(n.coords) is Some
                &&& n.cost == map.tile(n.coords).unwrap().cost
                &&& n.elevation == map.tile(n.coords).unwrap().elevation
            },
{
    let mut out: Vec<Node> = Vec::new();
    if let Some(content) = map.get(coords) {
        let neighbors = content.neighbors;
        let coords_vec = [neighbors.up, neighbors.right, neighbors.left, neighbors.down];
        let ghost slots = neighbor_slots(neighbors);
        let mut k: usize = 0;
        while k < 4
            invariant
                0 <= k <= 4,
                map.wf(),
                slots == neighbor_slots(neighbors),
                coords_vec@ == slots,
                map.tile(*coords) == Some(content),
                out@.len() == known_targets(*map, slots.take(k as int)).len(),
                forall|i: int|
                    0 <= i < out@.len() ==> {
                        let n = #[trigger] out@[i];
                        &&& n.coords == known_targets(*map, slots.take(k as int))[i]
                        &&& n.path@ == seq![n.coords]
                        &&& map.tile(n.coords) is Some
                        &&& n.cost == map.tile(n.coords).unwrap().cost
                        &&& n.elevation == map.tile(n.coords).unwrap().elevation
                    },
            decreases 4 - k,
        {
            assert(slots.take(k + 1).drop_last() =~= slots.take(k as int));
            if let Some(coord) = coords_vec[k] {
                if let Some(next) = map.get(&coord) {
                    let mut p: Vec<Coords> = Vec::new();
                    p.push(coord);
                    out.push(Node::create(coord, p, next.cost, next.elevation));
                }
            }
            k = k + 1;
        }
        assert(slots.take(4) =~= slots);
        proof {
            lemma_known_targets(*map, slots);
        }
    }
    out
}

/// The move that leads from `cur` to `next`, if they differ: rows are compared
/// first, then columns.
pub open spec fn step_direction(cur: Coords, next: Coords) -> Option<Direction> {
    if next.0 > cur.0 {
        Some(Direction::Down)
    } else if next.0 < cur.0 {
        Some(Direction::Up)
    } else if next.1 > cur.1 {
        Some(Direction::Right)
    } else if next.1 < cur.1 {
        Some(Direction::Left)
    } else {
        None
    }
}

/// The moves for the consecutive pairs of `tiles`, skipping pairs of equal positions.
pub open spec fn moves_along(tiles: Seq<Coords>) -> Seq<Direction>
    decreases tiles.len(),
{
    if tiles.len() < 2 {
        Seq::empty()
    } else {
        let rest = moves_along(tiles.drop_last());
        match step_direction(tiles[tiles.len() - 2], tiles.last()) {
            Some(d) => rest.push(d),
            None => rest,
        }
    }
}

/// Returns the moves that follow `path` from `start`: one move per step
/// between consecutive positions of `start` followed by `path`.
pub fn path_to_directions(start: Coords, path: Vec<Coords>) -> (r: Vec<Direction>)
    ensures
        r@ == moves_along(seq![start] + path@),
{
    let mut directions: Vec<Direction> = Vec::new();
    let ghost full = seq![start] + path@;
    let mut current = start;
    let mut i: usize = 0;
    while i < path.len()
        invariant
            0 <= i <= path@.len(),
            full == seq![start] + path@,
            current == full[i as int],
            directions@ == moves_along(full.take(i + 1)),
        decreases path@.len() - i,
    {
        let next = path[i];
        assert(full.take(i + 2).drop_last() =~= full.take(i + 1));
        if next.0 > current.0 {
            directions.push(Direction::Down);
        } else if next.0 < current.0 {
            directions.push(Direction::Up);
        } else if next.1 > current.1 {
            directions.push(Direction::Right);
        } else if next.1 < current.1 {
            directions.push(Direction::Left);
        }
        current = next;
        i = i + 1;
    }
    assert(full.take(path@.len() as int + 1) =~= full);
    directions
}


/// The position a walk from `start` along `p` ends at.
pub open spec fn walk_end(start: Coords, p: Seq<Coords>) -> Coords {
    if p.len() == 0 {
        start
    } else {
        p.last()
    }
}

/// `v` can be entered from `u` in one step.
pub open spec fn is_edge(m: TileMap, u: Coords, v: Coords) -> bool {
    neighbor_coords(m, u).contains(v)
}

pub open spec fn abs_diff(a: int, b: int) -> int {
    if a >= b {
        a - b
    } else {
        b - a
    }
}

/// The cost of stepping from `u` onto `v`: the cost of `v` plus the height difference.
pub open spec fn step_weight(m: TileMap, u: Coords, v: Coords) -> int {
    m.tile(v).unwrap().cost + abs_diff(
        m.tile(v).unwrap().elevation as int,
        m.tile(u).unwrap().elevation as int,
    )
}

/// `p` is a walk from the known tile `start`, each position entered from the previous one.
pub open spec fn valid_walk(m: TileMap, start: Coords, p: Seq<Coords>) -> bool
    decreases p.len(),
{
    if p.len() == 0 {
        m.tile(start) is Some
    } else {
        valid_walk(m, start, p.drop_last()) && is_edge(m, walk_end(start, p.drop_last()), p.last())
    }
}

/// The total cost of the steps of walk `p` from `start`.
pub open spec fn walk_cost(m: TileMap, start: Coords, p: Seq<Coords>) -> int
    decreases p.len(),
{
    if p.len() == 0 {
        0
    } else {
        walk_cost(m, start, p.drop_last()) + step_weight(m, walk_end(start, p.drop_last()), p.last())
    }
}

/// Some walk leads from `start` to `dest`.
pub open spec fn reachable(m: TileMap, start: Coords, dest: Coords) -> bool {
    exists|q: Seq<Coords>| #[trigger] valid_walk(m, start, q) && walk_end(start, q) == dest
}

/// `p` leads from `start` to `dest` and no walk between them costs less.
pub open spec fn is_shortest_walk(m: TileMap, start: Coords, dest: Coords, p: Seq<Coords>) -> bool {
    &&& valid_walk(m, start, p)
    &&& walk_end(start, p) == dest
    &&& forall|q: Seq<Coords>|
        #[trigger] valid_walk(m, start, q) && walk_end(start, q) == dest ==> walk_cost(m, start, p)
            <= walk_cost(m, start, q)
}

/// The largest cost or elevation a tile may have so that no walk cost overflows.
pub open spec fn tile_limit(m: TileMap) -> int {
    usize::MAX as int / (2 * m.size() + 2)
}

/// Every known tile's cost and elevation are within `tile_limit`.
pub open spec fn weights_bounded(m: TileMap) -> bool {
    forall|c: Coords|
        #[trigger] m.tile(c) is Some ==> m.tile(c).unwrap().cost <= tile_limit(m)
            && m.tile(c).unwrap().elevation <= tile_limit(m)
}

proof fn lemma_limit(m: TileMap)
    requires
        m.size() >= 0,
    ensures
        tile_limit(m) >= 0,
        2 * tile_limit(m) * (m.size() + 1) <= usize::MAX,
        forall|k: int| 0 <= k <= m.size() ==> #[trigger] (k * (2 * tile_limit(m))) <= m.size() * (2 * tile_limit(m)),
        m.size() * (2 * tile_limit(m)) + 2 * tile_limit(m) <= usize::MAX,
{
    let n = m.size();
    let l = tile_limit(m);
    let d = 2 * n + 2;
    assert(l * d <= usize::MAX) by (nonlinear_arith)
        requires
            l == usize::MAX as int / d,
            d > 0,
    ;
    assert(l >= 0) by (nonlinear_arith)
        requires
            l == usize::MAX as int / d,
            d > 0,
    ;
    assert(2 * l * (n + 1) == l * d) by (nonlinear_arith)
        requires
            d == 2 * n + 2,
    ;
    assert forall|k: int| 0 <= k <= n implies #[trigger] (k * (2 * l)) <= n * (2 * l) by {
        assert(k * (2 * l) <= n * (2 * l)) by (nonlinear_arith)
            requires
                0 <= k <= n,
                l >= 0,
        ;
    }
    assert(n * (2 * l) + 2 * l == 2 * l * (n + 1)) by (nonlinear_arith);
}

proof fn lemma_walk_ends_known(m: TileMap, start: Coords, p: Seq<Coords>)
    requires
        valid_walk(m, start, p),
    ensures
        m.tile(walk_end(start, p)) is Some,
        m.tile(start) is Some,
    decreases p.len(),
{
    if p.len() > 0 {
        lemma_walk_ends_known(m, start, p.drop_last());
        let u = walk_end(start, p.drop_last());
        let k = choose|k: int| 0 <= k < neighbor_coords(m, u).len() && neighbor_coords(m, u)[k] == p.last();
        lemma_neighbor_coords_known(m, u);
    }
}

proof fn lemma_neighbor_coords_known(m: TileMap, u: Coords)
    ensures
        neighbor_coords(m, u).len() <= 4,
        forall|i: int|
            0 <= i < neighbor_coords(m, u).len() ==> (#[trigger] m.tile(neighbor_coords(m, u)[i])) is Some,
{
    match m.tile(u) {
        Some(t) => lemma_known_targets(m, neighbor_slots(t.neighbors)),
        None => {},
    }
}

proof fn lemma_step_weight_bound(m: TileMap, u: Coords, v: Coords)
    requires
        weights_bounded(m),
        m.tile(u) is Some,
        m.tile(v) is Some,
    ensures
        0 <= step_weight(m, u, v) <= 2 * tile_limit(m),
{
    assert(m.tile(u) is Some);
    assert(m.tile(v) is Some);
}

proof fn lemma_walk_cost_bound(m: TileMap, start: Coords, p: Seq<Coords>)
    requires
        weights_bounded(m),
        valid_walk(m, start, p),
    ensures
        0 <= walk_cost(m, start, p) <= p.len() * (2 * tile_limit(m)),
    decreases p.len(),
{
    lemma_limit(m);
    if p.len() > 0 {
        let q = p.drop_last();
        lemma_walk_cost_bound(m, start, q);
        lemma_walk_ends_known(m, start, q);
        lemma_walk_ends_known(m, start, p);
        lemma_step_weight_bound(m, walk_end(start, q), p.last());
        let l = 2 * tile_limit(m);
        assert(q.len() * l + l == p.len() * l) by (nonlinear_arith)
            requires
                p.len() == q.len() + 1,
        ;
    }
}

/// `a` comes after `b` in row-major order.
pub open spec fn coords_after(a: Coords, b: Coords) -> bool {
    a.0 > b.0 || (a.0 == b.0 && a.1 > b.1)
}

/// The frontier entry `e` is served no later than `n`: it is cheaper, or as
/// cheap and at the same or a greater position.
pub open spec fn served_no_later(e: Node, n: Node) -> bool {
    e.cost < n.cost || (e.cost == n.cost && (e.coords == n.coords || coords_after(e.coords, n.coords)))
}

/// Removes and returns the frontier entry that is served first: the cheapest,
/// and among equally cheap ones the one at the largest position.
fn pop_best(heap: &mut Vec<Node>) -> (e: Node)
    requires
        old(heap)@.len() > 0,
    ensures
        exists|i: int|
            0 <= i < old(heap)@.len() && final(heap)@ == old(heap)@.remove(i) && e == old(heap)@[i],
        forall|j: int| 0 <= j < old(heap)@.len() ==> served_no_later(e, #[trigger] old(heap)@[j]),
{
    let mut best: usize = 0;
    let mut j: usize = 1;
    while j < heap.len()
        invariant
            0 <= best < j <= heap@.len(),
            heap@ == old(heap)@,
            forall|k: int|
                0 <= k < j ==> heap@[best as int].cost < (#[trigger] heap@[k]).cost || (heap@[best as int].cost
                    == heap@[k].cost && (heap@[best as int].coords == heap@[k].coords || coords_after(
                    heap@[best as int].coords,
                    heap@[k].coords,
                ))),
        decreases heap@.len() - j,
    {
        let (bc, bx, by) = (heap[best].cost, heap[best].coords.0, heap[best].coords.1);
        let (jc, jx, jy) = (heap[j].cost, heap[j].coords.0, heap[j].coords.1);
        if jc < bc || (jc == bc && (jx > bx || (jx == bx && jy > by))) {
            best = j;
        }
        j = j + 1;
    }
    heap.remove(best)
}

/// Returns a copy of a walk.
fn copy_walk(p: &Vec<Coords>) -> (r: Vec<Coords>)
    ensures
        r@ == p@,
{
    let mut r: Vec<Coords> = Vec::new();
    let mut i: usize = 0;
    while i < p.len()
        invariant
            0 <= i <= p@.len(),
            r@ == p@.take(i as int),
        decreases p@.len() - i,
    {
        assert(p@.take(i + 1) =~= p@.take(i as int).push(p@[i as int]));
        r.push(p[i]);
        i = i + 1;
    }
    assert(p@.take(p@.len() as int) =~= p@);
    r
}

/// Returns `|a - b|`.
pub fn elevation_gap(a: usize, b: usize) -> (r: usize)
    ensures
        r == abs_diff(a as int, b as int),
{
    if a >= b {
        a - b
    } else {
        b - a
    }
}


/// No walk costs less than nothing.
proof fn lemma_walk_cost_nonneg(m: TileMap, start: Coords, p: Seq<Coords>)
    ensures
        walk_cost(m, start, p) >= 0,
    decreases p.len(),
{
    if p.len() > 0 {
        lemma_walk_cost_nonneg(m, start, p.drop_last());
    }
}

/// A frontier entry records a walk from `start` to its position and that walk's cost.
pub open spec fn entry_ok(m: TileMap, start: Coords, e: Node, dist: Seq<usize>, settled: Set<int>) -> bool {
    &&& m.tile(e.coords) is Some
    &&& valid_walk(m, start, e.path@)
    &&& walk_end(start, e.path@) == e.coords
    &&& walk_cost(m, start, e.path@) == e.cost
    &&& e.elevation == m.tile(e.coords).unwrap().elevation
    &&& e.cost >= dist[m.index_of(e.coords)]
    &&& e.path@.len() <= settled.len()
    &&& (settled.contains(m.index_of(e.coords)) ==> e.cost > dist[m.index_of(e.coords)])
}

/// No walk to `c` is cheaper than `dist` records.
pub open spec fn optimal_at(m: TileMap, start: Coords, dist: Seq<usize>, c: Coords) -> bool {
    forall|q: Seq<Coords>|
        #[trigger] valid_walk(m, start, q) && walk_end(start, q) == c ==> dist[m.index_of(c)]
            <= walk_cost(m, start, q)
}

/// Every step out of `c` has been taken into account in `dist`.
pub open spec fn relaxed_at(m: TileMap, dist: Seq<usize>, c: Coords) -> bool {
    forall|v: Coords|
        #[trigger] is_edge(m, c, v) ==> dist[m.index_of(v)] <= dist[m.index_of(c)] + step_weight(
            m,
            c,
            v,
        )
}

/// What holds of the settled tiles; `pending` is the tile whose steps are being relaxed.
#[verifier::opaque]
pub open spec fn settled_ok(
    m: TileMap,
    start: Coords,
    dist: Seq<usize>,
    settled: Set<int>,
    pending: Option<Coords>,
) -> bool {
    forall|c: Coords|
        m.in_bounds(c) && #[trigger] settled.contains(m.index_of(c)) ==> {
            &&& m.tile(c) is Some
            &&& optimal_at(m, start, dist, c)
            &&& dist[m.index_of(c)] <= (m.size() - 1) * (2 * tile_limit(m))
            &&& (pending != Some(c) ==> relaxed_at(m, dist, c))
        }
}

/// What holds of the search state between two frontier pops.
#[verifier::opaque]
pub open spec fn frontier_ok(
    m: TileMap,
    start: Coords,
    dest: Coords,
    heap: Seq<Node>,
    dist: Seq<usize>,
    settled: Set<int>,
) -> bool {
    &&& m.wf()
    &&& weights_bounded(m)
    &&& m.tile(start) is Some
    &&& dist.len() == m.size()
    &&& settled.finite()
    &&& forall|i: int| #[trigger] settled.contains(i) ==> 0 <= i < m.size()
    &&& forall|j: int| 0 <= j < heap.len() ==> entry_ok(m, start, #[trigger] heap[j], dist, settled)
    &&& forall|j: int, k: int|
        0 <= j < heap.len() && 0 <= k < heap.len() && j != k && (#[trigger] heap[j]).coords
            == (#[trigger] heap[k]).coords ==> heap[j].cost != heap[k].cost
    &&& forall|c: Coords|
        m.in_bounds(c) && #[trigger] dist[m.index_of(c)] < usize::MAX && !settled.contains(
            m.index_of(c),
        ) ==> exists|j: int|
            0 <= j < heap.len() && (#[trigger] heap[j]).coords == c && heap[j].cost == dist[m.index_of(
                c,
            )]
    &&& dist[m.index_of(start)] == 0
    &&& (m.in_bounds(dest) ==> !settled.contains(m.index_of(dest)))
}

proof fn lemma_tile_in_bounds(m: TileMap, c: Coords)
    requires
        m.wf(),
        m.tile(c) is Some,
    ensures
        m.in_bounds(c),
        0 <= m.index_of(c) < m.size(),
{
    lemma_index_in_range(m.height as int, m.width as int, c.0 as int, c.1 as int);
}

/// A settled set that misses one on-grid position has fewer elements than the grid.
proof fn lemma_settled_len(m: TileMap, settled: Set<int>, missing: int)
    requires
        settled.finite(),
        forall|i: int| #[trigger] settled.contains(i) ==> 0 <= i < m.size(),
        0 <= missing < m.size(),
        !settled.contains(missing),
    ensures
        settled.len() <= m.size() - 1,
{
    vstd::set_lib::lemma_int_range(0, m.size());
    let all = vstd::set_lib::set_int_range(0, m.size());
    assert(settled.subset_of(all.remove(missing)));
    vstd::set_lib::lemma_len_subset(settled, all.remove(missing));
}

/// Any walk to a tile that is not settled is matched by a frontier entry that
/// costs no more than the walk.
proof fn lemma_frontier(
    m: TileMap,
    start: Coords,
    dest: Coords,
    heap: Seq<Node>,
    dist: Seq<usize>,
    settled: Set<int>,
    q: Seq<Coords>,
)
    requires
        frontier_ok(m, start, dest, heap, dist, settled),
        settled_ok(m, start, dist, settled, None),
        valid_walk(m, start, q),
        !settled.contains(m.index_of(walk_end(start, q))),
    ensures
        exists|j: int| 0 <= j < heap.len() && #[trigger] heap[j].cost <= walk_cost(m, start, q),
    decreases q.len(),
{
    reveal(frontier_ok);
    lemma_walk_ends_known(m, start, q);
    let y = walk_end(start, q);
    lemma_tile_in_bounds(m, y);
    lemma_limit(m);
    if q.len() == 0 {
        assert(dist[m.index_of(y)] < usize::MAX);
        let j = choose|j: int|
            0 <= j < heap.len() && (#[trigger] heap[j]).coords == y && heap[j].cost == dist[m.index_of(
                y,
            )];
        assert(heap[j].cost <= walk_cost(m, start, q));
    } else {
        let q2 = q.drop_last();
        let x = walk_end(start, q2);
        lemma_walk_ends_known(m, start, q2);
        lemma_tile_in_bounds(m, x);
        lemma_step_weight_bound(m, x, y);
        lemma_walk_cost_bound(m, start, q2);
        if settled.contains(m.index_of(x)) {
            reveal(settled_ok);
            assert(optimal_at(m, start, dist, x));
            assert(valid_walk(m, start, q2));
            assert(dist[m.index_of(x)] <= walk_cost(m, start, q2));
            let l = 2 * tile_limit(m);
            assert((m.size() - 1) * l + l == m.size() * l) by (nonlinear_arith);
            assert(relaxed_at(m, dist, x));
            assert(is_edge(m, x, y));
            assert(dist[m.index_of(y)] <= dist[m.index_of(x)] + step_weight(m, x, y));
            assert(dist[m.index_of(y)] < usize::MAX);
            let j = choose|j: int|
                0 <= j < heap.len() && (#[trigger] heap[j]).coords == y && heap[j].cost == dist[m.index_of(
                    y,
                )];
            assert(heap[j].cost <= walk_cost(m, start, q));
        } else {
            lemma_frontier(m, start, dest, heap, dist, settled, q2);
            let j = choose|j: int| 0 <= j < heap.len() && #[trigger] heap[j].cost <= walk_cost(m, start, q2);
            assert(heap[j].cost <= walk_cost(m, start, q));
        }
    }
}


/// Dropping a frontier entry that is more expensive than the best known cost keeps the search state.
proof fn lemma_drop_stale(
    m: TileMap,
    start: Coords,
    dest: Coords,
    heap: Seq<Node>,
    dist: Seq<usize>,
    settled: Set<int>,
    i: int,
)
    requires
        frontier_ok(m, start, dest, heap, dist, settled),
        0 <= i < heap.len(),
        heap[i].cost > dist[m.index_of(heap[i].coords)],
    ensures
        frontier_ok(m, start, dest, heap.remove(i), dist, settled),
{
    reveal(frontier_ok);
    let h2 = heap.remove(i);
    assert forall|j: int| 0 <= j < h2.len() implies entry_ok(m, start, #[trigger] h2[j], dist, settled) by {
        if j < i {
            assert(h2[j] == heap[j]);
        } else {
            assert(h2[j] == heap[j + 1]);
        }
    }
    assert forall|j: int, k: int|
        0 <= j < h2.len() && 0 <= k < h2.len() && j != k && (#[trigger] h2[j]).coords
            == (#[trigger] h2[k]).coords implies h2[j].cost != h2[k].cost by {
        let jj = if j < i { j } else { j + 1 };
        let kk = if k < i { k } else { k + 1 };
        assert(h2[j] == heap[jj]);
        assert(h2[k] == heap[kk]);
    }
    assert forall|c: Coords|
        m.in_bounds(c) && #[trigger] dist[m.index_of(c)] < usize::MAX && !settled.contains(
            m.index_of(c),
        ) implies exists|j: int|
        0 <= j < h2.len() && (#[trigger] h2[j]).coords == c && h2[j].cost == dist[m.index_of(c)] by {
        let j = choose|j: int|
            0 <= j < heap.len() && (#[trigger] heap[j]).coords == c && heap[j].cost == dist[m.index_of(
                c,
            )];
        assert(j != i);
        if j < i {
            assert(h2[j] == heap[j]);
        } else {
            assert(h2[j - 1] == heap[j]);
        }
    }
}

/// Popping the cheapest entry of a tile that is not yet settled settles that
/// tile: its recorded cost is the cheapest walk to it.
proof fn lemma_settle(
    m: TileMap,
    start: Coords,
    dest: Coords,
    heap: Seq<Node>,
    dist: Seq<usize>,
    settled: Set<int>,
    i: int,
)
    requires
        frontier_ok(m, start, dest, heap, dist, settled),
        settled_ok(m, start, dist, settled, None),
        0 <= i < heap.len(),
        forall|j: int| 0 <= j < heap.len() ==> heap[i].cost <= #[trigger] heap[j].cost,
        heap[i].cost <= dist[m.index_of(heap[i].coords)],
        heap[i].coords != dest,
    ensures
        !settled.contains(m.index_of(heap[i].coords)),
        heap[i].cost == dist[m.index_of(heap[i].coords)],
        m.tile(heap[i].coords) is Some,
        valid_walk(m, start, heap[i].path@),
        walk_end(start, heap[i].path@) == heap[i].coords,
        walk_cost(m, start, heap[i].path@) == heap[i].cost,
        heap[i].elevation == m.tile(heap[i].coords).unwrap().elevation,
        heap[i].path@.len() <= settled.len() <= m.size() - 1,
        settled.insert(m.index_of(heap[i].coords)).len() == settled.len() + 1,
        heap[i].cost <= (m.size() - 1) * (2 * tile_limit(m)),
        frontier_ok(
            m,
            start,
            dest,
            heap.remove(i),
            dist,
            settled.insert(m.index_of(heap[i].coords)),
        ),
        settled_ok(
            m,
            start,
            dist,
            settled.insert(m.index_of(heap[i].coords)),
            Some(heap[i].coords),
        ),
{
    reveal(frontier_ok);
    let e = heap[i];
    let u = e.coords;
    let ui = m.index_of(u);
    let s2 = settled.insert(ui);
    let h2 = heap.remove(i);
    assert(entry_ok(m, start, e, dist, settled));
    lemma_tile_in_bounds(m, u);
    lemma_settled_len(m, settled, ui);
    lemma_walk_cost_bound(m, start, e.path@);
    lemma_limit(m);
    let l = 2 * tile_limit(m);
    assert(e.path@.len() * l <= (m.size() - 1) * l) by (nonlinear_arith)
        requires
            e.path@.len() <= m.size() - 1,
            l >= 0,
    ;
    assert(optimal_at(m, start, dist, u)) by {
        assert forall|q: Seq<Coords>|
            #[trigger] valid_walk(m, start, q) && walk_end(start, q) == u implies dist[m.index_of(u)]
            <= walk_cost(m, start, q) by {
            lemma_frontier(m, start, dest, heap, dist, settled, q);
            let j = choose|j: int| 0 <= j < heap.len() && #[trigger] heap[j].cost <= walk_cost(m, start, q);
            assert(heap[i].cost <= heap[j].cost);
        }
    }
    assert forall|j: int| 0 <= j < h2.len() implies entry_ok(m, start, #[trigger] h2[j], dist, s2) by {
        let jj = if j < i { j } else { j + 1 };
        assert(h2[j] == heap[jj]);
        assert(entry_ok(m, start, heap[jj], dist, settled));
        lemma_tile_in_bounds(m, h2[j].coords);
        if m.index_of(h2[j].coords) == ui {
            lemma_index_injective(m.width as int, h2[j].coords, u);
            assert(heap[jj].cost != heap[i].cost);
        }
    }
    assert forall|j: int, k: int|
        0 <= j < h2.len() && 0 <= k < h2.len() && j != k && (#[trigger] h2[j]).coords
            == (#[trigger] h2[k]).coords implies h2[j].cost != h2[k].cost by {
        let jj = if j < i { j } else { j + 1 };
        let kk = if k < i { k } else { k + 1 };
        assert(h2[j] == heap[jj]);
        assert(h2[k] == heap[kk]);
    }
    assert forall|c: Coords|
        m.in_bounds(c) && #[trigger] dist[m.index_of(c)] < usize::MAX && !s2.contains(
            m.index_of(c),
        ) implies exists|j: int|
        0 <= j < h2.len() && (#[trigger] h2[j]).coords == c && h2[j].cost == dist[m.index_of(c)] by {
        let j = choose|j: int|
            0 <= j < heap.len() && (#[trigger] heap[j]).coords == c && heap[j].cost == dist[m.index_of(
                c,
            )];
        assert(c != u);
        assert(j != i);
        if j < i {
            assert(h2[j] == heap[j]);
        } else {
            assert(h2[j - 1] == heap[j]);
        }
    }
    assert forall|x: int| #[trigger] s2.contains(x) implies 0 <= x < m.size() by {}
    if m.in_bounds(dest) {
        if m.index_of(dest) == ui {
            lemma_index_injective(m.width as int, dest, u);
        }
    }
    reveal(settled_ok);
    assert forall|c: Coords| m.in_bounds(c) && #[trigger] s2.contains(m.index_of(c)) implies {
        &&& m.tile(c) is Some
        &&& optimal_at(m, start, dist, c)
        &&& dist[m.index_of(c)] <= (m.size() - 1) * (2 * tile_limit(m))
        &&& (Some(u) != Some(c) ==> relaxed_at(m, dist, c))
    } by {
        if m.index_of(c) == ui {
            lemma_index_injective(m.width as int, c, u);
        } else {
            assert(settled.contains(m.index_of(c)));
        }
    }
}

/// Lowering the recorded cost of `v` to the cost of the walk through `u`, and
/// adding that walk to the frontier, keeps the search state.
proof fn lemma_relax_push(
    m: TileMap,
    start: Coords,
    dest: Coords,
    heap: Seq<Node>,
    dist: Seq<usize>,
    settled: Set<int>,
    u: Coords,
    up: Seq<Coords>,
    ucost: int,
    v: Coords,
    node: Node,
)
    requires
        frontier_ok(m, start, dest, heap, dist, settled),
        settled_ok(m, start, dist, settled, Some(u)),
        settled.contains(m.index_of(u)),
        m.tile(u) is Some,
        valid_walk(m, start, up),
        walk_end(start, up) == u,
        walk_cost(m, start, up) == ucost,
        dist[m.index_of(u)] == ucost,
        up.len() + 1 <= settled.len(),
        is_edge(m, u, v),
        node.coords == v,
        node.path@ == up.push(v),
        node.cost == ucost + step_weight(m, u, v),
        node.elevation == m.tile(v).unwrap().elevation,
        node.cost < dist[m.index_of(v)],
    ensures
        !settled.contains(m.index_of(v)),
        v != u,
        m.tile(v) is Some,
        frontier_ok(
            m,
            start,
            dest,
            heap.push(node),
            dist.update(m.index_of(v), node.cost as usize),
            settled,
        ),
        settled_ok(m, start, dist.update(m.index_of(v), node.cost as usize), settled, Some(u)),
        dist.update(m.index_of(v), node.cost as usize)[m.index_of(u)] == ucost,
{
    reveal(frontier_ok);
    reveal(settled_ok);
    let vi = m.index_of(v);
    let d2 = dist.update(vi, node.cost as usize);
    let h2 = heap.push(node);
    let np = up.push(v);
    assert(np.drop_last() =~= up);
    assert(valid_walk(m, start, np));
    assert(walk_cost(m, start, np) == node.cost);
    lemma_walk_ends_known(m, start, np);
    lemma_tile_in_bounds(m, v);
    lemma_tile_in_bounds(m, u);
    lemma_tile_in_bounds(m, start);
    if settled.contains(vi) {
        assert(optimal_at(m, start, dist, v));
        assert(valid_walk(m, start, np) && walk_end(start, np) == v);
        assert(false);
    }
    if v == u {
        assert(false);
    }
    assert(vi != m.index_of(u)) by {
        if vi == m.index_of(u) {
            lemma_index_injective(m.width as int, v, u);
        }
    }
    assert(vi != m.index_of(start)) by {
        if vi == m.index_of(start) {
            lemma_index_injective(m.width as int, v, start);
        }
    }
    assert forall|j: int| 0 <= j < h2.len() implies entry_ok(m, start, #[trigger] h2[j], d2, settled) by {
        if j < heap.len() {
            assert(h2[j] == heap[j]);
            assert(entry_ok(m, start, heap[j], dist, settled));
            lemma_tile_in_bounds(m, heap[j].coords);
            if m.index_of(heap[j].coords) == vi {
                lemma_index_injective(m.width as int, heap[j].coords, v);
            }
        } else {
            assert(h2[j] == node);
        }
    }
    assert forall|j: int, k: int|
        0 <= j < h2.len() && 0 <= k < h2.len() && j != k && (#[trigger] h2[j]).coords
            == (#[trigger] h2[k]).coords implies h2[j].cost != h2[k].cost by {
        if j < heap.len() && k < heap.len() {
            assert(h2[j] == heap[j]);
            assert(h2[k] == heap[k]);
        } else if j < heap.len() {
            assert(h2[j] == heap[j]);
            assert(entry_ok(m, start, heap[j], dist, settled));
        } else {
            assert(h2[k] == heap[k]);
            assert(entry_ok(m, start, heap[k], dist, settled));
        }
    }
    assert forall|c: Coords|
        m.in_bounds(c) && #[trigger] d2[m.index_of(c)] < usize::MAX && !settled.contains(
            m.index_of(c),
        ) implies exists|j: int|
        0 <= j < h2.len() && (#[trigger] h2[j]).coords == c && h2[j].cost == d2[m.index_of(c)] by {
        lemma_index_in_range(m.height as int, m.width as int, c.0 as int, c.1 as int);
        if c == v {
            assert(h2[heap.len() as int] == node);
        } else {
            if m.index_of(c) == vi {
                lemma_index_injective(m.width as int, c, v);
            }
            assert(dist[m.index_of(c)] < usize::MAX);
            let j = choose|j: int|
                0 <= j < heap.len() && (#[trigger] heap[j]).coords == c && heap[j].cost == dist[m.index_of(
                    c,
                )];
            assert(h2[j] == heap[j]);
        }
    }
    assert forall|c: Coords| m.in_bounds(c) && #[trigger] settled.contains(m.index_of(c)) implies {
        &&& m.tile(c) is Some
        &&& optimal_at(m, start, d2, c)
        &&& d2[m.index_of(c)] <= (m.size() - 1) * (2 * tile_limit(m))
        &&& (Some(u) != Some(c) ==> relaxed_at(m, d2, c))
    } by {
        lemma_index_in_range(m.height as int, m.width as int, c.0 as int, c.1 as int);
        if m.index_of(c) == vi {
            lemma_index_injective(m.width as int, c, v);
        }
        assert(d2[m.index_of(c)] == dist[m.index_of(c)]);
        if Some(u) != Some(c) {
            assert(relaxed_at(m, dist, c));
            assert forall|w: Coords| #[trigger] is_edge(m, c, w) implies d2[m.index_of(w)]
                <= d2[m.index_of(c)] + step_weight(m, c, w) by {
                lemma_neighbor_coords_known(m, c);
                let k = choose|k: int|
                    0 <= k < neighbor_coords(m, c).len() && neighbor_coords(m, c)[k] == w;
                assert(m.tile(w) is Some);
                lemma_tile_in_bounds(m, w);
                assert(dist[m.index_of(w)] <= dist[m.index_of(c)] + step_weight(m, c, w));
            }
        }
    }
}

/// Once every step out of `u` has been relaxed, `u` no longer needs to be set apart.
proof fn lemma_finish_relax(
    m: TileMap,
    start: Coords,
    dist: Seq<usize>,
    settled: Set<int>,
    u: Coords,
)
    requires
        settled_ok(m, start, dist, settled, Some(u)),
        forall|k: int|
            0 <= k < neighbor_coords(m, u).len() ==> dist[m.index_of(
                #[trigger] neighbor_coords(m, u)[k],
            )] <= dist[m.index_of(u)] + step_weight(m, u, neighbor_coords(m, u)[k]),
    ensures
        settled_ok(m, start, dist, settled, None),
{
    reveal(settled_ok);
    assert forall|c: Coords| m.in_bounds(c) && #[trigger] settled.contains(m.index_of(c)) implies {
        &&& m.tile(c) is Some
        &&& optimal_at(m, start, dist, c)
        &&& dist[m.index_of(c)] <= (m.size() - 1) * (2 * tile_limit(m))
        &&& (None::<Coords> != Some(c) ==> relaxed_at(m, dist, c))
    } by {
        if c == u {
            assert forall|v: Coords| #[trigger] is_edge(m, c, v) implies dist[m.index_of(v)]
                <= dist[m.index_of(c)] + step_weight(m, c, v) by {
                let k = choose|k: int|
                    0 <= k < neighbor_coords(m, u).len() && neighbor_coords(m, u)[k] == v;
            }
        }
    }
}


/// Returns the cheapest walk from `start` to `dest` over the known tiles (the
/// positions after `start`, in order), or `None` when no walk leads there.
/// The frontier is served cheapest first, ties going to the larger position.
pub fn shortest_path(map: &TileMap, start: Coords, dest: Coords) -> (r: Option<Vec<Coords>>)
    requires
        map.wf(),
        weights_bounded(*map),
    ensures
        r is Some <==> reachable(*map, start, dest),
        r matches Some(p) ==> is_shortest_walk(*map, start, dest, p@),
        map.tile(start) is Some && start == dest ==> (r matches Some(p) && p@.len() == 0),
{
    let start_tile = map.get(&start);
    if start_tile.is_none() {
        proof {
            if reachable(*map, start, dest) {
                let q = choose|q: Seq<Coords>| #[trigger] valid_walk(*map, start, q) && walk_end(start, q) == dest;
                lemma_walk_ends_known(*map, start, q);
            }
        }
        return None;
    }
    if start.0 == dest.0 && start.1 == dest.1 {
        let p: Vec<Coords> = Vec::new();
        proof {
            assert(valid_walk(*map, start, p@));
            assert(walk_end(start, p@) == dest);
            assert forall|q: Seq<Coords>|
                #[trigger] valid_walk(*map, start, q) && walk_end(start, q) == dest implies walk_cost(*map, start, p@)
                <= walk_cost(*map, start, q) by {
                lemma_walk_cost_nonneg(*map, start, q);
            }
        }
        return Some(p);
    }
    let st = start_tile.unwrap();
    let n = map.cells.len();
    let mut dist: Vec<usize> = Vec::new();
    while dist.len() < n
        invariant
            dist@.len() <= n,
            n == map.cells@.len(),
            forall|i: int| 0 <= i < dist@.len() ==> #[trigger] dist@[i] == usize::MAX,
        decreases n - dist@.len(),
    {
        dist.push(usize::MAX);
    }
    let si = map.index(&start);
    dist.set(si, 0);
    let mut heap: Vec<Node> = Vec::new();
    heap.push(Node::new(start, 0, st.elevation));
    let ghost mut settled: Set<int> = Set::empty();
    proof {
        reveal(frontier_ok);
        reveal(settled_ok);
        lemma_tile_in_bounds(*map, start);
        assert(walk_end(start, heap@[0].path@) == start);
        assert(entry_ok(*map, start, heap@[0], dist@, settled));
        assert forall|c: Coords|
            map.in_bounds(c) && #[trigger] dist@[map.index_of(c)] < usize::MAX && !settled.contains(
                map.index_of(c),
            ) implies exists|j: int|
            0 <= j < heap@.len() && (#[trigger] heap@[j]).coords == c && heap@[j].cost
                == dist@[map.index_of(c)] by {
            lemma_index_in_range(map.height as int, map.width as int, c.0 as int, c.1 as int);
            if map.index_of(c) != map.index_of(start) {
                assert(dist@[map.index_of(c)] == usize::MAX);
            } else {
                lemma_index_injective(map.width as int, c, start);
                assert(heap@[0].coords == c);
            }
        }
        assert(frontier_ok(*map, start, dest, heap@, dist@, settled));
    }
    while heap.len() > 0
        invariant
            start != dest,
            frontier_ok(*map, start, dest, heap@, dist@, settled),
            settled_ok(*map, start, dist@, settled, None),
            settled.len() <= map.size(),
        decreases 5 * (map.size() - settled.len()) + heap@.len(),
    {
        let ghost old_heap = heap@;
        let e = pop_best(&mut heap);
        let ghost bi = choose|i: int|
            0 <= i < old_heap.len() && heap@ == old_heap.remove(i) && e == old_heap[i];
        proof {
            reveal(frontier_ok);
            assert(entry_ok(*map, start, old_heap[bi], dist@, settled));
            lemma_tile_in_bounds(*map, e.coords);
            assert forall|j: int| 0 <= j < old_heap.len() implies old_heap[bi].cost <= #[trigger] old_heap[j].cost by {
                assert(e.cost <= old_heap[j].cost);
            }
        }
        if e.coords.0 == dest.0 && e.coords.1 == dest.1 {
            proof {
                reveal(frontier_ok);
                assert forall|q: Seq<Coords>|
                    #[trigger] valid_walk(*map, start, q) && walk_end(start, q) == dest implies walk_cost(*map, start, e.path@)
                    <= walk_cost(*map, start, q) by {
                    lemma_frontier(*map, start, dest, old_heap, dist@, settled, q);
                    let j = choose|j: int| 0 <= j < old_heap.len() && #[trigger] old_heap[j].cost <= walk_cost(*map, start, q);
                }
            }
            return Some(e.path);
        }
        let ui = map.index(&e.coords);
        if e.cost > dist[ui] {
            proof {
                lemma_drop_stale(*map, start, dest, old_heap, dist@, settled, bi);
            }
            continue;
        }
        proof {
            lemma_settle(*map, start, dest, old_heap, dist@, settled, bi);
            lemma_limit(*map);
            settled = settled.insert(ui as int);
        }
        let ghost h_after_pop = heap@.len();
        let ns = get_neighbors(&e.coords, map);
        let mut k: usize = 0;
        while k < ns.len()
            invariant
                0 <= k <= ns@.len(),
                ns@.len() == neighbor_coords(*map, e.coords).len(),
                ns@.len() <= 4,
                forall|i: int|
                    0 <= i < ns@.len() ==> {
                        let nd = #[trigger] ns@[i];
                        &&& nd.coords == neighbor_coords(*map, e.coords)[i]
                        &&& map.tile(nd.coords) is Some
                        &&& nd.cost == map.tile(nd.coords).unwrap().cost
                        &&& nd.elevation == map.tile(nd.coords).unwrap().elevation
                    },
                frontier_ok(*map, start, dest, heap@, dist@, settled),
                settled_ok(*map, start, dist@, settled, Some(e.coords)),
                settled.contains(map.index_of(e.coords)),
                ui == map.index_of(e.coords),
                map.tile(e.coords) is Some,
                valid_walk(*map, start, e.path@),
                walk_end(start, e.path@) == e.coords,
                walk_cost(*map, start, e.path@) == e.cost,
                e.elevation == map.tile(e.coords).unwrap().elevation,
                dist@[ui as int] == e.cost,
                e.path@.len() + 1 <= settled.len() <= map.size(),
                e.cost <= (map.size() - 1) * (2 * tile_limit(*map)),
                map.size() * (2 * tile_limit(*map)) + 2 * tile_limit(*map) <= usize::MAX,
                (map.size() - 1) * (2 * tile_limit(*map)) + 2 * tile_limit(*map) <= usize::MAX,
                heap@.len() <= h_after_pop + k,
                forall|j: int|
                    0 <= j < k ==> dist@[map.index_of(#[trigger] neighbor_coords(*map, e.coords)[j])]
                        <= e.cost + step_weight(*map, e.coords, neighbor_coords(*map, e.coords)[j]),
            decreases ns@.len() - k,
        {
            let next = ns[k].coords;
            let ncost = ns[k].cost;
            let nelev = ns[k].elevation;
            proof {
                reveal(frontier_ok);
                assert(weights_bounded(*map));
                assert(map.tile(next) is Some);
                assert(map.tile(e.coords) is Some);
                lemma_step_weight_bound(*map, e.coords, next);
            }
            let gap = elevation_gap(nelev, e.elevation);
            let new_cost = e.cost + ncost + gap;
            let ni = map.index(&next);
            let ghost dist_before = dist@;
            assert(new_cost == e.cost + step_weight(*map, e.coords, next));
            if new_cost < dist[ni] {
                let mut np = copy_walk(&e.path);
                np.push(next);
                let node = Node::create(next, np, new_cost, nelev);
                proof {
                    assert(is_edge(*map, e.coords, next)) by {
                        assert(neighbor_coords(*map, e.coords)[k as int] == next);
                    }
                    lemma_relax_push(
                        *map,
                        start,
                        dest,
                        heap@,
                        dist@,
                        settled,
                        e.coords,
                        e.path@,
                        e.cost as int,
                        next,
                        node,
                    );
                }
                dist.set(ni, new_cost);
                heap.push(node);
            }
            assert(forall|x: int| 0 <= x < dist@.len() ==> #[trigger] dist@[x] <= dist_before[x]);
            assert(dist@[ni as int] <= new_cost);
            assert(dist@.len() == dist_before.len());
            proof {
                assert forall|j: int|
                    0 <= j < k + 1 implies dist@[map.index_of(#[trigger] neighbor_coords(*map, e.coords)[j])]
                        <= e.cost + step_weight(*map, e.coords, neighbor_coords(*map, e.coords)[j]) by {
                    let c = neighbor_coords(*map, e.coords)[j];
                    lemma_neighbor_coords_known(*map, e.coords);
                    assert(map.tile(c) is Some);
                    lemma_tile_in_bounds(*map, c);
                    if j < k {
                        assert(dist_before[map.index_of(c)] <= e.cost + step_weight(*map, e.coords, c));
                        assert(dist@[map.index_of(c)] <= dist_before[map.index_of(c)]);
                    } else {
                        assert(c == next);
                    }
                }
            }
            k = k + 1;
        }
        proof {
            lemma_finish_relax(*map, start, dist@, settled, e.coords);
        }
    }
    proof {
        if reachable(*map, start, dest) {
            reveal(frontier_ok);
            let q = choose|q: Seq<Coords>| #[trigger] valid_walk(*map, start, q) && walk_end(start, q) == dest;
            lemma_walk_ends_known(*map, start, q);
            lemma_tile_in_bounds(*map, dest);
            lemma_frontier(*map, start, dest, heap@, dist@, settled, q);
        }
    }
    None
}

/// Returns whether every known tile's cost and elevation are within `tile_limit`,
/// which is what `shortest_path` asks of the map.
pub fn tile_map_weights_fit(map: &TileMap) -> (r: bool)
    requires
        map.wf(),
    ensures
        r == weights_bounded(*map),
{
    let n = map.cells.len();
    let d: u128 = 2 * (n as u128) + 2;
    let limit: usize = ((usize::MAX as u128) / d) as usize;
    let mut i: usize = 0;
    while i < n
        invariant
            map.wf(),
            0 <= i <= n,
            n == map.cells@.len(),
            limit == tile_limit(*map),
            forall|j: int|
                0 <= j < i ==> (#[trigger] map.cells@[j] matches Some(t) ==> t.cost <= limit
                    && t.elevation <= limit),
        decreases n - i,
    {
        if let Some(t) = map.cells[i] {
            if t.cost > limit || t.elevation > limit {
                proof {
                    lemma_cell_coords(*map, i as int);
                    let c: Coords = ((i / map.width) as usize, (i % map.width) as usize);
                    assert(map.tile(c) == map.cells@[i as int]);
                }
                return false;
            }
        }
        i = i + 1;
    }
    proof {
        assert forall|c: Coords| #[trigger] map.tile(c) is Some implies map.tile(c).unwrap().cost <= tile_limit(*map)
            && map.tile(c).unwrap().elevation <= tile_limit(*map) by {
            lemma_index_in_range(map.height as int, map.width as int, c.0 as int, c.1 as int);
            assert(map.cells@[map.index_of(c)] is Some);
        }
    }
    true
}

/// Every cell of a grid is the cell of some on-grid position.
proof fn lemma_cell_coords(m: TileMap, i: int)
    requires
        m.wf(),
        0 <= i < m.size(),
    ensures
        m.width > 0,
        m.in_bounds(((i / m.width as int) as usize, (i % m.width as int) as usize)),
        m.index_of(((i / m.width as int) as usize, (i % m.width as int) as usize)) == i,
{
    let w = m.width as int;
    let h = m.height as int;
    if w == 0 {
        assert(h * w == 0) by (nonlinear_arith)
            requires
                w == 0,
        ;
    }
    assert(w > 0);
    let x = i / w;
    let y = i % w;
    assert(x * w + y == i && 0 <= y < w && 0 <= x) by (nonlinear_arith)
        requires
            w > 0,
            x == i / w,
            y == i % w,
            i >= 0,
    ;
    assert(x < h) by (nonlinear_arith)
        requires
            x * w + y == i,
            i < h * w,
            0 <= y,
            w > 0,
            x >= 0,
    ;
}


/// The length of the longest row of `map`.
pub open spec fn max_row_len(map: Seq<Seq<Option<Tile>>>) -> nat
    decreases map.len(),
{
    if map.len() == 0 {
        0
    } else {
        let rest = max_row_len(map.drop_last());
        if map.last().len() > rest {
            map.last().len()
        } else {
            rest
        }
    }
}

proof fn lemma_max_row_len(map: Seq<Seq<Option<Tile>>>)
    ensures
        forall|x: int| 0 <= x < map.len() ==> (#[trigger] map[x]).len() <= max_row_len(map),
    decreases map.len(),
{
    if map.len() > 0 {
        lemma_max_row_len(map.drop_last());
        assert forall|x: int| 0 <= x < map.len() implies (#[trigger] map[x]).len() <= max_row_len(map) by {
            if x < map.len() - 1 {
                assert(map[x] == map.drop_last()[x]);
            }
        }
    }
}

/// The neighbour slots `create_map` records for the tile at row `x`, column
/// `y`: each one names the adjacent position when the row the existence check
/// looks into (row `y - 1`, `y + 1` or `y` of `map`) is long enough.
pub open spec fn map_neighbors(map: Seq<Seq<Option<Tile>>>, x: int, y: int) -> Neighbors {
    let n = map.len();
    Neighbors {
        left: if y > 0 && y - 1 < n && x < map[y - 1].len() {
            Some((x as usize, (y - 1) as usize))
        } else {
            None
        },
        right: if y + 1 < n && x < map[y + 1].len() {
            Some((x as usize, (y + 1) as usize))
        } else {
            None
        },
        up: if x > 0 && y < n && x - 1 < map[y].len() {
            Some(((x - 1) as usize, y as usize))
        } else {
            None
        },
        down: if x + 1 < n && y < n && x + 1 < map[y].len() {
            Some(((x + 1) as usize, y as usize))
        } else {
            None
        },
    }
}

/// The entry `create_map` makes for position `c` of the robot's map.
pub open spec fn map_tile(map: Seq<Seq<Option<Tile>>>, costs: Seq<Vec<usize>>, c: Coords) -> Option<
    Contents,
> {
    if c.0 < map.len() && c.1 < map[c.0 as int].len() {
        match map[c.0 as int][c.1 as int] {
            Some(t) => Some(
                Contents {
                    cost: costs[c.0 as int]@[c.1 as int],
                    elevation: t.elevation,
                    neighbors: map_neighbors(map, c.0 as int, c.1 as int),
                },
            ),
            None => None,
        }
    } else {
        None
    }
}

/// Every known tile of the robot's map has a cost in `costs`.
pub open spec fn costs_cover(map: Seq<Seq<Option<Tile>>>, costs: Seq<Vec<usize>>) -> bool {
    forall|x: int, y: int|
        0 <= x < map.len() && 0 <= y < map[x].len() && (#[trigger] map[x][y]) is Some ==> x
            < costs.len() && y < costs[x]@.len()
}

/// Builds the path finder's map from the robot's map (rows of optional tiles)
/// and the cost of entering each known tile.
pub fn create_map(robot_map: &Vec<Vec<Option<Tile>>>, costs: &Vec<Vec<usize>>) -> (r: TileMap)
    requires
        costs_cover(grid_view(robot_map@), costs@),
        robot_map@.len() * max_row_len(grid_view(robot_map@)) <= usize::MAX,
    ensures
        r.wf(),
        r.height == robot_map@.len(),
        r.width == max_row_len(grid_view(robot_map@)),
        forall|c: Coords| #[trigger] r.tile(c) == map_tile(grid_view(robot_map@), costs@, c),
        forall|c: Coords|
            c.0 < robot_map@.len() && c.1 < robot_map@[c.0 as int]@.len() && robot_map@[c.0 as int]@[c.1 as int]
                is Some ==> (#[trigger] r.tile(c) matches Some(t) && t.elevation == robot_map@[c.0 as int]@[c.1 as int].unwrap().elevation
                && t.cost == costs@[c.0 as int]@[c.1 as int]),
{
    let h = robot_map.len();
    let mut w: usize = 0;
    let mut i: usize = 0;
    while i < h
        invariant
            0 <= i <= h,
            h == robot_map@.len(),
            w == max_row_len(grid_view(robot_map@).take(i as int)),
        decreases h - i,
    {
        assert(grid_view(robot_map@).take(i + 1).drop_last() =~= grid_view(robot_map@).take(i as int));
        if robot_map[i].len() > w {
            w = robot_map[i].len();
        }
        i = i + 1;
    }
    assert(grid_view(robot_map@).take(h as int) =~= grid_view(robot_map@));
    proof {
        lemma_max_row_len(grid_view(robot_map@));
    }
    let mut cells: Vec<Option<Contents>> = Vec::new();
    let mut x: usize = 0;
    while x < h
        invariant
            0 <= x <= h,
            h == robot_map@.len(),
            w == max_row_len(grid_view(robot_map@)),
            h * w <= usize::MAX,
            costs_cover(grid_view(robot_map@), costs@),
            forall|r: int| 0 <= r < h ==> (#[trigger] grid_view(robot_map@)[r]).len() <= w,
            cells@.len() == x * w,
            forall|a: int, b: int|
                0 <= a < x && 0 <= b < w ==> #[trigger] cells@[a * w + b] == map_tile(
                    grid_view(robot_map@),
                    costs@,
                    (a as usize, b as usize),
                ),
        decreases h - x,
    {
        let row_len = robot_map[x].len();
        let mut y: usize = 0;
        proof {
            assert((x + 1) * w == x * w + w) by (nonlinear_arith);
            assert((x + 1) * w <= h * w) by (nonlinear_arith)
                requires
                    x + 1 <= h,
            ;
        }
        while y < w
            invariant
                0 <= x < h,
                0 <= y <= w,
                h == robot_map@.len(),
                w == max_row_len(grid_view(robot_map@)),
                h * w <= usize::MAX,
                (x + 1) * w <= h * w,
                (x + 1) * w == x * w + w,
                row_len == grid_view(robot_map@)[x as int].len(),
                row_len <= w,
                costs_cover(grid_view(robot_map@), costs@),
                cells@.len() == x * w + y,
                forall|a: int, b: int|
                    0 <= a < x && 0 <= b < w ==> #[trigger] cells@[a * w + b] == map_tile(
                        grid_view(robot_map@),
                        costs@,
                        (a as usize, b as usize),
                    ),
                forall|b: int|
                    0 <= b < y ==> #[trigger] cells@[x * w + b] == map_tile(
                        grid_view(robot_map@),
                        costs@,
                        (x as usize, b as usize),
                    ),
            decreases w - y,
        {
            let mut cell: Option<Contents> = None;
            if y < row_len {
                if let Some(tile) = robot_map[x][y] {
                    let n = h;
                    let mut neighbors = Neighbors::new();
                    if y > 0 {
                        if y - 1 < n && x < robot_map[y - 1].len() {
                            neighbors.left = Some((x, y - 1));
                        }
                    }
                    if y < n - 1 {
                        if x < robot_map[y + 1].len() {
                            neighbors.right = Some((x, y + 1));
                        }
                    }
                    if x > 0 {
                        if y < n && x - 1 < robot_map[y].len() {
                            neighbors.up = Some((x - 1, y));
                        }
                    }
                    if x < n - 1 {
                        if y < n && x + 1 < robot_map[y].len() {
                            neighbors.down = Some((x + 1, y));
                        }
                    }
                    let cost = costs[x][y];
                    cell = Some(Contents::create(cost, tile.elevation, neighbors));
                    assert(neighbors == map_neighbors(grid_view(robot_map@), x as int, y as int));
                }
            }
            assert(cell == map_tile(grid_view(robot_map@), costs@, (x, y)));
            proof {
                assert(x * w <= x * w + y) by (nonlinear_arith)
                    requires
                        y >= 0,
                ;
            }
            cells.push(cell);
            proof {
                assert forall|a: int, b: int|
                    0 <= a < x && 0 <= b < w implies #[trigger] cells@[a * w + b] == map_tile(
                        grid_view(robot_map@),
                        costs@,
                        (a as usize, b as usize),
                    ) by {
                    assert(a * w + b < x * w) by (nonlinear_arith)
                        requires
                            0 <= a < x,
                            0 <= b < w,
                    ;
                }
            }
            y = y + 1;
        }
        x = x + 1;
    }
    let r = TileMap { height: h, width: w, cells };
    proof {
        assert forall|c: Coords| #[trigger] r.tile(c) == map_tile(grid_view(robot_map@), costs@, c) by {
            if r.in_bounds(c) {
                assert(r.cells@[c.0 * w + c.1] == map_tile(grid_view(robot_map@), costs@, (c.0, c.1)));
            } else if c.0 < h {
                assert(grid_view(robot_map@)[c.0 as int].len() <= w);
            }
        }
    }
    r
}


/// Absolute value of `value`, computed by `num::abs`.
///
/// Trusted: `num::abs` on an `i32` negates negative values and keeps the
/// others; `i32::MIN` is left out, where the negation overflows.
#[verifier::external_body]
fn abs_i32(value: i32) -> (r: i32)
    requires
        value > i32::MIN,
    ensures
        r == (if value < 0 {
            -value
        } else {
            value as int
        }),
{
    num::abs(value)
}

/// The number of row and column steps between `a` and `b`.
pub open spec fn manhattan(a: Coords, b: Coords) -> int {
    abs_diff(a.0 as int, b.0 as int) + abs_diff(a.1 as int, b.1 as int)
}

/// `t` holds what the robot looks for: a market when `market`, a tree otherwise.
pub open spec fn wanted(t: Tile, market: bool) -> bool {
    if market {
        t.content is Market
    } else {
        t.content is Tree
    }
}

/// `a` comes before `b` in row-major order.
pub open spec fn coords_before(a: Coords, b: Coords) -> bool {
    a.0 < b.0 || (a.0 == b.0 && a.1 < b.1)
}

/// `c` is on the square part of the map, holds what is looked for, and lies
/// fewer than 1000 steps away from `pos`.
pub open spec fn is_target(map: Seq<Seq<Option<Tile>>>, pos: Coords, market: bool, c: Coords) -> bool {
    &&& c.0 < map.len()
    &&& c.1 < map.len()
    &&& map[c.0 as int][c.1 as int] matches Some(t) && wanted(t, market)
    &&& manhattan(pos, c) < 1000
}

/// `c` is the closest target, and the first in row-major order among the closest.
pub open spec fn is_nearest(map: Seq<Seq<Option<Tile>>>, pos: Coords, market: bool, c: Coords) -> bool {
    &&& is_target(map, pos, market, c)
    &&& forall|d: Coords|
        #[trigger] is_target(map, pos, market, d) ==> manhattan(pos, c) < manhattan(pos, d) || (
        manhattan(pos, c) == manhattan(pos, d) && !coords_before(d, c))
}

/// The closest target, or (10000, 10000) when there is none.
pub open spec fn nearest_target(map: Seq<Seq<Option<Tile>>>, pos: Coords, market: bool) -> Coords {
    if exists|c: Coords| is_nearest(map, pos, market, c) {
        choose|c: Coords| is_nearest(map, pos, market, c)
    } else {
        (10000, 10000)
    }
}

proof fn lemma_nearest_exists(map: Seq<Seq<Option<Tile>>>, pos: Coords, market: bool, d: Coords)
    requires
        is_target(map, pos, market, d),
    ensures
        exists|c: Coords| is_nearest(map, pos, market, c),
    decreases manhattan(pos, d), d.0, d.1,
{
    if !is_nearest(map, pos, market, d) {
        let d2 = choose|d2: Coords|
            #[trigger] is_target(map, pos, market, d2) && !(manhattan(pos, d) < manhattan(pos, d2) || (
            manhattan(pos, d) == manhattan(pos, d2) && !coords_before(d2, d)));
        lemma_nearest_exists(map, pos, market, d2);
    }
}

/// The place the robot heads for is a tree (a market, when `market`) on the
/// square part of its map, and no tree (market) fewer than 1000 steps away
/// is closer in rows plus columns; among equally close ones it comes first,
/// row by row.
pub proof fn lemma_nearest_target_is_closest(map: Seq<Seq<Option<Tile>>>, pos: Coords, market: bool, d: Coords)
    requires
        d.0 < map.len(),
        d.1 < map.len(),
        map[d.0 as int][d.1 as int] matches Some(t) && (if market {
            t.content is Market
        } else {
            t.content is Tree
        }),
        (if pos.0 >= d.0 { pos.0 - d.0 } else { d.0 - pos.0 }) + (if pos.1 >= d.1 { pos.1 - d.1 } else { d.1 - pos.1 })
            < 1000,
    ensures
        ({
            let c = nearest_target(map, pos, market);
            let dist_c = (if pos.0 >= c.0 { pos.0 - c.0 } else { c.0 - pos.0 }) + (if pos.1 >= c.1 {
                pos.1 - c.1
            } else {
                c.1 - pos.1
            });
            let dist_d = (if pos.0 >= d.0 { pos.0 - d.0 } else { d.0 - pos.0 }) + (if pos.1 >= d.1 {
                pos.1 - d.1
            } else {
                d.1 - pos.1
            });
            &&& c.0 < map.len() && c.1 < map.len()
            &&& map[c.0 as int][c.1 as int] matches Some(t) && (if market {
                t.content is Market
            } else {
                t.content is Tree
            })
            &&& dist_c <= dist_d
            &&& dist_c == dist_d ==> c.0 < d.0 || (c.0 == d.0 && c.1 <= d.1)
        }),
{
    assert(is_target(map, pos, market, d));
    lemma_nearest_exists(map, pos, market, d);
    let c = nearest_target(map, pos, market);
    assert(is_nearest(map, pos, market, c));
    assert(is_target(map, pos, market, d));
}

/// The map is a square whose rows are at least as long as it is high, and its
/// size and the robot's position are small enough for 32-bit distances.
pub open spec fn scan_fits(map: Seq<Seq<Option<Tile>>>, pos: Coords) -> bool {
    &&& map.len() <= 0x4000_0000
    &&& pos.0 < 0x4000_0000
    &&& pos.1 < 0x4000_0000
    &&& forall|x: int| 0 <= x < map.len() ==> (#[trigger] map[x]).len() >= map.len()
}

/// Returns the closest tree (or market, when `market`) on the robot's map that
/// is fewer than 1000 steps away, the first in row-major order among equally
/// close ones, or (10000, 10000) when there is none.
fn find_stuff(robot_position: Coords, robot_map: &Vec<Vec<Option<Tile>>>, market: bool) -> (r: Coords)
    requires
        scan_fits(grid_view(robot_map@), robot_position),
    ensures
        r == nearest_target(grid_view(robot_map@), robot_position, market),
{
    let self_x = robot_position.0;
    let self_y = robot_position.1;
    let n = robot_map.len();
    let mut smaller_distance: i32 = 1000;
    let mut resource_coordinates: Coords = (10000, 10000);
    let ghost mut found = false;
    let ghost map = grid_view(robot_map@);
    let ghost pos = robot_position;
    let mut x: usize = 0;
    while x < n
        invariant
            0 <= x <= n,
            n == map.len(),
            map == grid_view(robot_map@),
            pos == robot_position,
            self_x == pos.0,
            self_y == pos.1,
            scan_fits(map, pos),
            found ==> {
                &&& is_target(map, pos, market, resource_coordinates)
                &&& resource_coordinates.0 < x
                &&& smaller_distance == manhattan(pos, resource_coordinates)
                &&& forall|d: Coords|
                    #[trigger] is_target(map, pos, market, d) && d.0 < x ==> manhattan(pos, resource_coordinates)
                        < manhattan(pos, d) || (manhattan(pos, resource_coordinates) == manhattan(pos, d)
                        && !coords_before(d, resource_coordinates))
            },
            !found ==> {
                &&& resource_coordinates == (10000usize, 10000usize)
                &&& smaller_distance == 1000
                &&& forall|d: Coords| #[trigger] is_target(map, pos, market, d) ==> d.0 >= x
            },
        decreases n - x,
    {
        let mut y: usize = 0;
        while y < n
            invariant
                0 <= x < n,
                0 <= y <= n,
                n == map.len(),
                map == grid_view(robot_map@),
                pos == robot_position,
                self_x == pos.0,
                self_y == pos.1,
                scan_fits(map, pos),
                found ==> {
                    &&& is_target(map, pos, market, resource_coordinates)
                    &&& coords_before(resource_coordinates, (x, y))
                    &&& smaller_distance == manhattan(pos, resource_coordinates)
                    &&& forall|d: Coords|
                        #[trigger] is_target(map, pos, market, d) && coords_before(d, (x, y))
                            ==> manhattan(pos, resource_coordinates) < manhattan(pos, d) || (manhattan(
                            pos,
                            resource_coordinates,
                        ) == manhattan(pos, d) && !coords_before(d, resource_coordinates))
                },
                !found ==> {
                    &&& resource_coordinates == (10000usize, 10000usize)
                    &&& smaller_distance == 1000
                    &&& forall|d: Coords|
                        #[trigger] is_target(map, pos, market, d) ==> !coords_before(d, (x, y))
                },
            decreases n - y,
        {
            let row = &robot_map[x];
            assert(grid_view(robot_map@)[x as int] == row@);
            assert(row@.len() >= n);
            if let Some(tile) = row[y] {
                let is_wanted = if market {
                    match tile.content {
                        Content::Market(_) => true,
                        _ => false,
                    }
                } else {
                    match tile.content {
                        Content::Tree(_) => true,
                        _ => false,
                    }
                };
                if is_wanted {
                    let dx = abs_i32(self_x as i32 - x as i32);
                    let dy = abs_i32(self_y as i32 - y as i32);
                    assert(dx < 0x4000_0000 && dy < 0x4000_0000);
                    let current_distance = dx + dy;
                    assert(current_distance == manhattan(pos, (x, y)));
                    if current_distance < smaller_distance {
                        resource_coordinates = (x, y);
                        smaller_distance = current_distance;
                        proof {
                            found = true;
                        }
                    }
                }
            }
            y = y + 1;
        }
        x = x + 1;
    }
    proof {
        if found {
            assert(is_nearest(map, pos, market, resource_coordinates));
            assert forall|c: Coords| #[trigger] is_nearest(map, pos, market, c) implies c
                == resource_coordinates by {
                assert(is_target(map, pos, market, resource_coordinates));
                assert(is_target(map, pos, market, c));
            }
        } else {
            assert forall|c: Coords| !#[trigger] is_nearest(map, pos, market, c) by {
                if is_nearest(map, pos, market, c) {
                    assert(is_target(map, pos, market, c));
                }
            }
        }
    }
    resource_coordinates
}

/// The largest cost or elevation a tile of `map` may have so that no walk
/// over the map built from it overflows.
pub open spec fn map_limit(map: Seq<Seq<Option<Tile>>>) -> int {
    usize::MAX as int / (2 * (map.len() * max_row_len(map)) as int + 2)
}

/// Every known tile's cost and elevation are within `map_limit`.
pub open spec fn map_costs_fit(map: Seq<Seq<Option<Tile>>>, costs: Seq<Vec<usize>>) -> bool {
    forall|x: int, y: int|
        0 <= x < map.len() && 0 <= y < map[x].len() && (#[trigger] map[x][y]) is Some ==> costs[x]@[y]
            <= map_limit(map) && map[x][y].unwrap().elevation <= map_limit(map)
}

/// What path finding over the robot's map asks of it.
pub open spec fn gps_inputs_ok(map: Seq<Seq<Option<Tile>>>, costs: Seq<Vec<usize>>) -> bool {
    &&& costs_cover(map, costs)
    &&& map.len() * max_row_len(map) <= usize::MAX
    &&& map_costs_fit(map, costs)
}

/// `d` are the moves of a cheapest walk from `start` to `dest` over a map whose
/// tiles are those built from `robot_map` and `costs`; `None` when no walk
/// leads there; no moves at all when the robot stands on a known `dest`.
pub open spec fn gps_answer(
    robot_map: Seq<Seq<Option<Tile>>>,
    costs: Seq<Vec<usize>>,
    start: Coords,
    dest: Coords,
    r: Option<Vec<Direction>>,
) -> bool {
    &&& (start == dest && map_tile(robot_map, costs, start) is Some ==> (r matches Some(d) && d@.len() == 0))
    &&& exists|m: TileMap|
        {
            &&& m.wf()
            &&& forall|c: Coords| #[trigger] m.tile(c) == map_tile(robot_map, costs, c)
            &&& (r is Some <==> reachable(m, start, dest))
            &&& (r matches Some(d) ==> exists|p: Seq<Coords>|
                is_shortest_walk(m, start, dest, p) && d@ == moves_along(seq![start] + p))
        }
}

/// The map the path finder searches keeps every known tile of the robot's map
/// with that tile's own elevation and the cost given for it, so a walk's cost
/// counts the height difference of each of its steps.
pub proof fn lemma_search_map_keeps_tiles(
    robot_map: Seq<Seq<Option<Tile>>>,
    costs: Seq<Vec<usize>>,
    m: TileMap,
    u: Coords,
    v: Coords,
)
    requires
        forall|c: Coords| #[trigger] m.tile(c) == map_tile(robot_map, costs, c),
        u.0 < robot_map.len() && u.1 < robot_map[u.0 as int].len() && robot_map[u.0 as int][u.1 as int] is Some,
        v.0 < robot_map.len() && v.1 < robot_map[v.0 as int].len() && robot_map[v.0 as int][v.1 as int] is Some,
    ensures
        m.tile(v) matches Some(t) && t.elevation == robot_map[v.0 as int][v.1 as int].unwrap().elevation
            && t.cost == costs[v.0 as int]@[v.1 as int],
        step_weight(m, u, v) == costs[v.0 as int]@[v.1 as int] + abs_diff(
            robot_map[v.0 as int][v.1 as int].unwrap().elevation as int,
            robot_map[u.0 as int][u.1 as int].unwrap().elevation as int,
        ),
{
    assert(m.tile(u) == map_tile(robot_map, costs, u));
    assert(m.tile(v) == map_tile(robot_map, costs, v));
}

/// On a square map whose rows are as long as it is high, the path finder
/// links every known tile to the positions right next to it: one row up,
/// one row down, one column left and one column right, wherever those lie on
/// the map.
pub proof fn lemma_square_map_neighbours(
    robot_map: Seq<Seq<Option<Tile>>>,
    costs: Seq<Vec<usize>>,
    m: TileMap,
    c: Coords,
)
    requires
        forall|d: Coords| #[trigger] m.tile(d) == map_tile(robot_map, costs, d),
        forall|r: int| 0 <= r < robot_map.len() ==> (#[trigger] robot_map[r]).len() == robot_map.len(),
        c.0 < robot_map.len() && c.1 < robot_map.len() && robot_map[c.0 as int][c.1 as int] is Some,
    ensures
        m.tile(c) matches Some(t) && {
            let n = robot_map.len();
            &&& t.neighbors.up == (if c.0 > 0 { Some(((c.0 - 1) as usize, c.1)) } else { None })
            &&& t.neighbors.down == (if c.0 + 1 < n { Some(((c.0 + 1) as usize, c.1)) } else { None })
            &&& t.neighbors.left == (if c.1 > 0 { Some((c.0, (c.1 - 1) as usize)) } else { None })
            &&& t.neighbors.right == (if c.1 + 1 < n { Some((c.0, (c.1 + 1) as usize)) } else { None })
        },
{
    assert(m.tile(c) == map_tile(robot_map, costs, c));
}

/// Returns the moves of a cheapest walk over the known tiles from the robot's
/// position to `dest`, or `None` when no walk leads there.
pub fn directions_to(
    robot_position: Coords,
    robot_map: &Vec<Vec<Option<Tile>>>,
    costs: &Vec<Vec<usize>>,
    dest: Coords,
) -> (r: Option<Vec<Direction>>)
    requires
        gps_inputs_ok(grid_view(robot_map@), costs@),
    ensures
        gps_answer(grid_view(robot_map@), costs@, robot_position, dest, r),
{
    let tiles = create_map(robot_map, costs);
    proof {
        assert(weights_bounded(tiles)) by {
            assert forall|c: Coords| #[trigger] tiles.tile(c) is Some implies tiles.tile(c).unwrap().cost
                <= tile_limit(tiles) && tiles.tile(c).unwrap().elevation <= tile_limit(tiles) by {
                assert(tiles.tile(c) == map_tile(grid_view(robot_map@), costs@, c));
                assert(robot_map@[c.0 as int]@[c.1 as int] is Some);
            }
        }
    }
    let path = shortest_path(&tiles, robot_position, dest);
    match path {
        Some(p) => {
            let ghost pv = p@;
            let d = path_to_directions(robot_position, p);
            let r = Some(d);
            proof {
                assert(is_shortest_walk(tiles, robot_position, dest, pv) && d@ == moves_along(
                    seq![robot_position] + pv,
                ));
                assert(tiles.tile(robot_position) == map_tile(grid_view(robot_map@), costs@, robot_position));
                if robot_position == dest && tiles.tile(robot_position) is Some {
                    assert(seq![robot_position] + pv =~= seq![robot_position]);
                }
                assert(gps_answer(grid_view(robot_map@), costs@, robot_position, dest, r)) by {
                    assert(tiles.wf());
                }
            }
            r
        },
        None => {
            proof {
                assert(tiles.tile(robot_position) == map_tile(grid_view(robot_map@), costs@, robot_position));
                assert(gps_answer(grid_view(robot_map@), costs@, robot_position, dest, None)) by {
                    assert(tiles.wf());
                }
            }
            None
        },
    }
}

/// Returns the moves of a cheapest walk over the known tiles from the robot's
/// position to the closest tree (or market, when `market`), or `None` when no
/// walk leads there.
pub fn crazy_noisy_bizarre_gps(
    robot_position: Coords,
    robot_map: &Vec<Vec<Option<Tile>>>,
    costs: &Vec<Vec<usize>>,
    market: bool,
) -> (r: Option<Vec<Direction>>)
    requires
        scan_fits(grid_view(robot_map@), robot_position),
        gps_inputs_ok(grid_view(robot_map@), costs@),
    ensures
        gps_answer(
            grid_view(robot_map@),
            costs@,
            robot_position,
            nearest_target(grid_view(robot_map@), robot_position, market),
            r,
        ),
{
    let dest = find_stuff(robot_position, robot_map, market);
    directions_to(robot_position, robot_map, costs, dest)
}

/// Returns whether every known tile's cost and elevation are within
/// `map_limit`, as path finding asks.
pub fn map_costs_within_limit(robot_map: &Vec<Vec<Option<Tile>>>, costs: &Vec<Vec<usize>>) -> (r: bool)
    requires
        costs_cover(grid_view(robot_map@), costs@),
        robot_map@.len() * max_row_len(grid_view(robot_map@)) <= usize::MAX,
    ensures
        r == map_costs_fit(grid_view(robot_map@), costs@),
{
    let h = robot_map.len();
    let mut w: usize = 0;
    let mut i: usize = 0;
    while i < h
        invariant
            0 <= i <= h,
            h == robot_map@.len(),
            w == max_row_len(grid_view(robot_map@).take(i as int)),
        decreases h - i,
    {
        assert(grid_view(robot_map@).take(i + 1).drop_last() =~= grid_view(robot_map@).take(i as int));
        if robot_map[i].len() > w {
            w = robot_map[i].len();
        }
        i = i + 1;
    }
    assert(grid_view(robot_map@).take(h as int) =~= grid_view(robot_map@));
    let size: u128 = (h as u128) * (w as u128);
    let limit: usize = ((usize::MAX as u128) / (2 * size + 2)) as usize;
    assert(limit == map_limit(grid_view(robot_map@)));
    let mut x: usize = 0;
    while x < h
        invariant
            0 <= x <= h,
            h == robot_map@.len(),
            limit == map_limit(grid_view(robot_map@)),
            costs_cover(grid_view(robot_map@), costs@),
            forall|a: int, b: int|
                0 <= a < x && 0 <= b < grid_view(robot_map@)[a].len() && (#[trigger] grid_view(
                    robot_map@,
                )[a][b]) is Some ==> costs@[a]@[b] <= limit && grid_view(robot_map@)[a][b].unwrap().elevation
                    <= limit,
        decreases h - x,
    {
        let row = &robot_map[x];
        assert(grid_view(robot_map@)[x as int] == row@);
        let mut y: usize = 0;
        while y < row.len()
            invariant
                0 <= x < h,
                0 <= y <= row@.len(),
                row == robot_map@[x as int],
                h == robot_map@.len(),
                limit == map_limit(grid_view(robot_map@)),
                costs_cover(grid_view(robot_map@), costs@),
                forall|a: int, b: int|
                    0 <= a < x && 0 <= b < grid_view(robot_map@)[a].len() && (#[trigger] grid_view(
                        robot_map@,
                    )[a][b]) is Some ==> costs@[a]@[b] <= limit && grid_view(robot_map@)[a][b].unwrap().elevation
                        <= limit,
                forall|b: int|
                    0 <= b < y && (#[trigger] grid_view(robot_map@)[x as int][b]) is Some ==> costs@[x as int]@[b]
                        <= limit && grid_view(robot_map@)[x as int][b].unwrap().elevation <= limit,
            decreases row@.len() - y,
        {
            if let Some(t) = row[y] {
                assert(grid_view(robot_map@)[x as int] == row@);
                assert(grid_view(robot_map@)[x as int][y as int] is Some);
                if costs[x][y] > limit || t.elevation > limit {
                    return false;
                }
            }
            y = y + 1;
        }
        x = x + 1;
    }
    true
}


/// The position reached from `c` by one move in direction `d`.
pub open spec fn move_by(c: (int, int), d: Direction) -> (int, int) {
    match d {
        Direction::Up => (c.0 - 1, c.1),
        Direction::Down => (c.0 + 1, c.1),
        Direction::Left => (c.0, c.1 - 1),
        Direction::Right => (c.0, c.1 + 1),
    }
}

/// The position reached from `c` by making the moves `ds` in order.
pub open spec fn follow(c: (int, int), ds: Seq<Direction>) -> (int, int)
    decreases ds.len(),
{
    if ds.len() == 0 {
        c
    } else {
        move_by(follow(c, ds.drop_last()), ds.last())
    }
}

/// `a` and `b` are side by side on the grid.
pub open spec fn unit_step(a: Coords, b: Coords) -> bool {
    ||| a.0 == b.0 && (b.1 == a.1 + 1 || a.1 == b.1 + 1)
    ||| a.1 == b.1 && (b.0 == a.0 + 1 || a.0 == b.0 + 1)
}

/// Every step of the walk `p` from `start` goes to a side-by-side position.
pub open spec fn unit_walk(start: Coords, p: Seq<Coords>) -> bool
    decreases p.len(),
{
    p.len() == 0 || (unit_walk(start, p.drop_last()) && unit_step(walk_end(start, p.drop_last()), p.last()))
}

pub open spec fn as_point(c: Coords) -> (int, int) {
    (c.0 as int, c.1 as int)
}

/// Following the moves that `path_to_directions` derives from a walk of
/// side-by-side steps leads from its start to its end.
proof fn lemma_moves_follow_walk(start: Coords, p: Seq<Coords>)
    requires
        unit_walk(start, p),
    ensures
        follow(as_point(start), moves_along(seq![start] + p)) == as_point(walk_end(start, p)),
    decreases p.len(),
{
    if p.len() > 0 {
        let q = p.drop_last();
        lemma_moves_follow_walk(start, q);
        let full = seq![start] + p;
        assert(full.drop_last() =~= seq![start] + q);
        assert(full[full.len() - 2] == walk_end(start, q));
        assert(full.last() == p.last());
        let prev = moves_along(seq![start] + q);
        let d = step_direction(walk_end(start, q), p.last()).unwrap();
        assert(moves_along(full) == prev.push(d));
        assert(prev.push(d).drop_last() =~= prev);
        assert(move_by(as_point(walk_end(start, q)), d) == as_point(p.last()));
    }
}

/// For a walk of side-by-side steps, `path_to_directions` gives one move per
/// step, and move `i` leads from position `i` of the walk (the start first)
/// to position `i + 1`.
pub proof fn lemma_directions_follow_walk(start: Coords, p: Seq<Coords>)
    requires
        unit_walk(start, p),
    ensures
        moves_along(seq![start] + p).len() == p.len(),
        forall|i: int|
            0 <= i < p.len() ==> move_by(as_point((seq![start] + p)[i]), #[trigger] moves_along(seq![start] + p)[i])
                == as_point(p[i]),
    decreases p.len(),
{
    if p.len() > 0 {
        let q = p.drop_last();
        lemma_directions_follow_walk(start, q);
        let full = seq![start] + p;
        let fq = seq![start] + q;
        assert(full.drop_last() =~= fq);
        assert(full[full.len() - 2] == walk_end(start, q));
        let prev = moves_along(fq);
        let d = step_direction(walk_end(start, q), p.last()).unwrap();
        assert(moves_along(full) == prev.push(d));
        assert forall|i: int| 0 <= i < p.len() implies move_by(as_point(full[i]), #[trigger] moves_along(full)[i])
            == as_point(p[i]) by {
            if i < p.len() - 1 {
                assert(full[i] == fq[i]);
                assert(p[i] == q[i]);
                assert(moves_along(fq)[i] == prev[i]);
            } else {
                assert(full[i] == walk_end(start, q));
            }
        }
    }
}

/// In a map built by `create_map`, each step of a walk goes to a side-by-side position.
proof fn lemma_built_walk_is_unit(
    robot_map: Seq<Seq<Option<Tile>>>,
    costs: Seq<Vec<usize>>,
    m: TileMap,
    start: Coords,
    p: Seq<Coords>,
)
    requires
        forall|c: Coords| #[trigger] m.tile(c) == map_tile(robot_map, costs, c),
        valid_walk(m, start, p),
    ensures
        unit_walk(start, p),
    decreases p.len(),
{
    if p.len() > 0 {
        let q = p.drop_last();
        let u = walk_end(start, q);
        lemma_built_walk_is_unit(robot_map, costs, m, start, q);
        let t = m.tile(u).unwrap();
        assert(m.tile(u) == map_tile(robot_map, costs, u));
        let slots = neighbor_slots(t.neighbors);
        lemma_known_targets_from(m, slots, p.last());
        let k = choose|k: int| 0 <= k < slots.len() && slots[k] == Some(p.last());
        assert(t.neighbors == map_neighbors(robot_map, u.0 as int, u.1 as int));
    }
}

proof fn lemma_known_targets_from(m: TileMap, slots: Seq<Option<Coords>>, v: Coords)
    requires
        known_targets(m, slots).contains(v),
    ensures
        exists|k: int| 0 <= k < slots.len() && slots[k] == Some(v),
    decreases slots.len(),
{
    let rest = known_targets(m, slots.drop_last());
    if rest.contains(v) {
        lemma_known_targets_from(m, slots.drop_last(), v);
        let k = choose|k: int| 0 <= k < slots.drop_last().len() && slots.drop_last()[k] == Some(v);
        assert(slots[k] == Some(v));
    } else {
        assert(slots[slots.len() - 1] == Some(v));
    }
}

/// Making the moves the path finder returns leads the robot from its position
/// to the destination.
pub proof fn lemma_gps_reaches_destination(
    robot_map: Seq<Seq<Option<Tile>>>,
    costs: Seq<Vec<usize>>,
    start: Coords,
    dest: Coords,
    r: Option<Vec<Direction>>,
)
    requires
        gps_answer(robot_map, costs, start, dest, r),
        r is Some,
    ensures
        follow(as_point(start), r.unwrap()@) == as_point(dest),
{
    let m = choose|m: TileMap|
        {
            &&& m.wf()
            &&& forall|c: Coords| #[trigger] m.tile(c) == map_tile(robot_map, costs, c)
            &&& (r is Some <==> reachable(m, start, dest))
            &&& (r matches Some(d) ==> exists|p: Seq<Coords>|
                is_shortest_walk(m, start, dest, p) && d@ == moves_along(seq![start] + p))
        };
    let p = choose|p: Seq<Coords>|
        is_shortest_walk(m, start, dest, p) && r.unwrap()@ == moves_along(seq![start] + p);
    lemma_built_walk_is_unit(robot_map, costs, m, start, p);
    lemma_moves_follow_walk(start, p);
}


/// Returns whether path finding may be run on `robot_map` and `costs`: every
/// known tile has a cost, the grid fits in memory, and no cost or elevation
/// exceeds `map_limit`.
pub fn gps_inputs_valid(robot_map: &Vec<Vec<Option<Tile>>>, costs: &Vec<Vec<usize>>) -> (r: bool)
    ensures
        r == gps_inputs_ok(grid_view(robot_map@), costs@),
{
    let ghost g = grid_view(robot_map@);
    let h = robot_map.len();
    let mut x: usize = 0;
    while x < h
        invariant
            0 <= x <= h,
            h == g.len(),
            g == grid_view(robot_map@),
            forall|a: int, b: int|
                0 <= a < x && 0 <= b < g[a].len() && (#[trigger] g[a][b]) is Some ==> a < costs@.len()
                    && b < costs@[a]@.len(),
        decreases h - x,
    {
        let row = &robot_map[x];
        assert(g[x as int] == row@);
        let mut y: usize = 0;
        while y < row.len()
            invariant
                0 <= x < h,
                0 <= y <= row@.len(),
                h == g.len(),
                g == grid_view(robot_map@),
                g[x as int] == row@,
                forall|a: int, b: int|
                    0 <= a < x && 0 <= b < g[a].len() && (#[trigger] g[a][b]) is Some ==> a < costs@.len()
                        && b < costs@[a]@.len(),
                forall|b: int|
                    0 <= b < y && (#[trigger] g[x as int][b]) is Some ==> x < costs@.len() && b
                        < costs@[x as int]@.len(),
            decreases row@.len() - y,
        {
            if row[y].is_some() {
                if x >= costs.len() || y >= costs[x].len() {
                    assert(g[x as int][y as int] is Some);
                    assert(!costs_cover(g, costs@));
                    return false;
                }
            }
            y = y + 1;
        }
        x = x + 1;
    }
    assert(costs_cover(g, costs@));
    let mut w: usize = 0;
    let mut i: usize = 0;
    while i < h
        invariant
            0 <= i <= h,
            h == g.len(),
            g == grid_view(robot_map@),
            w == max_row_len(g.take(i as int)),
        decreases h - i,
    {
        assert(g.take(i + 1).drop_last() =~= g.take(i as int));
        assert(g[i as int] == robot_map@[i as int]@);
        if robot_map[i].len() > w {
            w = robot_map[i].len();
        }
        i = i + 1;
    }
    assert(g.take(h as int) =~= g);
    assert((h as u128) * (w as u128) <= u128::MAX) by (nonlinear_arith)
        requires
            h <= usize::MAX,
            w <= usize::MAX,
            usize::MAX <= u64::MAX,
    ;
    if (h as u128) * (w as u128) > usize::MAX as u128 {
        return false;
    }
    map_costs_within_limit(robot_map, costs)
}

} // verus!
