//! Exploration spirals: runs of moves right, down, left and up that grow longer
//! every second run.
use vstd::prelude::*;
use crate::world::Direction;

verus! {

/// The direction of run `i` of a spiral: right, down, left, up, and again.
pub open spec fn spiral_dir(i: nat) -> Direction {
    if i % 4 == 0 {
        Direction::Right
    } else if i % 4 == 1 {
        Direction::Down
    } else if i % 4 == 2 {
        Direction::Left
    } else {
        Direction::Up
    }
}

/// The length of run `i` of a spiral whose runs grow by `unit`.
pub open spec fn run_len(unit: nat, i: nat) -> nat {
    unit * (i / 2 + 1)
}

/// The first `s` runs of the spiral, one move after the other.
pub open spec fn spiral_runs(unit: nat, s: nat) -> Seq<Direction>
    decreases s,
{
    if s == 0 {
        Seq::empty()
    } else {
        spiral_runs(unit, (s - 1) as nat) + Seq::new(
            run_len(unit, (s - 1) as nat),
            |k: int| spiral_dir((s - 1) as nat),
        )
    }
}

/// The first `n` moves of the spiral whose runs grow by `unit`.
pub open spec fn spiral_moves(unit: nat, n: nat) -> Seq<Direction> {
    spiral_runs(unit, n).take(n as int)
}

proof fn lemma_spiral_runs_len(unit: nat, s: nat)
    requires
        unit >= 1,
    ensures
        spiral_runs(unit, s).len() >= s,
    decreases s,
{
    if s > 0 {
        lemma_spiral_runs_len(unit, (s - 1) as nat);
        assert(run_len(unit, (s - 1) as nat) >= 1) by (nonlinear_arith)
            requires
                unit >= 1,
        ;
    }
}

/// The runs of a spiral extend each other.
proof fn lemma_spiral_runs_prefix(unit: nat, a: nat, b: nat)
    requires
        a <= b,
    ensures
        spiral_runs(unit, a).len() <= spiral_runs(unit, b).len(),
        spiral_runs(unit, b).take(spiral_runs(unit, a).len() as int) == spiral_runs(unit, a),
    decreases b - a,
{
    if a < b {
        lemma_spiral_runs_prefix(unit, a, (b - 1) as nat);
        let pa = spiral_runs(unit, a);
        let pb1 = spiral_runs(unit, (b - 1) as nat);
        let pb = spiral_runs(unit, b);
        assert(pb.take(pb1.len() as int) =~= pb1);
        assert(pb.take(pa.len() as int) =~= pb1.take(pa.len() as int));
    } else {
        assert(spiral_runs(unit, b).take(spiral_runs(unit, a).len() as int) =~= spiral_runs(unit, a));
    }
}

/// A shorter spiral is the beginning of a longer one.
pub proof fn lemma_spiral_moves_prefix(unit: nat, n: nat, m: nat)
    requires
        unit >= 1,
        n <= m,
    ensures
        spiral_moves(unit, m).take(n as int) == spiral_moves(unit, n),
        spiral_moves(unit, n).len() == n,
{
    lemma_spiral_runs_len(unit, n);
    lemma_spiral_runs_len(unit, m);
    lemma_spiral_runs_prefix(unit, n, m);
    let rn = spiral_runs(unit, n);
    let rm = spiral_runs(unit, m);
    assert(rm.take(rn.len() as int) == rn);
    assert(spiral_moves(unit, m).take(n as int) =~= spiral_moves(unit, n));
}

/// Returns `v` in reverse order.
pub fn reversed(v: Vec<Direction>) -> (r: Vec<Direction>)
    ensures
        r@ == v@.reverse(),
{
    let mut r: Vec<Direction> = Vec::new();
    let mut i: usize = v.len();
    while i > 0
        invariant
            0 <= i <= v@.len(),
            r@ == v@.skip(i as int).reverse(),
        decreases i,
    {
        i = i - 1;
        assert(v@.skip(i as int).reverse() =~= v@.skip(i + 1).reverse().push(v@[i as int]));
        r.push(v[i]);
    }
    assert(v@.skip(0) =~= v@);
    r
}

/// Pushes up to `steps` copies of `dir`, stopping once `directions` holds `n`
/// moves; returns whether it stopped for that reason.
fn push_run(directions: &mut Vec<Direction>, n: usize, steps: usize, dir: Direction) -> (full: bool)
    requires
        old(directions)@.len() <= n,
    ensures
        final(directions)@.len() <= n,
        full ==> final(directions)@.len() == n,
        full ==> final(directions)@ == old(directions)@ + Seq::new(
            (n - old(directions)@.len()) as nat,
            |k: int| dir,
        ),
        full ==> n - old(directions)@.len() <= steps,
        !full ==> final(directions)@ == old(directions)@ + Seq::new(steps as nat, |k: int| dir),
{
    let ghost start = directions@;
    let mut i: usize = 0;
    while i < steps
        invariant
            0 <= i <= steps,
            start == old(directions)@,
            directions@.len() <= n,
            directions@ == start + Seq::new(i as nat, |k: int| dir),
        decreases steps - i,
    {
        if directions.len() >= n {
            assert(directions@ =~= start + Seq::new((n - start.len()) as nat, |k: int| dir));
            return true;
        }
        directions.push(dir);
        assert(directions@ =~= start + Seq::new((i + 1) as nat, |k: int| dir));
        i = i + 1;
    }
    false
}

/// Returns the first `n` moves of the spiral whose runs grow by `unit`, last move first.
fn spiral_directions(n: usize, unit: usize) -> (r: Vec<Direction>)
    requires
        n <= isize::MAX,
        1 <= unit <= 3,
    ensures
        r@ == spiral_moves(unit as nat, n as nat).reverse(),
{
    let mut directions: Vec<Direction> = Vec::with_capacity(n);
    let mut steps: usize = unit;
    let ghost mut seg: nat = 0;
    assert(steps == run_len(unit as nat, 0)) by (nonlinear_arith)
        requires
            steps == unit,
    ;
    assert(directions@ == spiral_runs(unit as nat, 0));
    loop
        invariant
            n <= isize::MAX,
            1 <= unit <= 3,
            seg % 4 == 0,
            seg <= directions@.len() <= n,
            steps == run_len(unit as nat, seg),
            directions@ == spiral_runs(unit as nat, seg),
        decreases n - directions@.len() + (if directions@.len() == n { 0int } else { 1int }),
    {
        assert(run_len(unit as nat, seg) == run_len(unit as nat, seg + 1));
        assert(spiral_dir(seg) == Direction::Right);
        assert(spiral_dir(seg + 1) == Direction::Down);
        assert(spiral_dir(seg + 2) == Direction::Left);
        assert(spiral_dir(seg + 3) == Direction::Up);
        assert(steps >= 1) by (nonlinear_arith)
            requires
                steps == unit * (seg / 2 + 1),
                unit >= 1,
        ;
        let ghost before = directions@;
        if push_run(&mut directions, n, steps, Direction::Right) {
            proof { lemma_spiral_done(unit as nat, n as nat, seg, before, directions@); }
            return reversed(directions);
        }
        assert(directions@ =~= spiral_runs(unit as nat, seg + 1));
        let ghost before = directions@;
        if push_run(&mut directions, n, steps, Direction::Down) {
            proof { lemma_spiral_done(unit as nat, n as nat, seg + 1, before, directions@); }
            return reversed(directions);
        }
        proof {
            assert(steps * 2 <= n + 3) by (nonlinear_arith)
                requires
                    steps == unit * (seg / 2 + 1),
                    seg % 2 == 0,
                    seg + 2 * steps <= n,
                    unit <= 3,
            ;
        }
        steps = steps + unit;
        assert(steps == run_len(unit as nat, seg + 2)) by (nonlinear_arith)
            requires
                steps == unit * (seg / 2 + 1) + unit,
                seg % 2 == 0,
        ;
        assert(directions@ =~= spiral_runs(unit as nat, seg + 2));
        let ghost before = directions@;
        if push_run(&mut directions, n, steps, Direction::Left) {
            proof { lemma_spiral_done(unit as nat, n as nat, seg + 2, before, directions@); }
            return reversed(directions);
        }
        assert(run_len(unit as nat, seg + 2) == run_len(unit as nat, seg + 3));
        assert(directions@ =~= spiral_runs(unit as nat, seg + 3));
        let ghost before = directions@;
        if push_run(&mut directions, n, steps, Direction::Up) {
            proof { lemma_spiral_done(unit as nat, n as nat, seg + 3, before, directions@); }
            return reversed(directions);
        }
        proof {
            assert(steps * 2 <= n + 3) by (nonlinear_arith)
                requires
                    steps == unit * ((seg + 2) / 2 + 1),
                    seg % 2 == 0,
                    seg + 2 + 2 * steps <= n,
                    unit <= 3,
            ;
        }
        steps = steps + unit;
        assert(steps == run_len(unit as nat, seg + 4)) by (nonlinear_arith)
            requires
                steps == unit * ((seg + 2) / 2 + 1) + unit,
                seg % 2 == 0,
        ;
        assert(directions@ =~= spiral_runs(unit as nat, seg + 4));
        proof {
            seg = seg + 4;
        }
    }
}

/// A run that fills the spiral up to `n` moves leaves exactly its first `n` moves.
proof fn lemma_spiral_done(unit: nat, n: nat, s: nat, before: Seq<Direction>, after: Seq<Direction>)
    requires
        unit >= 1,
        before == spiral_runs(unit, s),
        s <= n,
        after.len() == n,
        after == before + Seq::new((n - before.len()) as nat, |k: int| spiral_dir(s)),
        n - before.len() <= run_len(unit, s),
    ensures
        after == spiral_moves(unit, n),
{
    let next = spiral_runs(unit, s + 1);
    assert(after =~= next.take(n as int));
    lemma_spiral_runs_prefix(unit, s + 1, n + 1);
    lemma_spiral_runs_len(unit, n);
    if s + 1 <= n {
        lemma_spiral_runs_prefix(unit, s + 1, n);
        let rn = spiral_runs(unit, n);
        assert(rn.take(next.len() as int) == next);
        assert(rn.take(n as int) =~= next.take(n as int));
    } else {
        assert(s == n);
        assert(before.len() >= s) by {
            lemma_spiral_runs_len(unit, s);
        }
        assert(after =~= before);
        assert(spiral_runs(unit, n).take(n as int) =~= before);
    }
}

/// The moves a spiral function returns for `n` are those it returns for
/// `n - 1` with the `n`-th move of the spiral in front: taking moves off the
/// end of the result walks the spiral from its start.
pub proof fn lemma_spiral_result_prefix(unit: nat, n: nat)
    requires
        unit >= 1,
        n >= 1,
    ensures
        spiral_moves(unit, n).reverse().len() == n,
        spiral_moves(unit, n).reverse().subrange(1, n as int) == spiral_moves(unit, (n - 1) as nat).reverse(),
        spiral_moves(unit, n).reverse()[0] == spiral_moves(unit, n)[n - 1],
        spiral_moves(unit, n).reverse()[n - 1] == spiral_moves(unit, n)[0],
{
    lemma_spiral_moves_prefix(unit, (n - 1) as nat, n);
    lemma_spiral_moves_prefix(unit, n, n);
    let a = spiral_moves(unit, n);
    let b = spiral_moves(unit, (n - 1) as nat);
    assert(a.reverse().subrange(1, n as int) =~= b.reverse()) by {
        assert forall|i: int| 0 <= i < n - 1 implies a.reverse().subrange(1, n as int)[i] == b.reverse()[i] by {
            assert(a.take((n - 1) as int)[n - 2 - i] == a[n - 2 - i]);
        }
    }
}

/// Returns the first `n` moves of a spiral whose runs are 1, 1, 2, 2, 3, 3, ... long, last move first.
pub fn spiral_directions_gab(n: usize) -> (r: Vec<Direction>)
    requires
        n <= isize::MAX,
    ensures
        r@ == spiral_moves(1, n as nat).reverse(),
        r@.len() == n,
{
    proof {
        lemma_spiral_moves_prefix(1, n as nat, n as nat);
    }
    spiral_directions(n, 1)
}

/// Returns the first `n` moves of a spiral whose runs are 3, 3, 6, 6, 9, 9, ... long, last move first.
pub fn spiral_directions_gab_2(n: usize) -> (r: Vec<Direction>)
    requires
        n <= isize::MAX,
    ensures
        r@ == spiral_moves(3, n as nat).reverse(),
        r@.len() == n,
{
    proof {
        lemma_spiral_moves_prefix(3, n as nat, n as nat);
    }
    spiral_directions(n, 3)
}

} // verus!
