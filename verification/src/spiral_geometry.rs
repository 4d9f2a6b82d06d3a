//! Where a spiral leads: the position reached by following its runs.
use vstd::prelude::*;
use crate::lumberjack::{follow, move_by};
use crate::spiral::{run_len, spiral_dir, spiral_runs};
use crate::world::Direction;

verus! {

proof fn lemma_follow_concat(c: (int, int), a: Seq<Direction>, b: Seq<Direction>)
    ensures
        follow(c, a + b) == follow(follow(c, a), b),
    decreases b.len(),
{
    if b.len() == 0 {
        assert(a + b =~= a);
    } else {
        assert((a + b).drop_last() =~= a + b.drop_last());
        assert((a + b).last() == b.last());
        lemma_follow_concat(c, a, b.drop_last());
    }
}

proof fn lemma_follow_run(c: (int, int), n: nat, d: Direction)
    ensures
        follow(c, Seq::new(n, |k: int| d)) == (c.0 + n * (move_by((0, 0), d).0), c.1 + n * (move_by(
            (0, 0),
            d,
        ).1)),
    decreases n,
{
    if n > 0 {
        assert(Seq::new(n, |k: int| d).drop_last() =~= Seq::new((n - 1) as nat, |k: int| d));
        lemma_follow_run(c, (n - 1) as nat, d);
        let o = move_by((0, 0), d);
        let p = follow(c, Seq::new((n - 1) as nat, |k: int| d));
        assert(Seq::new(n, |k: int| d).last() == d);
        assert(move_by(p, d) == (p.0 + o.0, p.1 + o.1));
        assert(n * o.0 == (n - 1) * o.0 + o.0) by (nonlinear_arith);
        assert(n * o.1 == (n - 1) * o.1 + o.1) by (nonlinear_arith);
        assert(follow(c, Seq::new(n, |k: int| d)) == move_by(p, d));
    } else {
        let o = move_by((0, 0), d);
        assert(n * o.0 == 0 && n * o.1 == 0) by (nonlinear_arith)
            requires
                n == 0,
        ;
    }
}

proof fn lemma_follow_runs_step(c: (int, int), unit: nat, s: nat)
    requires
        s > 0,
    ensures
        follow(c, spiral_runs(unit, s)) == ({
            let p = follow(c, spiral_runs(unit, (s - 1) as nat));
            let o = move_by((0, 0), spiral_dir((s - 1) as nat));
            let n = run_len(unit, (s - 1) as nat);
            (p.0 + n * o.0, p.1 + n * o.1)
        }),
{
    let f = |k: int| spiral_dir((s - 1) as nat);
    lemma_follow_concat(c, spiral_runs(unit, (s - 1) as nat), Seq::new(run_len(unit, (s - 1) as nat), f));
    lemma_follow_run(
        follow(c, spiral_runs(unit, (s - 1) as nat)),
        run_len(unit, (s - 1) as nat),
        spiral_dir((s - 1) as nat),
    );
}

/// Every four runs of a spiral (right, down, left, up) leave the robot one
/// step of the spiral's unit up and to the left of where those runs began:
/// after `4 j` runs it stands `j * unit` rows up and `j * unit` columns left
/// of the spiral's start.
pub proof fn lemma_spiral_turns(unit: nat, j: nat)
    ensures
        follow((0, 0), spiral_runs(unit, 4 * j)) == (-(j * unit), -(j * unit)),
    decreases j,
{
    if j > 0 {
        let i = 4 * (j - 1);
        lemma_spiral_turns(unit, (j - 1) as nat);
        lemma_follow_runs_step((0, 0), unit, (i + 1) as nat);
        lemma_follow_runs_step((0, 0), unit, (i + 2) as nat);
        lemma_follow_runs_step((0, 0), unit, (i + 3) as nat);
        lemma_follow_runs_step((0, 0), unit, (i + 4) as nat);
        assert(spiral_dir(i as nat) == Direction::Right);
        assert(spiral_dir((i + 1) as nat) == Direction::Down);
        assert(spiral_dir((i + 2) as nat) == Direction::Left);
        assert(spiral_dir((i + 3) as nat) == Direction::Up);
        let a = unit * (2 * (j - 1) + 1);
        let b = unit * (2 * (j - 1) + 2);
        assert(run_len(unit, i as nat) == a);
        assert(run_len(unit, (i + 1) as nat) == a);
        assert(run_len(unit, (i + 2) as nat) == b);
        assert(run_len(unit, (i + 3) as nat) == b);
        assert(b == a + unit) by (nonlinear_arith)
            requires
                a == unit * (2 * (j - 1) + 1),
                b == unit * (2 * (j - 1) + 2),
        ;
        assert(j * unit == (j - 1) * unit + unit) by (nonlinear_arith);
        let p0 = follow((0, 0), spiral_runs(unit, i as nat));
        let p1 = follow((0, 0), spiral_runs(unit, (i + 1) as nat));
        let p2 = follow((0, 0), spiral_runs(unit, (i + 2) as nat));
        let p3 = follow((0, 0), spiral_runs(unit, (i + 3) as nat));
        let p4 = follow((0, 0), spiral_runs(unit, (i + 4) as nat));
        assert(a * 0 == 0 && a * 1 == a && b * 0 == 0 && b * -1 == -b) by (nonlinear_arith);
        assert(p1 == (p0.0, p0.1 + a));
        assert(p2 == (p1.0 + a, p1.1));
        assert(p3 == (p2.0, p2.1 - b));
        assert(p4 == (p3.0 - b, p3.1));
        assert(4 * j == i + 4);
    } else {
        assert(j * unit == 0) by (nonlinear_arith)
            requires
                j == 0,
        ;
    }
}

} // verus!
