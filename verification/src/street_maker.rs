//! A road-building robot: it spirals outwards looking at its surroundings,
//! picks up rocks and notes the first two buildings it sees, then walks to the
//! first building and paves a road to the second.
use vstd::prelude::*;
use crate::world::{Content, Direction};

verus! {

/// What the road builder is busy with.
#[derive(Clone, Copy, Debug, PartialEq, Eq, Structural)]
pub enum RobotState {
    Idle,
    Exploring,
    PavingRoad,
}

/// One queued action: move up, right, down or left (stepping aside when
/// blocked), look around, pick up a rock, or pave the road in a direction.
#[derive(Clone, Copy, Debug, PartialEq, Eq, Structural)]
pub enum ActionsEncoding {
    MU,
    MR,
    MD,
    ML,
    RW,
    PR(Direction),
    TR(Direction),
}

/// One step of a route the path finder returns.
#[derive(Clone, Copy, Debug, PartialEq, Eq, Structural)]
pub enum RouteStep {
    Control(Direction),
    Other,
}

/// How picking up a rock went: picked, the backpack was full, another error,
/// or not tried because the backpack is known to be full.
#[derive(Clone, Copy, Debug, PartialEq, Eq, Structural)]
pub enum PickOutcome {
    Picked,
    NotEnoughSpace,
    OtherError,
    Skipped,
}

/// How paving went: paved, no rock left to pave with, or another error.
#[derive(Clone, Copy, Debug, PartialEq, Eq, Structural)]
pub enum PaveOutcome {
    Paved,
    NoRockHere,
    OtherError,
}

/// What the world reports back after the front action was performed.
pub enum FrontOutcome {
    /// A move; `shifted` when the main direction was blocked and the robot stepped aside.
    Moved(bool),
    /// A look around: the contents of the 3 x 3 tiles centred on the robot at (`x`, `y`).
    Viewed(Vec<Vec<Content>>, i32, i32),
    Picked(PickOutcome),
    /// A paving attempt, with the robot's position (row, column).
    Paved(PaveOutcome, i32, i32),
}

/// The road builder's own state.
pub struct RobotAttributes {
    pub state: RobotState,
    pub inventory_full: bool,
    pub future_actions: Vec<ActionsEncoding>,
    pub spiral_radius: i32,
    pub spiral_shift: i32,
    pub building_1: Option<(i32, i32)>,
    pub building_2: Option<(i32, i32)>,
    pub path_first_building_calculated: bool,
    pub printed_message: bool,
}

/// The move action for direction `d`.
pub open spec fn move_action(d: Direction) -> ActionsEncoding {
    match d {
        Direction::Up => ActionsEncoding::MU,
        Direction::Down => ActionsEncoding::MD,
        Direction::Left => ActionsEncoding::ML,
        Direction::Right => ActionsEncoding::MR,
    }
}

/// Returns the move action for direction `d`.
pub fn move_for(d: Direction) -> (r: ActionsEncoding)
    ensures
        r == move_action(d),
{
    match d {
        Direction::Up => ActionsEncoding::MU,
        Direction::Down => ActionsEncoding::MD,
        Direction::Left => ActionsEncoding::ML,
        Direction::Right => ActionsEncoding::MR,
    }
}

/// The directions a move action tries in order: the main one, then the three
/// it steps aside to when blocked.
pub open spec fn backoff_of(a: ActionsEncoding) -> Option<(Direction, Direction, Direction, Direction)> {
    match a {
        ActionsEncoding::MU => Some((Direction::Up, Direction::Right, Direction::Left, Direction::Down)),
        ActionsEncoding::MR => Some((Direction::Right, Direction::Down, Direction::Up, Direction::Left)),
        ActionsEncoding::MD => Some((Direction::Down, Direction::Left, Direction::Right, Direction::Up)),
        ActionsEncoding::ML => Some((Direction::Left, Direction::Up, Direction::Down, Direction::Right)),
        _ => None,
    }
}

/// Returns the directions a move action tries, or `None` for the other actions.
pub fn backoff_directions(a: ActionsEncoding) -> (r: Option<(Direction, Direction, Direction, Direction)>)
    ensures
        r == backoff_of(a),
{
    match a {
        ActionsEncoding::MU => Some((Direction::Up, Direction::Right, Direction::Left, Direction::Down)),
        ActionsEncoding::MR => Some((Direction::Right, Direction::Down, Direction::Up, Direction::Left)),
        ActionsEncoding::MD => Some((Direction::Down, Direction::Left, Direction::Right, Direction::Up)),
        ActionsEncoding::ML => Some((Direction::Left, Direction::Up, Direction::Down, Direction::Right)),
        _ => None,
    }
}

/// What to do next while moving with backoff.
#[derive(Clone, Copy, Debug, PartialEq, Eq, Structural)]
pub enum BackoffStep {
    /// Try to move in this direction and report whether it worked.
    Try(Direction),
    /// The move is over; `shifted` when the main direction was blocked.
    Done(bool),
}

/// Decides the next step of a move with backoff, given whether each attempt
/// so far succeeded: the main direction first; when it fails, the three
/// others in turn until one works (the last is tried whatever happens).
pub fn move_with_backoff(
    main_direction: Direction,
    backoff1: Direction,
    backoff2: Direction,
    backoff3: Direction,
    results: &Vec<bool>,
) -> (r: BackoffStep)
    ensures
        results@.len() == 0 ==> r == BackoffStep::Try(main_direction),
        results@.len() >= 1 && results@[0] ==> r == BackoffStep::Done(false),
        results@.len() == 1 && !results@[0] ==> r == BackoffStep::Try(backoff1),
        results@.len() >= 2 && !results@[0] && results@[1] ==> r == BackoffStep::Done(true),
        results@.len() == 2 && !results@[0] && !results@[1] ==> r == BackoffStep::Try(backoff2),
        results@.len() >= 3 && !results@[0] && !results@[1] && results@[2] ==> r == BackoffStep::Done(
            true,
        ),
        results@.len() == 3 && !results@[0] && !results@[1] && !results@[2] ==> r == BackoffStep::Try(
            backoff3,
        ),
        results@.len() >= 4 && !results@[0] && !results@[1] && !results@[2] ==> r
            == BackoffStep::Done(true),
{
    if results.len() == 0 {
        return BackoffStep::Try(main_direction);
    }
    if results[0] {
        return BackoffStep::Done(false);
    }
    if results.len() == 1 {
        return BackoffStep::Try(backoff1);
    }
    if results[1] {
        return BackoffStep::Done(true);
    }
    if results.len() == 2 {
        return BackoffStep::Try(backoff2);
    }
    if results[2] {
        return BackoffStep::Done(true);
    }
    if results.len() == 3 {
        return BackoffStep::Try(backoff3);
    }
    BackoffStep::Done(true)
}

/// The actions queued, in order of insertion, for a rock seen at (`row`, `col`)
/// of the 3 x 3 view: step aside, pick it up, step back, or pick it up directly.
pub open spec fn rock_inserts(row: int, col: int) -> Seq<ActionsEncoding> {
    if row == 0 {
        if col == 0 {
            seq![ActionsEncoding::MR, ActionsEncoding::PR(Direction::Up), ActionsEncoding::ML]
        } else if col == 1 {
            seq![ActionsEncoding::PR(Direction::Up)]
        } else {
            seq![ActionsEncoding::ML, ActionsEncoding::PR(Direction::Up), ActionsEncoding::MR]
        }
    } else if row == 1 {
        if col == 0 {
            seq![ActionsEncoding::PR(Direction::Left)]
        } else if col == 1 {
            Seq::empty()
        } else {
            seq![ActionsEncoding::PR(Direction::Right)]
        }
    } else {
        if col == 0 {
            seq![ActionsEncoding::MR, ActionsEncoding::PR(Direction::Down), ActionsEncoding::ML]
        } else if col == 1 {
            seq![ActionsEncoding::PR(Direction::Down)]
        } else {
            seq![ActionsEncoding::ML, ActionsEncoding::PR(Direction::Down), ActionsEncoding::MR]
        }
    }
}

/// What looking at the first `k` tiles of the view (row by row) adds: the
/// actions inserted for rocks (unless the backpack is full), and the
/// buildings noted: the first one seen, then the first different one.
pub open spec fn view_scan(
    view: Seq<Seq<Content>>,
    full: bool,
    x: int,
    y: int,
    b1: Option<(i32, i32)>,
    b2: Option<(i32, i32)>,
    k: nat,
) -> (Seq<ActionsEncoding>, Option<(i32, i32)>, Option<(i32, i32)>)
    decreases k,
{
    if k == 0 {
        (Seq::empty(), b1, b2)
    } else {
        let (ins, c1, c2) = view_scan(view, full, x, y, b1, b2, (k - 1) as nat);
        let row = (k - 1) / 3;
        let col = (k - 1) % 3;
        let p = ((x + row - 1) as i32, (y + col - 1) as i32);
        match view[row][col] {
            Content::Rock(_) => if !full {
                (ins + rock_inserts(row, col), c1, c2)
            } else {
                (ins, c1, c2)
            },
            Content::Building => if c1 is None {
                (ins, Some(p), c2)
            } else if c2 is None && c1.unwrap() != p {
                (ins, c1, Some(p))
            } else {
                (ins, c1, c2)
            },
            _ => (ins, c1, c2),
        }
    }
}

/// The move actions of the control steps of `route`, in order.
pub open spec fn route_moves(route: Seq<RouteStep>) -> Seq<ActionsEncoding>
    decreases route.len(),
{
    if route.len() == 0 {
        Seq::empty()
    } else {
        match route[0] {
            RouteStep::Control(d) => seq![move_action(d)] + route_moves(route.drop_first()),
            RouteStep::Other => route_moves(route.drop_first()),
        }
    }
}

/// For each control step of `route`, in order: pave in its direction, then move there.
pub open spec fn paving_actions(route: Seq<RouteStep>) -> Seq<ActionsEncoding>
    decreases route.len(),
{
    if route.len() == 0 {
        Seq::empty()
    } else {
        match route[0] {
            RouteStep::Control(d) => seq![ActionsEncoding::TR(d), move_action(d)] + paving_actions(
                route.drop_first(),
            ),
            RouteStep::Other => paving_actions(route.drop_first()),
        }
    }
}

/// The number of steps of each run of the exploration spiral for radius `r`:
/// half of it, rounded up.
pub open spec fn run_steps(r: int) -> int {
    r / 2 + if r % 2 != 0 {
        1int
    } else {
        0int
    }
}

/// The move of run `i` of the exploration plan: right, down, left, up.
pub open spec fn plan_move(i: int) -> ActionsEncoding {
    if i % 4 == 0 {
        ActionsEncoding::MR
    } else if i % 4 == 1 {
        ActionsEncoding::MD
    } else if i % 4 == 2 {
        ActionsEncoding::ML
    } else {
        ActionsEncoding::MU
    }
}

/// The first `i` runs of the exploration plan from radius `r0`: run `j` makes
/// `run_steps(r0 + 3 j)` moves, each followed by a look around.
pub open spec fn exploration_plan(r0: int, i: nat) -> Seq<ActionsEncoding>
    decreases i,
{
    if i == 0 {
        Seq::empty()
    } else {
        let j = i - 1;
        exploration_plan(r0, j as nat) + Seq::new(
            (2 * run_steps(r0 + 3 * j)) as nat,
            |k: int|
                if k % 2 == 0 {
                    plan_move(j)
                } else {
                    ActionsEncoding::RW
                },
        )
    }
}

/// The outcome reported fits the action at the front of the queue.
pub open spec fn outcome_fits(front: ActionsEncoding, outcome: FrontOutcome) -> bool {
    match outcome {
        FrontOutcome::Moved(_) => backoff_of(front) is Some,
        FrontOutcome::Viewed(v, x, y) => {
            &&& front == ActionsEncoding::RW
            &&& v@.len() == 3
            &&& forall|r: int| 0 <= r < 3 ==> (#[trigger] v@[r])@.len() == 3
            &&& i32::MIN < x < i32::MAX
            &&& i32::MIN < y < i32::MAX
        },
        FrontOutcome::Picked(_) => front is PR,
        FrontOutcome::Paved(_, _, _) => front is TR,
    }
}

/// The 3 x 3 view as rows of contents.
pub open spec fn view_rows(v: Seq<Vec<Content>>) -> Seq<Seq<Content>> {
    Seq::new(v.len(), |i: int| v[i]@)
}

/// Everything but the queue and the fields named is unchanged.
pub open spec fn same_flags(s: RobotAttributes, t: RobotAttributes) -> bool {
    &&& t.state == s.state
    &&& t.inventory_full == s.inventory_full
    &&& t.spiral_radius == s.spiral_radius
    &&& t.spiral_shift == s.spiral_shift
    &&& t.building_1 == s.building_1
    &&& t.building_2 == s.building_2
    &&& t.path_first_building_calculated == s.path_first_building_calculated
    &&& t.printed_message == s.printed_message
}

/// The queue minus its front action.
pub open spec fn rest_of(q: Seq<ActionsEncoding>) -> Seq<ActionsEncoding> {
    q.drop_first()
}

/// What taking in the outcome of the front action does to the state `s`:
/// the action leaves the queue and the outcome is recorded.
pub open spec fn front_step(s: RobotAttributes, t: RobotAttributes, outcome: FrontOutcome) -> bool {
    match outcome {
        FrontOutcome::Moved(shifted) => {
            &&& t.future_actions@ == rest_of(s.future_actions@)
            &&& t.spiral_shift == (if shifted {
                s.spiral_shift + 1
            } else {
                0
            })
            &&& t.state == s.state
            &&& t.inventory_full == s.inventory_full
            &&& t.spiral_radius == s.spiral_radius
            &&& t.building_1 == s.building_1
            &&& t.building_2 == s.building_2
            &&& t.path_first_building_calculated
                == s.path_first_building_calculated
            &&& t.printed_message == s.printed_message
        },
        FrontOutcome::Viewed(v, x, y) => {
            let (ins, b1, b2) = view_scan(
                view_rows(v@),
                s.inventory_full,
                x as int,
                y as int,
                s.building_1,
                s.building_2,
                9,
            );
            &&& t.building_1 == b1
            &&& t.building_2 == b2
            &&& t.inventory_full == s.inventory_full
            &&& t.spiral_radius == s.spiral_radius
            &&& t.spiral_shift == s.spiral_shift
            &&& t.path_first_building_calculated
                == s.path_first_building_calculated
            &&& t.printed_message == s.printed_message
            &&& if s.inventory_full && b1 is Some && b2 is Some {
                t.state == RobotState::PavingRoad && t.future_actions@
                    == Seq::<ActionsEncoding>::empty()
            } else {
                t.state == s.state && t.future_actions@
                    == ins.reverse() + rest_of(s.future_actions@)
            }
        },
        FrontOutcome::Picked(p) => {
            &&& t.future_actions@ == rest_of(s.future_actions@)
            &&& t.inventory_full == (s.inventory_full || p
                == PickOutcome::NotEnoughSpace)
            &&& t.state == s.state
            &&& t.spiral_radius == s.spiral_radius
            &&& t.spiral_shift == s.spiral_shift
            &&& t.building_1 == s.building_1
            &&& t.building_2 == s.building_2
            &&& t.path_first_building_calculated
                == s.path_first_building_calculated
            &&& t.printed_message == s.printed_message
        },
        FrontOutcome::Paved(p, x, y) => if p == PaveOutcome::NoRockHere {
            &&& t.future_actions@ == Seq::<ActionsEncoding>::empty()
            &&& t.building_1 == Some((x, y))
            &&& t.building_2 == s.building_2
            &&& !t.path_first_building_calculated
            &&& !t.inventory_full
            &&& t.spiral_radius == 3
            &&& t.spiral_shift == 0
            &&& t.state == RobotState::Idle
            &&& t.printed_message == s.printed_message
        } else {
            t.future_actions@ == rest_of(s.future_actions@) && same_flags(
                s,
                t,
            )
        },
    }
}

/// What planning the rest of a tick does to the state `s`, the robot standing
/// at `pos`, with `route` the route to the building the tick needs one to.
pub open spec fn plan_step(s: RobotAttributes, t: RobotAttributes, pos: (i32, i32), route: Seq<RouteStep>) -> bool {
    match s.state {
        RobotState::Idle => {
            &&& t.future_actions@ == seq![ActionsEncoding::RW] + s.future_actions@ + exploration_plan(3, 24)
            &&& t.spiral_radius == 75
            &&& t.state == RobotState::Exploring
            &&& t.inventory_full == s.inventory_full
            &&& t.spiral_shift == s.spiral_shift
            &&& t.building_1 == s.building_1
            &&& t.building_2 == s.building_2
            &&& t.path_first_building_calculated
                == s.path_first_building_calculated
            &&& t.printed_message == s.printed_message
        },
        RobotState::Exploring => t.future_actions@ == s.future_actions@
            && same_flags(s, t),
        RobotState::PavingRoad => if !s.path_first_building_calculated {
            &&& t.future_actions@ == route_moves(route) + s.future_actions@
            &&& t.path_first_building_calculated
            &&& t.state == s.state
            &&& t.inventory_full == s.inventory_full
            &&& t.spiral_radius == s.spiral_radius
            &&& t.spiral_shift == s.spiral_shift
            &&& t.building_1 == s.building_1
            &&& t.building_2 == s.building_2
            &&& t.printed_message == s.printed_message
        } else if s.future_actions@.len() == 0 && s.building_1 == Some(pos) {
            t.future_actions@ == paving_actions(route) && same_flags(
                s,
                t,
            )
        } else if s.future_actions@.len() == 0 && s.building_2 == Some(pos) {
            &&& t.future_actions@ == seq![ActionsEncoding::RW]
            &&& t.printed_message
            &&& t.state == s.state
            &&& t.inventory_full == s.inventory_full
            &&& t.spiral_radius == s.spiral_radius
            &&& t.spiral_shift == s.spiral_shift
            &&& t.building_1 == s.building_1
            &&& t.building_2 == s.building_2
            &&& t.path_first_building_calculated
                == s.path_first_building_calculated
        } else {
            t.future_actions@ == s.future_actions@ && same_flags(
                s,
                t,
            )
        },
    }
}

/// Looking around keeps a building already known: only missing ones are filled in.
proof fn lemma_view_scan_keeps_known(
    view: Seq<Seq<Content>>,
    full: bool,
    x: int,
    y: int,
    b1: Option<(i32, i32)>,
    b2: Option<(i32, i32)>,
    k: nat,
)
    ensures
        b1 is Some ==> view_scan(view, full, x, y, b1, b2, k).1 == b1,
        b2 is Some ==> view_scan(view, full, x, y, b1, b2, k).2 == b2,
    decreases k,
{
    if k > 0 {
        lemma_view_scan_keeps_known(view, full, x, y, b1, b2, (k - 1) as nat);
    }
}

/// Where a move action takes the robot, as (rows, columns).
pub open spec fn action_offset(a: ActionsEncoding) -> (int, int) {
    match a {
        ActionsEncoding::MU => (-1, 0),
        ActionsEncoding::MD => (1, 0),
        ActionsEncoding::ML => (0, -1),
        ActionsEncoding::MR => (0, 1),
        _ => (0, 0),
    }
}

/// The tile next to the robot in direction `d`, as (rows, columns).
pub open spec fn direction_offset(d: Direction) -> (int, int) {
    match d {
        Direction::Up => (-1, 0),
        Direction::Down => (1, 0),
        Direction::Left => (0, -1),
        Direction::Right => (0, 1),
    }
}

/// Where the robot stands after performing `acts` from `p`, when every move succeeds.
pub open spec fn position_after(p: (int, int), acts: Seq<ActionsEncoding>) -> (int, int)
    decreases acts.len(),
{
    if acts.len() == 0 {
        p
    } else {
        let o = action_offset(acts[0]);
        position_after((p.0 + o.0, p.1 + o.1), acts.drop_first())
    }
}

/// The tiles that the pick-ups among `acts`, performed from `p`, take from, in order.
pub open spec fn pickup_tiles(p: (int, int), acts: Seq<ActionsEncoding>) -> Seq<(int, int)>
    decreases acts.len(),
{
    if acts.len() == 0 {
        Seq::empty()
    } else {
        let o = action_offset(acts[0]);
        let here = match acts[0] {
            ActionsEncoding::PR(d) => seq![(p.0 + direction_offset(d).0, p.1 + direction_offset(d).1)],
            _ => Seq::empty(),
        };
        here + pickup_tiles((p.0 + o.0, p.1 + o.1), acts.drop_first())
    }
}

proof fn lemma_actions_concat(p: (int, int), a: Seq<ActionsEncoding>, b: Seq<ActionsEncoding>)
    ensures
        position_after(p, a + b) == position_after(position_after(p, a), b),
        pickup_tiles(p, a + b) == pickup_tiles(p, a) + pickup_tiles(position_after(p, a), b),
    decreases a.len(),
{
    if a.len() > 0 {
        let o = action_offset(a[0]);
        let q = (p.0 + o.0, p.1 + o.1);
        assert((a + b).drop_first() =~= a.drop_first() + b);
        assert((a + b)[0] == a[0]);
        lemma_actions_concat(q, a.drop_first(), b);
        let here = match a[0] {
            ActionsEncoding::PR(d) => seq![(p.0 + direction_offset(d).0, p.1 + direction_offset(d).1)],
            _ => Seq::<(int, int)>::empty(),
        };
        assert(pickup_tiles(p, a + b) == here + pickup_tiles(q, a.drop_first() + b));
        assert(pickup_tiles(p, a) == here + pickup_tiles(q, a.drop_first()));
        assert(here + (pickup_tiles(q, a.drop_first()) + pickup_tiles(position_after(q, a.drop_first()), b))
            =~= (here + pickup_tiles(q, a.drop_first())) + pickup_tiles(position_after(q, a.drop_first()), b));
    } else {
        assert(a + b =~= b);
        assert(pickup_tiles(p, a) =~= Seq::<(int, int)>::empty());
        assert(Seq::<(int, int)>::empty() + pickup_tiles(p, b) =~= pickup_tiles(p, b));
    }
}

/// The actions queued for one rock, in the order they are performed, bring
/// the robot back where it stood and pick up exactly the rock's tile.
proof fn lemma_rock_block(row: int, col: int)
    requires
        0 <= row < 3,
        0 <= col < 3,
        !(row == 1 && col == 1),
    ensures
        position_after((0, 0), rock_inserts(row, col).reverse()) == (0int, 0int),
        pickup_tiles((0, 0), rock_inserts(row, col).reverse()) == seq![(row - 1, col - 1)],
{
    reveal_with_fuel(position_after, 4);
    reveal_with_fuel(pickup_tiles, 4);
    let acts = rock_inserts(row, col).reverse();
    if row == 0 && col == 0 {
        assert(acts =~= seq![ActionsEncoding::ML, ActionsEncoding::PR(Direction::Up), ActionsEncoding::MR]);
    } else if row == 0 && col == 1 {
        assert(acts =~= seq![ActionsEncoding::PR(Direction::Up)]);
    } else if row == 0 {
        assert(acts =~= seq![ActionsEncoding::MR, ActionsEncoding::PR(Direction::Up), ActionsEncoding::ML]);
    } else if row == 1 && col == 0 {
        assert(acts =~= seq![ActionsEncoding::PR(Direction::Left)]);
    } else if row == 1 {
        assert(acts =~= seq![ActionsEncoding::PR(Direction::Right)]);
    } else if col == 0 {
        assert(acts =~= seq![ActionsEncoding::ML, ActionsEncoding::PR(Direction::Down), ActionsEncoding::MR]);
    } else if col == 1 {
        assert(acts =~= seq![ActionsEncoding::PR(Direction::Down)]);
    } else {
        assert(acts =~= seq![ActionsEncoding::MR, ActionsEncoding::PR(Direction::Down), ActionsEncoding::ML]);
    }
    let a1 = acts.drop_first();
    if acts.len() > 1 {
        let a2 = a1.drop_first();
        assert(a2.drop_first().len() == 0);
    } else {
        assert(a1.len() == 0);
    }
}

proof fn lemma_pickups_upto(
    view: Seq<Seq<Content>>,
    x: int,
    y: int,
    b1: Option<(i32, i32)>,
    b2: Option<(i32, i32)>,
    k: nat,
)
    requires
        k <= 9,
    ensures
        ({
            let acts = view_scan(view, false, x, y, b1, b2, k).0.reverse();
            &&& position_after((0, 0), acts) == (0int, 0int)
            &&& forall|t: (int, int)|
                #[trigger] pickup_tiles((0, 0), acts).contains(t) ==> exists|r: int, c: int|
                    0 <= r < 3 && 0 <= c < 3 && r * 3 + c < k && !(r == 1 && c == 1) && view[r][c] is Rock && t == (r
                        - 1, c - 1)
            &&& forall|r: int, c: int|
                0 <= r < 3 && 0 <= c < 3 && r * 3 + c < k && !(r == 1 && c == 1) && #[trigger] view[r][c] is Rock
                    ==> pickup_tiles((0, 0), acts).contains((r - 1, c - 1))
        }),
    decreases k,
{
    if k > 0 {
        let kk = (k - 1) as nat;
        lemma_pickups_upto(view, x, y, b1, b2, kk);
        let prev = view_scan(view, false, x, y, b1, b2, kk).0;
        let row: int = (k - 1) / 3;
        let col: int = (k - 1) % 3;
        let acts = view_scan(view, false, x, y, b1, b2, k).0.reverse();
        let pacts = prev.reverse();
        if view[row][col] is Rock {
            let ins = rock_inserts(row, col);
            assert(view_scan(view, false, x, y, b1, b2, k).0 == prev + ins);
            assert(acts =~= ins.reverse() + pacts);
            lemma_actions_concat((0, 0), ins.reverse(), pacts);
            if row == 1 && col == 1 {
                assert(ins.reverse() =~= Seq::<ActionsEncoding>::empty());
                assert(acts =~= pacts);
            } else {
                lemma_rock_block(row, col);
                let pt = pickup_tiles((0, 0), acts);
                assert(pt == seq![(row - 1, col - 1)] + pickup_tiles((0, 0), pacts));
                assert forall|t: (int, int)| #[trigger] pt.contains(t) implies exists|r: int, c: int|
                    0 <= r < 3 && 0 <= c < 3 && r * 3 + c < k && !(r == 1 && c == 1) && view[r][c] is Rock && t == (r
                        - 1, c - 1) by {
                    if t == (row - 1, col - 1) {
                        assert(view[row][col] is Rock);
                    } else {
                        let i = choose|i: int| 0 <= i < pt.len() && pt[i] == t;
                        assert(i > 0);
                        assert(pickup_tiles((0, 0), pacts)[i - 1] == t);
                        assert(pickup_tiles((0, 0), pacts).contains(t));
                    }
                }
                assert forall|r: int, c: int|
                    0 <= r < 3 && 0 <= c < 3 && r * 3 + c < k && !(r == 1 && c == 1) && #[trigger] view[r][c] is Rock
                    implies pt.contains((r - 1, c - 1)) by {
                    if r * 3 + c == kk {
                        assert(r == row && c == col);
                        assert(pt[0] == (row - 1, col - 1));
                    } else {
                        let pp = pickup_tiles((0, 0), pacts);
                        assert(pp.contains((r - 1, c - 1)));
                        let i = choose|i: int| 0 <= i < pp.len() && pp[i] == (r - 1, c - 1);
                        assert(pt[i + 1] == (r - 1, c - 1));
                    }
                }
            }
        } else {
            assert(view_scan(view, false, x, y, b1, b2, k).0 == prev);
        }
    }
}

/// Looking around with room in the backpack queues, right after the look, a
/// pick-up for every rock seen around the robot and for nothing else: each
/// one takes from the rock's own tile, as seen from where the robot stands
/// when it is performed (row `r`, column `c` of the view is the tile
/// (`r - 1`, `c - 1`) away from the robot), and the queued actions bring the
/// robot back to where it looked from.
pub proof fn lemma_pickups_point_at_rocks(
    view: Seq<Seq<Content>>,
    x: int,
    y: int,
    b1: Option<(i32, i32)>,
    b2: Option<(i32, i32)>,
)
    ensures
        ({
            let acts = view_scan(view, false, x, y, b1, b2, 9).0.reverse();
            &&& position_after((0, 0), acts) == (0int, 0int)
            &&& forall|t: (int, int)|
                #[trigger] pickup_tiles((0, 0), acts).contains(t) ==> exists|r: int, c: int|
                    0 <= r < 3 && 0 <= c < 3 && !(r == 1 && c == 1) && view[r][c] is Rock && t == (r - 1, c - 1)
            &&& forall|r: int, c: int|
                0 <= r < 3 && 0 <= c < 3 && !(r == 1 && c == 1) && #[trigger] view[r][c] is Rock
                    ==> pickup_tiles((0, 0), acts).contains((r - 1, c - 1))
        }),
{
    lemma_pickups_upto(view, x, y, b1, b2, 9);
}

/// Once the second building is known, no step of a tick changes it.
pub proof fn lemma_second_building_kept(
    s: RobotAttributes,
    t: RobotAttributes,
    u: RobotAttributes,
    outcome: FrontOutcome,
    pos: (i32, i32),
    route: Seq<RouteStep>,
)
    requires
        s.building_2 is Some,
    ensures
        front_step(s, t, outcome) ==> t.building_2 == s.building_2,
        plan_step(s, u, pos, route) ==> u.building_2 == s.building_2,
{
    if let FrontOutcome::Viewed(v, x, y) = outcome {
        lemma_view_scan_keeps_known(view_rows(v@), s.inventory_full, x as int, y as int, s.building_1, s.building_2, 9);
    }
}

/// Once the first building is known, only running out of rocks while paving
/// moves it (to where the road stopped); planning never changes it.
pub proof fn lemma_first_building_kept(
    s: RobotAttributes,
    t: RobotAttributes,
    u: RobotAttributes,
    outcome: FrontOutcome,
    pos: (i32, i32),
    route: Seq<RouteStep>,
)
    requires
        s.building_1 is Some,
    ensures
        front_step(s, t, outcome) && !(outcome matches FrontOutcome::Paved(PaveOutcome::NoRockHere, _, _))
            ==> t.building_1 == s.building_1,
        plan_step(s, u, pos, route) ==> u.building_1 == s.building_1,
{
    if let FrontOutcome::Viewed(v, x, y) = outcome {
        lemma_view_scan_keeps_known(view_rows(v@), s.inventory_full, x as int, y as int, s.building_1, s.building_2, 9);
    }
}

impl RobotAttributes {
    /// The spiral radius is 3 while idle and at most 75; paving needs both buildings.
    pub open spec fn wf(&self) -> bool {
        &&& 3 <= self.spiral_radius <= 75
        &&& self.state == RobotState::Idle ==> self.spiral_radius == 3
        &&& self.state == RobotState::PavingRoad ==> self.building_1 is Some && self.building_2 is Some
    }

    /// An idle robot with an empty queue and no buildings known.
    pub fn new() -> (r: Self)
        ensures
            r.state == RobotState::Idle,
            !r.inventory_full,
            r.future_actions@ == Seq::<ActionsEncoding>::empty(),
            r.spiral_radius == 3,
            r.spiral_shift == 0,
            r.building_1 is None,
            r.building_2 is None,
            !r.path_first_building_calculated,
            !r.printed_message,
            r.wf(),
    {
        Self {
            state: RobotState::Idle,
            inventory_full: false,
            future_actions: Vec::new(),
            spiral_radius: 3,
            spiral_shift: 0,
            building_1: None,
            building_2: None,
            path_first_building_calculated: false,
            printed_message: false,
        }
    }

    /// Returns the action at the front of the queue, the one to perform this tick.
    pub fn front_action(&self) -> (r: Option<ActionsEncoding>)
        ensures
            r == (if self.future_actions@.len() > 0 {
                Some(self.future_actions@[0])
            } else {
                None
            }),
    {
        if self.future_actions.len() > 0 {
            Some(self.future_actions[0])
        } else {
            None
        }
    }

    /// Whether a rock should be picked up: only while the backpack is not known to be full.
    pub fn should_pick(&self) -> (r: bool)
        ensures
            r == !self.inventory_full,
    {
        !self.inventory_full
    }

    /// Takes in what the world reports about the front action, then drops
    /// that action from the queue (unless the queue was cleared meanwhile).
    pub fn apply_front_outcome(&mut self, outcome: FrontOutcome)
        requires
            old(self).wf(),
            old(self).future_actions@.len() > 0,
            outcome_fits(old(self).future_actions@[0], outcome),
            outcome matches FrontOutcome::Moved(true) ==> old(self).spiral_shift < i32::MAX,
        ensures
            final(self).wf(),
            front_step(*old(self), *final(self), outcome),
    {
        let ghost oc = outcome;
        match outcome {
            FrontOutcome::Moved(shifted) => {
                if shifted {
                    self.spiral_shift = self.spiral_shift + 1;
                } else {
                    self.spiral_shift = 0;
                }
            },
            FrontOutcome::Viewed(view, self_x, self_y) => {
                self.look_around(&view, self_x, self_y);
            },
            FrontOutcome::Picked(p) => {
                if !self.inventory_full {
                    match p {
                        PickOutcome::NotEnoughSpace => {
                            self.inventory_full = true;
                        },
                        _ => {},
                    }
                }
            },
            FrontOutcome::Paved(p, x, y) => {
                match p {
                    PaveOutcome::NoRockHere => {
                        self.future_actions.clear();
                        self.building_1 = Some((x, y));
                        self.path_first_building_calculated = false;
                        self.inventory_full = false;
                        self.spiral_radius = 3;
                        self.spiral_shift = 0;
                        self.state = RobotState::Idle;
                    },
                    _ => {},
                }
            },
        }
        let ghost before = self.future_actions@;
        if self.future_actions.len() > 0 {
            self.future_actions.remove(0);
        }
        proof {
            if before.len() > 0 {
                assert(self.future_actions@ =~= before.drop_first());
            }
            match oc {
                FrontOutcome::Viewed(v, x, y) => {
                    let (ins, b1, b2) = view_scan(
                        view_rows(v@),
                        old(self).inventory_full,
                        x as int,
                        y as int,
                        old(self).building_1,
                        old(self).building_2,
                        9,
                    );
                    let rest = rest_of(old(self).future_actions@);
                    if old(self).inventory_full && b1 is Some && b2 is Some {
                        assert(self.future_actions@ =~= Seq::<ActionsEncoding>::empty());
                    } else {
                        assert((seq![ActionsEncoding::RW] + ins.reverse() + rest).drop_first() =~= ins.reverse()
                            + rest);
                    }
                },
                FrontOutcome::Paved(p, _, _) => {
                    if p == PaveOutcome::NoRockHere {
                        assert(self.future_actions@ =~= Seq::<ActionsEncoding>::empty());
                    }
                },
                _ => {},
            }
        }
    }

    /// Looks at the 3 x 3 view centred on (`self_x`, `self_y`): queues the
    /// pick-ups of rocks right after the front action, notes buildings, and
    /// starts paving once the backpack is full and both buildings are known.
    #[verifier::rlimit(40)]
    fn look_around(&mut self, view: &Vec<Vec<Content>>, self_x: i32, self_y: i32)
        requires
            old(self).wf(),
            old(self).future_actions@.len() > 0,
            old(self).future_actions@[0] == ActionsEncoding::RW,
            view@.len() == 3,
            forall|r: int| 0 <= r < 3 ==> (#[trigger] view@[r])@.len() == 3,
            i32::MIN < self_x < i32::MAX,
            i32::MIN < self_y < i32::MAX,
        ensures
            final(self).wf(),
            ({
                let (ins, b1, b2) = view_scan(
                    view_rows(view@),
                    old(self).inventory_full,
                    self_x as int,
                    self_y as int,
                    old(self).building_1,
                    old(self).building_2,
                    9,
                );
                &&& final(self).building_1 == b1
                &&& final(self).building_2 == b2
                &&& final(self).inventory_full == old(self).inventory_full
                &&& final(self).spiral_radius == old(self).spiral_radius
                &&& final(self).spiral_shift == old(self).spiral_shift
                &&& final(self).path_first_building_calculated
                    == old(self).path_first_building_calculated
                &&& final(self).printed_message == old(self).printed_message
                &&& if old(self).inventory_full && b1 is Some && b2 is Some {
                    final(self).state == RobotState::PavingRoad && final(self).future_actions@
                        == Seq::<ActionsEncoding>::empty()
                } else {
                    final(self).state == old(self).state && final(self).future_actions@
                        == seq![ActionsEncoding::RW] + ins.reverse() + rest_of(
                        old(self).future_actions@,
                    )
                }
            }),
    {
        let ghost rows = view_rows(view@);
        let ghost full = self.inventory_full;
        let ghost b1_0 = self.building_1;
        let ghost b2_0 = self.building_2;
        let ghost rest = rest_of(self.future_actions@);
        let mut row: usize = 0;
        while row < 3
            invariant
                0 <= row <= 3,
                rows == view_rows(view@),
                view@.len() == 3,
                forall|r: int| 0 <= r < 3 ==> (#[trigger] view@[r])@.len() == 3,
                i32::MIN < self_x < i32::MAX,
                i32::MIN < self_y < i32::MAX,
                full == self.inventory_full,
                self.wf(),
                ({
                    let (ins, b1, b2) = view_scan(rows, full, self_x as int, self_y as int, b1_0, b2_0, (row * 3) as nat);
                    &&& self.building_1 == b1
                    &&& self.building_2 == b2
                    &&& self.future_actions@ == seq![ActionsEncoding::RW] + ins.reverse() + rest
                }),
                self.state == old(self).state,
                self.spiral_radius == old(self).spiral_radius,
                self.spiral_shift == old(self).spiral_shift,
                self.path_first_building_calculated == old(self).path_first_building_calculated,
                self.printed_message == old(self).printed_message,
            decreases 3 - row,
        {
            let mut col: usize = 0;
            while col < 3
                invariant
                    0 <= row < 3,
                    0 <= col <= 3,
                    rows == view_rows(view@),
                    view@.len() == 3,
                    forall|r: int| 0 <= r < 3 ==> (#[trigger] view@[r])@.len() == 3,
                    i32::MIN < self_x < i32::MAX,
                    i32::MIN < self_y < i32::MAX,
                    full == self.inventory_full,
                    self.wf(),
                    ({
                        let (ins, b1, b2) = view_scan(rows, full, self_x as int, self_y as int, b1_0, b2_0, (row * 3 + col) as nat);
                        &&& self.building_1 == b1
                        &&& self.building_2 == b2
                        &&& self.future_actions@ == seq![ActionsEncoding::RW] + ins.reverse() + rest
                    }),
                    self.state == old(self).state,
                    self.spiral_radius == old(self).spiral_radius,
                    self.spiral_shift == old(self).spiral_shift,
                    self.path_first_building_calculated == old(self).path_first_building_calculated,
                    self.printed_message == old(self).printed_message,
                decreases 3 - col,
            {
                let ghost k = (row * 3 + col) as nat;
                let ghost prev = view_scan(rows, full, self_x as int, self_y as int, b1_0, b2_0, k);
                assert((k + 1 - 1) / 3 == row && (k + 1 - 1) % 3 == col);
                assert(rows[row as int] == view@[row as int]@);
                let content = view[row][col];
                let pos = (self_x - 1 + row as i32, self_y - 1 + col as i32);
                match content {
                    Content::Rock(_) => {
                        if !self.inventory_full {
                            self.insert_rock_actions(row, col);
                            proof {
                                let ins = prev.0;
                                let added = rock_inserts(row as int, col as int);
                                assert((ins + added).reverse() =~= added.reverse() + ins.reverse());
                                assert(seq![ActionsEncoding::RW] + added.reverse() + ins.reverse() + rest
                                    =~= seq![ActionsEncoding::RW] + (ins + added).reverse() + rest);
                            }
                        }
                    },
                    Content::Building => {
                        if self.building_1.is_none() {
                            self.building_1 = Some(pos);
                        } else if self.building_2.is_none() {
                            let b1 = self.building_1.unwrap();
                            if b1.0 != pos.0 || b1.1 != pos.1 {
                                self.building_2 = Some(pos);
                            }
                        }
                    },
                    _ => {},
                }
                col = col + 1;
            }
            row = row + 1;
        }
        if self.inventory_full && self.building_1.is_some() && self.building_2.is_some() {
            self.state = RobotState::PavingRoad;
            self.future_actions.clear();
        }
    }

    /// Inserts, right after the front action, the actions for a rock at (`row`, `col`) of the view.
    #[verifier::rlimit(60)]
    fn insert_rock_actions(&mut self, row: usize, col: usize)
        requires
            old(self).future_actions@.len() > 0,
            row < 3,
            col < 3,
        ensures
            final(self).future_actions@ == seq![old(self).future_actions@[0]] + rock_inserts(
                row as int,
                col as int,
            ).reverse() + old(self).future_actions@.drop_first(),
            final(self).state == old(self).state,
            final(self).inventory_full == old(self).inventory_full,
            final(self).spiral_radius == old(self).spiral_radius,
            final(self).spiral_shift == old(self).spiral_shift,
            final(self).building_1 == old(self).building_1,
            final(self).building_2 == old(self).building_2,
            final(self).path_first_building_calculated == old(self).path_first_building_calculated,
            final(self).printed_message == old(self).printed_message,
    {
        let ghost q = self.future_actions@;
        let mut inserts: Vec<ActionsEncoding> = Vec::new();
        if row == 0 {
            if col == 0 {
                inserts.push(ActionsEncoding::MR);
                inserts.push(ActionsEncoding::PR(Direction::Up));
                inserts.push(ActionsEncoding::ML);
            } else if col == 1 {
                inserts.push(ActionsEncoding::PR(Direction::Up));
            } else {
                inserts.push(ActionsEncoding::ML);
                inserts.push(ActionsEncoding::PR(Direction::Up));
                inserts.push(ActionsEncoding::MR);
            }
        } else if row == 1 {
            if col == 0 {
                inserts.push(ActionsEncoding::PR(Direction::Left));
            } else if col == 2 {
                inserts.push(ActionsEncoding::PR(Direction::Right));
            }
        } else {
            if col == 0 {
                inserts.push(ActionsEncoding::MR);
                inserts.push(ActionsEncoding::PR(Direction::Down));
                inserts.push(ActionsEncoding::ML);
            } else if col == 1 {
                inserts.push(ActionsEncoding::PR(Direction::Down));
            } else {
                inserts.push(ActionsEncoding::ML);
                inserts.push(ActionsEncoding::PR(Direction::Down));
                inserts.push(ActionsEncoding::MR);
            }
        }
        assert(inserts@ =~= rock_inserts(row as int, col as int));
        let mut i: usize = 0;
        while i < inserts.len()
            invariant
                0 <= i <= inserts@.len(),
                q.len() > 0,
                self.future_actions@ == seq![q[0]] + inserts@.take(i as int).reverse() + q.drop_first(),
                self.state == old(self).state,
                self.inventory_full == old(self).inventory_full,
                self.spiral_radius == old(self).spiral_radius,
                self.spiral_shift == old(self).spiral_shift,
                self.building_1 == old(self).building_1,
                self.building_2 == old(self).building_2,
                self.path_first_building_calculated == old(self).path_first_building_calculated,
                self.printed_message == old(self).printed_message,
            decreases inserts@.len() - i,
        {
            self.future_actions.insert(1, inserts[i]);
            assert(inserts@.take(i + 1).reverse() =~= seq![inserts@[i as int]] + inserts@.take(
                i as int,
            ).reverse());
            assert(self.future_actions@ =~= seq![q[0]] + inserts@.take(i + 1).reverse()
                + q.drop_first());
            i = i + 1;
        }
        assert(inserts@.take(inserts@.len() as int) =~= inserts@);
    }

    /// The building a route is needed to this tick, if any: the first building
    /// before the way there is planned; the second once the robot stands on the
    /// first with nothing queued.
    pub open spec fn goal_of(&self, pos: (i32, i32)) -> Option<(i32, i32)> {
        if self.state == RobotState::PavingRoad {
            if !self.path_first_building_calculated {
                self.building_1
            } else if self.future_actions@.len() == 0 && self.building_1 == Some(pos) {
                self.building_2
            } else {
                None
            }
        } else {
            None
        }
    }

    /// Returns the building a route is needed to this tick, if any.
    pub fn route_goal(&self, pos: (i32, i32)) -> (r: Option<(i32, i32)>)
        requires
            self.wf(),
        ensures
            r == self.goal_of(pos),
    {
        if self.state == RobotState::PavingRoad {
            if !self.path_first_building_calculated {
                self.building_1
            } else if self.future_actions.len() == 0 {
                let b1 = self.building_1.unwrap();
                if b1.0 == pos.0 && b1.1 == pos.1 {
                    self.building_2
                } else {
                    None
                }
            } else {
                None
            }
        } else {
            None
        }
    }

    /// Plans the rest of the tick from the robot's state: an idle robot queues
    /// its exploration spiral; a paving robot queues the way to the first
    /// building, then the road to the second, then looks around there.
    /// `route` is the route to `route_goal(pos)`, when there is one.
    pub fn state_step(&mut self, pos: (i32, i32), route: &Vec<RouteStep>)
        requires
            old(self).wf(),
        ensures
            final(self).wf(),
            plan_step(*old(self), *final(self), pos, route@),
    {
        match self.state {
            RobotState::Idle => {
                self.plan_exploration();
                self.future_actions.insert(0, ActionsEncoding::RW);
                assert(self.future_actions@ =~= seq![ActionsEncoding::RW] + old(self).future_actions@
                    + exploration_plan(3, 24));
                self.state = RobotState::Exploring;
            },
            RobotState::Exploring => {},
            RobotState::PavingRoad => {
                if !self.path_first_building_calculated {
                    self.queue_route_front(route);
                    self.path_first_building_calculated = true;
                } else {
                    if self.future_actions.len() == 0 {
                        let b1 = self.building_1.unwrap();
                        let b2 = self.building_2.unwrap();
                        if pos.0 == b1.0 && pos.1 == b1.1 {
                            self.queue_paving(route);
                        } else if pos.0 == b2.0 && pos.1 == b2.1 {
                            if !self.printed_message {
                                self.printed_message = true;
                            }
                            self.future_actions.insert(0, ActionsEncoding::RW);
                            assert(self.future_actions@ =~= seq![ActionsEncoding::RW]);
                        }
                    }
                }
            },
        }
    }

    /// Appends the exploration spiral: six rounds of right, down, left and up
    /// runs, each run a move and a look around per step, the radius growing by 3 per run.
    fn plan_exploration(&mut self)
        requires
            old(self).wf(),
            old(self).state == RobotState::Idle,
        ensures
            final(self).future_actions@ == old(self).future_actions@ + exploration_plan(3, 24),
            final(self).spiral_radius == 75,
            final(self).state == old(self).state,
            final(self).inventory_full == old(self).inventory_full,
            final(self).spiral_shift == old(self).spiral_shift,
            final(self).building_1 == old(self).building_1,
            final(self).building_2 == old(self).building_2,
            final(self).path_first_building_calculated == old(self).path_first_building_calculated,
            final(self).printed_message == old(self).printed_message,
    {
        let ghost start = self.future_actions@;
        let moves = [ActionsEncoding::MR, ActionsEncoding::MD, ActionsEncoding::ML, ActionsEncoding::MU];
        let mut round: usize = 0;
        while round < 6
            invariant
                0 <= round <= 6,
                moves@ == seq![ActionsEncoding::MR, ActionsEncoding::MD, ActionsEncoding::ML, ActionsEncoding::MU],
                self.spiral_radius == 3 + 12 * round,
                self.future_actions@ == start + exploration_plan(3, (4 * round) as nat),
                self.state == old(self).state,
                self.inventory_full == old(self).inventory_full,
                self.spiral_shift == old(self).spiral_shift,
                self.building_1 == old(self).building_1,
                self.building_2 == old(self).building_2,
                self.path_first_building_calculated == old(self).path_first_building_calculated,
                self.printed_message == old(self).printed_message,
            decreases 6 - round,
        {
            let mut m: usize = 0;
            while m < 4
                invariant
                    0 <= round < 6,
                    0 <= m <= 4,
                    moves@ == seq![ActionsEncoding::MR, ActionsEncoding::MD, ActionsEncoding::ML, ActionsEncoding::MU],
                    self.spiral_radius == 3 + 12 * round + 3 * m,
                    self.future_actions@ == start + exploration_plan(3, (4 * round + m) as nat),
                    self.state == old(self).state,
                    self.inventory_full == old(self).inventory_full,
                    self.spiral_shift == old(self).spiral_shift,
                    self.building_1 == old(self).building_1,
                    self.building_2 == old(self).building_2,
                    self.path_first_building_calculated == old(self).path_first_building_calculated,
                    self.printed_message == old(self).printed_message,
                decreases 4 - m,
            {
                let ghost j = 4 * round + m;
                let t = moves[m];
                assert(t == plan_move(j as int));
                let r = self.spiral_radius;
                let spiral_length: i32 = r / 2 + if r % 2 != 0 {
                    1
                } else {
                    0
                };
                assert(spiral_length == run_steps(3 + 3 * j));
                let ghost before = self.future_actions@;
                let mut s: i32 = 0;
                while s < spiral_length
                    invariant
                        0 <= s <= spiral_length,
                        spiral_length == run_steps(3 + 3 * j),
                        self.future_actions@ == before + Seq::new(
                            (2 * s) as nat,
                            |k: int|
                                if k % 2 == 0 {
                                    plan_move(j as int)
                                } else {
                                    ActionsEncoding::RW
                                },
                        ),
                        t == plan_move(j as int),
                        self.spiral_radius == r,
                        self.state == old(self).state,
                        self.inventory_full == old(self).inventory_full,
                        self.spiral_shift == old(self).spiral_shift,
                        self.building_1 == old(self).building_1,
                        self.building_2 == old(self).building_2,
                        self.path_first_building_calculated == old(self).path_first_building_calculated,
                        self.printed_message == old(self).printed_message,
                    decreases spiral_length - s,
                {
                    self.future_actions.push(t);
                    self.future_actions.push(ActionsEncoding::RW);
                    assert(self.future_actions@ =~= before + Seq::new(
                        (2 * (s + 1)) as nat,
                        |k: int|
                            if k % 2 == 0 {
                                plan_move(j as int)
                            } else {
                                ActionsEncoding::RW
                            },
                    ));
                    s = s + 1;
                }
                assert(start + exploration_plan(3, (j + 1) as nat) =~= before + Seq::new(
                    (2 * run_steps(3 + 3 * j)) as nat,
                    |k: int|
                        if k % 2 == 0 {
                            plan_move(j as int)
                        } else {
                            ActionsEncoding::RW
                        },
                ));
                self.spiral_radius = self.spiral_radius + 3;
                m = m + 1;
            }
            round = round + 1;
        }
    }

    /// Queues, in front of everything, the moves of the route's control steps.
    fn queue_route_front(&mut self, route: &Vec<RouteStep>)
        ensures
            final(self).future_actions@ == route_moves(route@) + old(self).future_actions@,
            final(self).state == old(self).state,
            final(self).inventory_full == old(self).inventory_full,
            final(self).spiral_radius == old(self).spiral_radius,
            final(self).spiral_shift == old(self).spiral_shift,
            final(self).building_1 == old(self).building_1,
            final(self).building_2 == old(self).building_2,
            final(self).path_first_building_calculated == old(self).path_first_building_calculated,
            final(self).printed_message == old(self).printed_message,
    {
        let ghost start = self.future_actions@;
        let mut i: usize = route.len();
        while i > 0
            invariant
                0 <= i <= route@.len(),
                self.future_actions@ == route_moves(route@.skip(i as int)) + start,
                self.state == old(self).state,
                self.inventory_full == old(self).inventory_full,
                self.spiral_radius == old(self).spiral_radius,
                self.spiral_shift == old(self).spiral_shift,
                self.building_1 == old(self).building_1,
                self.building_2 == old(self).building_2,
                self.path_first_building_calculated == old(self).path_first_building_calculated,
                self.printed_message == old(self).printed_message,
            decreases i,
        {
            i = i - 1;
            assert(route@.skip(i as int).drop_first() =~= route@.skip(i + 1));
            match route[i] {
                RouteStep::Control(d) => {
                    self.future_actions.insert(0, move_for(d));
                    assert(self.future_actions@ =~= route_moves(route@.skip(i as int)) + start);
                },
                RouteStep::Other => {},
            }
        }
        assert(route@.skip(0) =~= route@);
    }

    /// Appends, for each control step of the route, a paving and a move in its direction.
    fn queue_paving(&mut self, route: &Vec<RouteStep>)
        ensures
            final(self).future_actions@ == old(self).future_actions@ + paving_actions(route@),
            same_flags(*old(self), *final(self)),
    {
        let ghost start = self.future_actions@;
        assert(route@.skip(0) =~= route@);
        let mut i: usize = 0;
        while i < route.len()
            invariant
                0 <= i <= route@.len(),
                self.future_actions@ + paving_actions(route@.skip(i as int)) == start + paving_actions(route@),
                same_flags(*old(self), *self),
            decreases route@.len() - i,
        {
            assert(route@.skip(i as int).drop_first() =~= route@.skip(i + 1));
            let ghost before = self.future_actions@;
            match route[i] {
                RouteStep::Control(d) => {
                    self.future_actions.push(ActionsEncoding::TR(d));
                    self.future_actions.push(move_for(d));
                    assert(self.future_actions@ + paving_actions(route@.skip(i + 1)) =~= before
                        + paving_actions(route@.skip(i as int)));
                },
                RouteStep::Other => {},
            }
            i = i + 1;
        }
        assert(route@.skip(route@.len() as int) =~= Seq::<RouteStep>::empty());
        assert(self.future_actions@ =~= self.future_actions@ + paving_actions(
            route@.skip(route@.len() as int),
        ));
    }
}

} // verus!
