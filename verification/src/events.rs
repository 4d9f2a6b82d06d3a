//! What the display is told when the world reports something to a robot.
use vstd::prelude::*;
use crate::world::{grid_view, Content, EnvironmentalConditions, Tile};

verus! {

/// What the world reports to a robot.
#[derive(Clone, Copy, Debug)]
pub enum RobotEvent {
    Ready,
    Terminated,
    TimeChanged(EnvironmentalConditions),
    DayChanged(EnvironmentalConditions),
    EnergyRecharged(usize),
    EnergyConsumed(usize),
    /// The robot moved onto the tile at (row, column).
    Moved(Tile, (usize, usize)),
    TileContentUpdated(Tile, (usize, usize)),
    AddedToBackpack(Content, usize),
    RemovedFromBackpack(Content, usize),
}

/// A change the display has to show.
#[derive(Debug)]
pub enum ReadEventType {
    RobotMoved((usize, usize)),
    TimeChanged(EnvironmentalConditions),
    WeatherChanged(EnvironmentalConditions),
    /// The energy added and the energy level reached.
    EnergyRecharged((usize, usize)),
    EnergyConsumed(usize),
    UpdatedTile((Tile, (usize, usize))),
    /// The whole backpack, one entry per unit.
    AddBackpack(Vec<Content>),
    RemoveBackpack(Vec<Content>),
    MessageLogMoved((usize, usize)),
    MessageLogAddedToBackpack((Content, usize)),
    MessageLogRemovedFromBackpack((Content, usize)),
    LittleMapUpdate(Vec<Vec<Option<Tile>>>),
    Nothing,
}

impl Default for ReadEventType {
    /// No change to show.
    fn default() -> (r: Self)
        ensures
            r is Nothing,
    {
        ReadEventType::Nothing
    }
}

/// `n` copies of `c`.
pub open spec fn copies(c: Content, n: nat) -> Seq<Content> {
    Seq::new(n, |i: int| c)
}

/// The backpack's entries (content, amount) laid out one unit after another,
/// in the order of the entries.
pub open spec fn expand(entries: Seq<(Content, usize)>) -> Seq<Content>
    decreases entries.len(),
{
    if entries.len() == 0 {
        Seq::empty()
    } else {
        expand(entries.drop_last()) + copies(entries.last().0, entries.last().1 as nat)
    }
}

/// The number of units the entries hold.
pub open spec fn units(entries: Seq<(Content, usize)>) -> int
    decreases entries.len(),
{
    if entries.len() == 0 {
        0
    } else {
        units(entries.drop_last()) + entries.last().1
    }
}

/// The backpack is shown with one entry per unit it holds.
pub proof fn lemma_expand_len(entries: Seq<(Content, usize)>)
    ensures
        expand(entries).len() == units(entries),
    decreases entries.len(),
{
    if entries.len() > 0 {
        lemma_expand_len(entries.drop_last());
    }
}

/// Lays the backpack's entries out one unit after another.
pub fn backpack_contents(entries: &Vec<(Content, usize)>) -> (r: Vec<Content>)
    requires
        units(entries@) <= usize::MAX,
    ensures
        r@ == expand(entries@),
{
    let mut r: Vec<Content> = Vec::new();
    let mut i: usize = 0;
    while i < entries.len()
        invariant
            0 <= i <= entries@.len(),
            r@ == expand(entries@.take(i as int)),
            units(entries@) <= usize::MAX,
        decreases entries@.len() - i,
    {
        let (c, n) = entries[i];
        assert(entries@.take(i + 1).drop_last() =~= entries@.take(i as int));
        proof {
            lemma_units_prefix(entries@, i + 1);
            lemma_expand_len(entries@.take(i as int));
        }
        let ghost base = r@;
        let mut k: usize = 0;
        while k < n
            invariant
                0 <= k <= n,
                r@ == base + copies(c, k as nat),
                base.len() + n <= usize::MAX,
            decreases n - k,
        {
            r.push(c);
            k = k + 1;
            assert(r@ =~= base + copies(c, k as nat));
        }
        i = i + 1;
    }
    assert(entries@.take(entries@.len() as int) =~= entries@);
    r
}

proof fn lemma_units_prefix(entries: Seq<(Content, usize)>, i: int)
    requires
        0 <= i <= entries.len(),
    ensures
        units(entries.take(i)) <= units(entries),
        i > 0 ==> units(entries.take(i - 1)) + entries[i - 1].1 == units(entries.take(i)),
    decreases entries.len() - i,
{
    if i > 0 {
        assert(entries.take(i).drop_last() =~= entries.take(i - 1));
    }
    if i < entries.len() {
        lemma_units_prefix(entries, i + 1);
        assert(entries.take(i + 1).drop_last() =~= entries.take(i));
    } else {
        assert(entries.take(i) =~= entries);
    }
}

/// What the display is told of `event`, given the robot's energy level after it
/// and the entries of its backpack.
pub open spec fn notified(
    event: RobotEvent,
    energy_level: usize,
    backpack: Seq<(Content, usize)>,
    r: Seq<ReadEventType>,
) -> bool {
    match event {
        RobotEvent::Ready | RobotEvent::Terminated => r.len() == 0,
        RobotEvent::TimeChanged(c) | RobotEvent::DayChanged(c) => {
            &&& r.len() == 2
            &&& r[0] matches ReadEventType::TimeChanged(t) && t == c
            &&& r[1] matches ReadEventType::WeatherChanged(w) && w == c
        },
        RobotEvent::EnergyRecharged(e) => {
            &&& r.len() == 1
            &&& r[0] matches ReadEventType::EnergyRecharged(p) && p == (e, energy_level)
        },
        RobotEvent::EnergyConsumed(e) => {
            &&& r.len() == 1
            &&& r[0] matches ReadEventType::EnergyConsumed(x) && x == e
        },
        RobotEvent::Moved(_, pos) => {
            &&& r.len() == 2
            &&& r[0] matches ReadEventType::RobotMoved(p) && p == pos
            &&& r[1] matches ReadEventType::MessageLogMoved(p) && p == pos
        },
        RobotEvent::TileContentUpdated(tile, pos) => {
            &&& r.len() == 1
            &&& r[0] matches ReadEventType::UpdatedTile(u) && u == (tile, pos)
        },
        RobotEvent::AddedToBackpack(c, q) => {
            &&& r.len() == if q != 0 { 2int } else { 1int }
            &&& r[0] matches ReadEventType::AddBackpack(v) && v@ == expand(backpack)
            &&& q != 0 ==> (r[1] matches ReadEventType::MessageLogAddedToBackpack(m) && m == (c, q))
        },
        RobotEvent::RemovedFromBackpack(c, q) => {
            &&& r.len() == 2
            &&& r[0] matches ReadEventType::RemoveBackpack(v) && v@ == expand(backpack)
            &&& r[1] matches ReadEventType::MessageLogRemovedFromBackpack(m) && m == (c, q)
        },
    }
}

/// `a` and `b` tell the display the same thing.
pub open spec fn same_display_event(a: ReadEventType, b: ReadEventType) -> bool {
    match (a, b) {
        (ReadEventType::AddBackpack(v), ReadEventType::AddBackpack(w)) => v@ == w@,
        (ReadEventType::RemoveBackpack(v), ReadEventType::RemoveBackpack(w)) => v@ == w@,
        (ReadEventType::LittleMapUpdate(m), ReadEventType::LittleMapUpdate(n)) => grid_view(m@) == grid_view(n@),
        _ => a == b,
    }
}

/// What the display is told depends on the event, the robot's energy level
/// and its backpack alone: any two robots (the painter and the road builder
/// alike) with the same energy and backpack tell it the same, in the same order.
pub proof fn lemma_notified_is_determined(
    event: RobotEvent,
    energy_level: usize,
    backpack: Seq<(Content, usize)>,
    r1: Seq<ReadEventType>,
    r2: Seq<ReadEventType>,
)
    requires
        notified(event, energy_level, backpack, r1),
        notified(event, energy_level, backpack, r2),
    ensures
        r1.len() == r2.len(),
        forall|i: int| 0 <= i < r1.len() ==> same_display_event(#[trigger] r1[i], r2[i]),
{
}

/// A change of the time of day, like a change of day, tells the display the
/// new time first and then the new weather, nothing else; the two events are
/// told the same.
pub proof fn lemma_sky_changes_update_time_then_weather(
    c: EnvironmentalConditions,
    energy_level: usize,
    backpack: Seq<(Content, usize)>,
    r: Seq<ReadEventType>,
    s: Seq<ReadEventType>,
)
    requires
        notified(RobotEvent::TimeChanged(c), energy_level, backpack, r),
        notified(RobotEvent::DayChanged(c), energy_level, backpack, s),
    ensures
        r.len() == 2,
        r[0] matches ReadEventType::TimeChanged(t) && t == c,
        r[1] matches ReadEventType::WeatherChanged(w) && w == c,
        s.len() == 2,
        forall|i: int| 0 <= i < 2 ==> same_display_event(#[trigger] r[i], s[i]),
{
}

/// What the display is told carries what the world reported: nothing for
/// the start and the end; the amount of energy (and, on a recharge, the level
/// reached); the robot's new position, first to move it and then in the
/// message log; the updated tile at its position; and on a backpack change
/// the whole backpack, one entry per unit held, followed by the message of
/// what changed (for an addition, only when something was added).
pub proof fn lemma_display_events_carry_the_report(
    event: RobotEvent,
    energy_level: usize,
    backpack: Seq<(Content, usize)>,
    r: Seq<ReadEventType>,
)
    requires
        notified(event, energy_level, backpack, r),
    ensures
        (event is Ready || event is Terminated) ==> r.len() == 0,
        event matches RobotEvent::EnergyRecharged(e) ==> {
            &&& r.len() == 1
            &&& r[0] matches ReadEventType::EnergyRecharged(p) && p.0 == e && p.1 == energy_level
        },
        event matches RobotEvent::EnergyConsumed(e) ==> {
            &&& r.len() == 1
            &&& r[0] matches ReadEventType::EnergyConsumed(x) && x == e
        },
        event matches RobotEvent::Moved(_, pos) ==> {
            &&& r.len() == 2
            &&& r[0] matches ReadEventType::RobotMoved(a) && a == pos
            &&& r[1] matches ReadEventType::MessageLogMoved(b) && b == pos
        },
        event matches RobotEvent::TileContentUpdated(t, pos) ==> {
            &&& r.len() == 1
            &&& r[0] matches ReadEventType::UpdatedTile(u) && u.0 == t && u.1 == pos
        },
        event matches RobotEvent::AddedToBackpack(c, q) ==> {
            &&& r[0] matches ReadEventType::AddBackpack(v) && v@.len() == units(backpack)
            &&& (q != 0 <==> r.len() == 2)
            &&& q != 0 ==> (r[1] matches ReadEventType::MessageLogAddedToBackpack(m) && m.0 == c && m.1 == q)
        },
        event matches RobotEvent::RemovedFromBackpack(c, q) ==> {
            &&& r.len() == 2
            &&& r[0] matches ReadEventType::RemoveBackpack(v) && v@.len() == units(backpack)
            &&& r[1] matches ReadEventType::MessageLogRemovedFromBackpack(m) && m.0 == c && m.1 == q
        },
{
    lemma_expand_len(backpack);
}

/// Turns what the world reported into what the display is told, in order.
/// `energy_level` is the robot's energy after the event, `backpack` the
/// entries (content, amount) of its backpack.
pub fn handle_event(event: RobotEvent, energy_level: usize, backpack: &Vec<(Content, usize)>) -> (r:
    Vec<ReadEventType>)
    requires
        units(backpack@) <= usize::MAX,
    ensures
        notified(event, energy_level, backpack@, r@),
{
    let mut r: Vec<ReadEventType> = Vec::new();
    match event {
        RobotEvent::Ready | RobotEvent::Terminated => {},
        RobotEvent::TimeChanged(c) | RobotEvent::DayChanged(c) => {
            r.push(ReadEventType::TimeChanged(c));
            r.push(ReadEventType::WeatherChanged(c));
        },
        RobotEvent::EnergyRecharged(e) => {
            r.push(ReadEventType::EnergyRecharged((e, energy_level)));
        },
        RobotEvent::EnergyConsumed(e) => {
            r.push(ReadEventType::EnergyConsumed(e));
        },
        RobotEvent::Moved(_, pos) => {
            r.push(ReadEventType::RobotMoved(pos));
            r.push(ReadEventType::MessageLogMoved(pos));
        },
        RobotEvent::TileContentUpdated(tile, pos) => {
            r.push(ReadEventType::UpdatedTile((tile, pos)));
        },
        RobotEvent::AddedToBackpack(c, q) => {
            r.push(ReadEventType::AddBackpack(backpack_contents(backpack)));
            if q != 0 {
                r.push(ReadEventType::MessageLogAddedToBackpack((c, q)));
            }
        },
        RobotEvent::RemovedFromBackpack(c, q) => {
            r.push(ReadEventType::RemoveBackpack(backpack_contents(backpack)));
            r.push(ReadEventType::MessageLogRemovedFromBackpack((c, q)));
        },
    }
    r
}

} // verus!
