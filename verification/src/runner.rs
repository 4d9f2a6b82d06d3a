//! The painting robot's decisions, one game tick at a time: it explores in
//! spirals, sets up plots, walks to the next pixel of its drawing, puts the
//! material there, and fetches more material when it runs out.
use vstd::prelude::*;
use crate::drawing::{
    blueprint_pixels, drawing_type_for, drawing_type_from_draw, find_plot_from_map, good_plot,
    is_robot_on_next_pixel, is_tile_gettable, make_drawing, plot_search_ok, plot_search_safe,
    plot_size_for, plot_size_from_draw, spent_material, Drawing, DrawingType, Plot,
};
use crate::lumberjack::{coords_before, directions_to, gps_answer, gps_inputs_ok, gps_inputs_valid, Coords};
use crate::random::{direction_for, direction_from_draw, random_below};
use crate::spiral::{spiral_directions_gab_2, spiral_moves};
use crate::world::{grid_view, Content, Direction, Tile};

verus! {

/// What the robot means to do once it has walked its directions.
#[derive(Clone, Copy, Debug, PartialEq, Eq, Structural)]
pub enum TodaysMission {
    Testing,
    DrawPixel,
    GetMaterial,
    SetupPlot,
}

/// The state the robot is in.
#[derive(Clone, Copy, Debug, PartialEq, Eq, Structural)]
pub enum RobotStatus {
    Testing,
    StartOfRound,
    DecideWhatToDo,
    Explore,
    FollowDirections,
    SetupPlot,
    DrawPicture,
    CollectResources,
}

/// The robot's own state: the moves still to make (the next one last), what it
/// is doing, its drawings (the one being worked on last), and its intent.
pub struct RobotAttributes {
    pub directions: Vec<Direction>,
    pub robot_status: RobotStatus,
    pub drawings: Vec<Drawing>,
    pub robot_mission: TodaysMission,
}

/// What the robot observes of the world at the start of a tick.
pub struct TickInput {
    /// The robot's position (row, column).
    pub robot_position: Coords,
    /// The part of the world the robot has seen, row by row.
    pub robot_map: Option<Vec<Vec<Option<Tile>>>>,
    /// The cost of entering each known tile of `robot_map` in the current weather.
    pub tile_costs: Vec<Vec<usize>>,
    /// Where most of the material `needed_material` names lies (row, column), if anywhere.
    pub most_loaded: Option<Coords>,
}

/// The random draws of a tick: a direction (below 4), a drawing kind (below 4)
/// and a plot size (0 to 100).
pub struct TickDraws {
    pub direction: u32,
    pub drawing_type: u32,
    pub plot_size: u32,
}

/// What the robot asks the world to do in a tick.
#[derive(Clone, Copy, Debug, PartialEq, Eq, Structural)]
pub enum RobotAction {
    Nothing,
    /// Step left, then right.
    GoLeftThenRight,
    Go(Direction),
    /// Put `quantity` of the content on the tile in the direction; report with `put_outcome`.
    Put(Content, usize, Direction),
    /// Take what lies on the tile in the direction; report with `destroy_outcome`.
    Destroy(Direction),
    /// Look for the tile with the most coins and report it.
    ReportMostLoadedCoins,
}

/// The content a drawing of kind `kind` is drawn with.
pub open spec fn material_of(kind: DrawingType) -> Content {
    match kind {
        DrawingType::Coin => Content::Coin(0),
        DrawingType::Rock => Content::Rock(0),
        DrawingType::Tree => Content::Tree(0),
        DrawingType::JollyBlock => Content::JollyBlock(0),
    }
}

/// Returns the content a drawing of kind `kind` is drawn with.
pub fn material_for(kind: DrawingType) -> (r: Content)
    ensures
        r == material_of(kind),
{
    match kind {
        DrawingType::Coin => Content::Coin(0),
        DrawingType::Rock => Content::Rock(0),
        DrawingType::Tree => Content::Tree(0),
        DrawingType::JollyBlock => Content::JollyBlock(0),
    }
}

/// The moves a search from `pos` to `dest` may answer: none without a map,
/// else a cheapest walk's moves, or `None` when no walk leads there.
pub open spec fn gps_result(input: TickInput, dest: Coords, r: Option<Vec<Direction>>) -> bool {
    match input.robot_map {
        None => r is None,
        Some(g) => gps_answer(grid_view(g@), input.tile_costs@, input.robot_position, dest, r),
    }
}

/// What the observations must satisfy for a search on them.
pub open spec fn gps_ok(input: TickInput) -> bool {
    input.robot_map matches Some(g) ==> gps_inputs_ok(grid_view(g@), input.tile_costs@)
}

/// Returns the moves of a cheapest walk from the robot to `dest`.
fn gps(input: &TickInput, dest: Coords) -> (r: Option<Vec<Direction>>)
    requires
        gps_ok(*input),
    ensures
        gps_result(*input, dest, r),
{
    match &input.robot_map {
        None => None,
        Some(g) => directions_to(input.robot_position, g, &input.tile_costs, dest),
    }
}

impl RobotAttributes {
    /// The last drawing, the one being worked on.
    pub open spec fn current(&self) -> Drawing {
        self.drawings@.last()
    }

    /// The state keeps the robot's next tick from failing: every drawing's
    /// filled count stays within its pixels, a drawing exists whenever the
    /// robot draws or gathers material, and the drawing has a pixel left
    /// whenever the robot is on its way to put one.
    pub open spec fn wf(&self) -> bool {
        &&& forall|i: int| 0 <= i < self.drawings@.len() ==> (#[trigger] self.drawings@[i]).wf()
        &&& (self.robot_mission == TodaysMission::DrawPixel || self.robot_mission
            == TodaysMission::GetMaterial || self.robot_status == RobotStatus::DrawPicture
            || self.robot_status == RobotStatus::CollectResources) ==> self.drawings@.len() > 0
        &&& (self.robot_mission == TodaysMission::DrawPixel && (self.robot_status
            == RobotStatus::Testing || self.robot_status == RobotStatus::StartOfRound
            || self.robot_status == RobotStatus::Explore || (self.robot_status
            == RobotStatus::FollowDirections && self.directions@.len() > 0))) ==> (
        self.drawings@.len() > 0 && self.current().blueprint().next_pixel() is Some)
    }

    /// The robot starts a round with a 50-move spiral, no drawings, and the
    /// intent to set up a plot.
    pub fn new() -> (r: RobotAttributes)
        ensures
            r.directions@ == spiral_moves(3, 50).reverse(),
            r.robot_status == RobotStatus::StartOfRound,
            r.drawings@ == Seq::<Drawing>::empty(),
            r.robot_mission == TodaysMission::SetupPlot,
            r.wf(),
    {
        let vecdir = spiral_directions_gab_2(50);
        RobotAttributes {
            directions: vecdir,
            robot_status: RobotStatus::StartOfRound,
            drawings: Vec::new(),
            robot_mission: TodaysMission::SetupPlot,
        }
    }

    /// The material whose richest tile the robot needs to know this tick:
    /// that of the current drawing when it gathers material.
    pub open spec fn material_needed(&self) -> Option<DrawingType> {
        if self.robot_status == RobotStatus::CollectResources && self.drawings@.len() > 0 {
            Some(self.current().kind())
        } else {
            None
        }
    }

    /// Returns the kind of material whose richest tile the robot needs to know this tick.
    pub fn needed_material(&self) -> (r: Option<DrawingType>)
        ensures
            r == self.material_needed(),
    {
        if self.robot_status == RobotStatus::CollectResources && self.drawings.len() > 0 {
            Some(self.drawings[self.drawings.len() - 1].drawing_type())
        } else {
            None
        }
    }
}

/// `t` is `s` with another status and mission.
pub open spec fn same_but_status(s: RobotAttributes, t: RobotAttributes) -> bool {
    t.directions@ == s.directions@ && t.drawings@ == s.drawings@
}

/// The observations a tick in state `s` with draws `draws` needs: a
/// search-ready map when it searches, a map on which the plot search for the
/// drawn kind and size does not fail when it sets a plot up, and the richest
/// tile on the map when it gathers material.
pub open spec fn tick_input_ok(s: RobotAttributes, input: TickInput, draws: TickDraws) -> bool {
    &&& (s.robot_status == RobotStatus::DrawPicture || s.robot_status
        == RobotStatus::CollectResources) ==> gps_ok(input)
    &&& s.robot_status == RobotStatus::SetupPlot ==> (input.robot_map matches Some(g) ==> {
        let kind = drawing_type_for(draws.drawing_type as int);
        &&& g@.len() + 9 <= usize::MAX
        &&& g@.len() > 0 ==> g@[0]@.len() + 9 <= usize::MAX
        &&& plot_search_ok(
            grid_view(g@),
            s.drawings@,
            kind,
            plot_size_for(kind, draws.plot_size as int).0,
        )
    })
    &&& s.robot_status == RobotStatus::CollectResources ==> (input.most_loaded matches Some(c) ==> (
    input.robot_map matches Some(g) ==> c.0 < g@.len() && c.1 < grid_view(g@)[c.0 as int].len()))
}

/// The first free plot of `size` for a drawing of kind `kind`, when the map has one.
pub open spec fn first_free_plot(
    g: Seq<Seq<Option<Tile>>>,
    drawings: Seq<Drawing>,
    kind: DrawingType,
    size: (usize, usize),
    p: Plot,
) -> bool {
    &&& good_plot(g, drawings, kind, size, p.top_left)
    &&& forall|q: Coords| good_plot(g, drawings, kind, size, q) ==> !coords_before(q, p.top_left)
    &&& p.bottom_right == ((p.top_left.0 + size.0 - 1) as usize, (p.top_left.1 + size.1 - 1) as usize)
}

/// A tick while following directions: the next move is taken off the end of
/// the list; the last one is used for what the mission calls for.
pub open spec fn follow_step(
    s: RobotAttributes,
    t: RobotAttributes,
    input: TickInput,
    draws: TickDraws,
    action: RobotAction,
) -> bool {
    if s.directions@.len() == 0 {
        same_but_status(s, t) && t.robot_status == RobotStatus::DecideWhatToDo && t.robot_mission
            == s.robot_mission && action == RobotAction::Nothing
    } else {
        let d = s.directions@.last();
        &&& t.directions@ == s.directions@.drop_last()
        &&& t.drawings@ == s.drawings@
        &&& t.robot_mission == s.robot_mission
        &&& if s.directions@.len() > 1 {
            t.robot_status == s.robot_status && action == RobotAction::Go(d)
        } else {
            match s.robot_mission {
                TodaysMission::DrawPixel => {
                    let pixel = s.current().blueprint().next_pixel().unwrap();
                    &&& t.robot_status == s.robot_status
                    &&& if input.robot_position != pixel {
                        action == RobotAction::Put(material_of(s.current().kind()), 1, d)
                    } else {
                        action == RobotAction::Go(direction_for(draws.direction as int))
                    }
                },
                TodaysMission::GetMaterial => t.robot_status == s.robot_status && action
                    == RobotAction::Destroy(d),
                TodaysMission::SetupPlot => t.robot_status == RobotStatus::DecideWhatToDo && action
                    == RobotAction::Go(d),
                TodaysMission::Testing => t.robot_status == RobotStatus::Testing && action
                    == RobotAction::ReportMostLoadedCoins,
            }
        }
    }
}

/// A tick setting up a plot: a drawing of the drawn kind and size is laid out
/// on the first free plot, or the robot goes exploring when there is none.
pub open spec fn setup_step(
    s: RobotAttributes,
    t: RobotAttributes,
    input: TickInput,
    draws: TickDraws,
    action: RobotAction,
) -> bool {
    let kind = drawing_type_for(draws.drawing_type as int);
    let (size, dsize) = plot_size_for(kind, draws.plot_size as int);
    let found = input.robot_map matches Some(g) && exists|q: Coords|
        good_plot(grid_view(g@), s.drawings@, kind, size, q);
    &&& action == RobotAction::Nothing
    &&& t.directions@ == s.directions@
    &&& if found {
        &&& t.drawings@.len() == s.drawings@.len() + 1
        &&& t.drawings@.drop_last() == s.drawings@
        &&& first_free_plot(grid_view(input.robot_map->0@), s.drawings@, kind, size, t.current().plot())
        &&& t.current().kind() == kind
        &&& !t.current().done()
        &&& t.current().blueprint().pixels@ == blueprint_pixels(t.current().plot().top_left, kind, dsize)
        &&& t.current().blueprint().pixel_index == 0
        &&& t.robot_status == RobotStatus::DrawPicture
        &&& t.robot_mission == TodaysMission::DrawPixel
    } else {
        &&& t.drawings@ == s.drawings@
        &&& t.robot_status == RobotStatus::Explore
        &&& t.robot_mission == TodaysMission::SetupPlot
    }
}

/// A tick drawing: a finished drawing sends the robot to set up a plot; else
/// it heads for the next pixel, moves off it when standing on it, or marks
/// the drawing done when no pixel is left.
pub open spec fn draw_step(
    s: RobotAttributes,
    t: RobotAttributes,
    input: TickInput,
    draws: TickDraws,
    action: RobotAction,
) -> bool {
    let cur = s.current();
    if cur.done() {
        same_but_status(s, t) && t.robot_status == RobotStatus::SetupPlot && t.robot_mission
            == s.robot_mission && action == RobotAction::Nothing
    } else {
        match cur.blueprint().next_pixel() {
            Some(c) => if input.robot_position != c {
                &&& action == RobotAction::Nothing
                &&& t.drawings@ == s.drawings@
                &&& ((t.robot_status == RobotStatus::FollowDirections && t.robot_mission
                    == TodaysMission::DrawPixel && gps_result(input, c, Some(t.directions)))
                    || (t.robot_status == RobotStatus::Explore && t.robot_mission == s.robot_mission
                    && t.directions@ == s.directions@ && gps_result(input, c, None)))
            } else {
                same_but_status(s, t) && t.robot_status == s.robot_status && t.robot_mission
                    == s.robot_mission && action == RobotAction::Go(
                    direction_for(draws.direction as int),
                )
            },
            None => {
                &&& action == RobotAction::Nothing
                &&& t.directions@ == s.directions@
                &&& t.drawings@.len() == s.drawings@.len()
                &&& t.drawings@.drop_last() == s.drawings@.drop_last()
                &&& t.current().done()
                &&& t.current().plot() == cur.plot()
                &&& t.current().blueprint() == cur.blueprint()
                &&& t.current().kind() == cur.kind()
                &&& t.robot_status == RobotStatus::SetupPlot
                &&& t.robot_mission == TodaysMission::SetupPlot
            },
        }
    }
}

/// A tick gathering material: the robot heads for the richest tile of the
/// current drawing's material when it holds more than a spent unit, else it
/// explores; it decides again when no walk leads there.
pub open spec fn collect_step(
    s: RobotAttributes,
    t: RobotAttributes,
    input: TickInput,
    action: RobotAction,
) -> bool {
    let kind = s.current().kind();
    &&& action == RobotAction::Nothing
    &&& t.drawings@ == s.drawings@
    &&& t.robot_mission == TodaysMission::GetMaterial
    &&& match input.most_loaded {
        Some(c) => if input.robot_map matches Some(g) && grid_view(g@)[c.0 as int][c.1 as int] matches Some(tile)
            && !spent_material(kind, tile.content) {
            (t.robot_status == RobotStatus::FollowDirections && gps_result(input, c, Some(t.directions)))
                || (t.robot_status == RobotStatus::DecideWhatToDo && t.directions@ == s.directions@
                && gps_result(input, c, None))
        } else {
            t.robot_status == RobotStatus::Explore && t.directions@ == s.directions@
        },
        None => t.robot_status == RobotStatus::Explore && t.directions@ == s.directions@,
    }
}

/// What one tick does to the robot in state `s`, given the observations and the random draws.
pub open spec fn tick_step(
    s: RobotAttributes,
    t: RobotAttributes,
    input: TickInput,
    draws: TickDraws,
    action: RobotAction,
) -> bool {
    match s.robot_status {
        RobotStatus::Testing => t.directions@ == spiral_moves(3, 20).reverse() && t.drawings@
            == s.drawings@ && t.robot_status == RobotStatus::FollowDirections && t.robot_mission
            == s.robot_mission && action == RobotAction::Nothing,
        RobotStatus::StartOfRound => t.directions@ == spiral_moves(3, 200).reverse() && t.drawings@
            == s.drawings@ && t.robot_status == RobotStatus::FollowDirections && t.robot_mission
            == s.robot_mission && action == RobotAction::GoLeftThenRight,
        RobotStatus::DecideWhatToDo => same_but_status(s, t) && t.robot_mission == s.robot_mission
            && action == RobotAction::Nothing && t.robot_status == match s.robot_mission {
            TodaysMission::SetupPlot => RobotStatus::SetupPlot,
            TodaysMission::DrawPixel => RobotStatus::DrawPicture,
            TodaysMission::GetMaterial => RobotStatus::CollectResources,
            TodaysMission::Testing => RobotStatus::DecideWhatToDo,
        },
        RobotStatus::Explore => t.directions@ == spiral_moves(3, 100).reverse() && t.drawings@
            == s.drawings@ && t.robot_status == RobotStatus::FollowDirections && t.robot_mission
            == s.robot_mission && action == RobotAction::Nothing,
        RobotStatus::FollowDirections => follow_step(s, t, input, draws, action),
        RobotStatus::SetupPlot => setup_step(s, t, input, draws, action),
        RobotStatus::DrawPicture => draw_step(s, t, input, draws, action),
        RobotStatus::CollectResources => collect_step(s, t, input, action),
    }
}

/// A tick never removes a drawing and never changes any drawing but the
/// current one; it adds at most one, when it sets a plot up.
pub proof fn lemma_tick_keeps_earlier_drawings(
    s: RobotAttributes,
    t: RobotAttributes,
    input: TickInput,
    draws: TickDraws,
    action: RobotAction,
)
    requires
        s.wf(),
        tick_step(s, t, input, draws, action),
    ensures
        s.drawings@.len() <= t.drawings@.len() <= s.drawings@.len() + 1,
        forall|i: int| 0 <= i < s.drawings@.len() - 1 ==> #[trigger] t.drawings@[i] == s.drawings@[i],
{
    assert forall|i: int| 0 <= i < s.drawings@.len() - 1 implies #[trigger] t.drawings@[i] == s.drawings@[i] by {
        if t.drawings@.len() > 0 {
            assert(t.drawings@.drop_last()[i] == t.drawings@[i]);
        }
        assert(s.drawings@.drop_last()[i] == s.drawings@[i]);
    }
}

/// The random draws are in their ranges.
pub open spec fn draws_ok(draws: TickDraws) -> bool {
    draws.direction < 4 && draws.drawing_type < 4 && draws.plot_size <= 100
}

/// After a `Put`, the robot still has the pixel it meant to fill.
pub open spec fn put_pending(s: RobotAttributes) -> bool {
    &&& s.robot_mission == TodaysMission::DrawPixel
    &&& s.drawings@.len() > 0
    &&& s.current().blueprint().next_pixel() is Some
}

impl RobotAttributes {
    /// Decides one tick of the robot, given what it observes and the random
    /// draws; returns what the world should do.
    pub fn process_tick(&mut self, input: &TickInput, draws: &TickDraws) -> (action: RobotAction)
        requires
            old(self).wf(),
            draws_ok(*draws),
            tick_input_ok(*old(self), *input, *draws),
        ensures
            tick_step(*old(self), *final(self), *input, *draws, action),
            final(self).wf(),
            action is Put ==> put_pending(*final(self)),
            action is Destroy ==> final(self).robot_mission == TodaysMission::GetMaterial
                && final(self).drawings@.len() > 0,
    {
        match self.robot_status {
            RobotStatus::Testing => {
                self.directions = spiral_directions_gab_2(20);
                self.robot_status = RobotStatus::FollowDirections;
                RobotAction::Nothing
            },
            RobotStatus::StartOfRound => {
                self.directions = spiral_directions_gab_2(200);
                self.robot_status = RobotStatus::FollowDirections;
                RobotAction::GoLeftThenRight
            },
            RobotStatus::DecideWhatToDo => {
                match self.robot_mission {
                    TodaysMission::SetupPlot => {
                        self.robot_status = RobotStatus::SetupPlot;
                    },
                    TodaysMission::DrawPixel => {
                        self.robot_status = RobotStatus::DrawPicture;
                    },
                    TodaysMission::GetMaterial => {
                        self.robot_status = RobotStatus::CollectResources;
                    },
                    _ => {},
                }
                RobotAction::Nothing
            },
            RobotStatus::Explore => {
                self.directions = spiral_directions_gab_2(100);
                self.robot_status = RobotStatus::FollowDirections;
                RobotAction::Nothing
            },
            RobotStatus::FollowDirections => self.follow_directions(input, draws),
            RobotStatus::SetupPlot => self.setup_plot(input, draws),
            RobotStatus::DrawPicture => self.draw_picture(input, draws),
            RobotStatus::CollectResources => self.collect_resources(input, draws),
        }
    }

    fn follow_directions(&mut self, input: &TickInput, draws: &TickDraws) -> (action: RobotAction)
        requires
            old(self).wf(),
            old(self).robot_status == RobotStatus::FollowDirections,
            draws_ok(*draws),
        ensures
            follow_step(*old(self), *final(self), *input, *draws, action),
            final(self).wf(),
            action is Put ==> put_pending(*final(self)),
            action is Destroy ==> final(self).robot_mission == TodaysMission::GetMaterial
                && final(self).drawings@.len() > 0,
    {
        if self.directions.len() == 0 {
            self.robot_status = RobotStatus::DecideWhatToDo;
            return RobotAction::Nothing;
        }
        let direction = self.directions.pop().unwrap();
        if self.directions.len() > 0 {
            return RobotAction::Go(direction);
        }
        match self.robot_mission {
            TodaysMission::DrawPixel => {
                let last_index = self.drawings.len() - 1;
                let pixel_coords = self.drawings[last_index].get_pixel().unwrap();
                let random_direction = direction_from_draw(draws.direction);
                let kind = self.drawings[last_index].drawing_type();
                if !is_robot_on_next_pixel(input.robot_position, pixel_coords) {
                    RobotAction::Put(material_for(kind), 1, direction)
                } else {
                    RobotAction::Go(random_direction)
                }
            },
            TodaysMission::GetMaterial => RobotAction::Destroy(direction),
            TodaysMission::SetupPlot => {
                self.robot_status = RobotStatus::DecideWhatToDo;
                RobotAction::Go(direction)
            },
            TodaysMission::Testing => {
                self.robot_status = RobotStatus::Testing;
                RobotAction::ReportMostLoadedCoins
            },
        }
    }

    fn setup_plot(&mut self, input: &TickInput, draws: &TickDraws) -> (action: RobotAction)
        requires
            old(self).wf(),
            old(self).robot_status == RobotStatus::SetupPlot,
            draws_ok(*draws),
            tick_input_ok(*old(self), *input, *draws),
        ensures
            setup_step(*old(self), *final(self), *input, *draws, action),
            final(self).wf(),
    {
        let drawing_type = drawing_type_from_draw(draws.drawing_type);
        let (plot_size, drawing_size) = plot_size_from_draw(drawing_type, draws.plot_size);
        let map = copy_map(&input.robot_map);
        proof {
            if input.robot_map is Some {
                let g = input.robot_map->0;
                assert(plot_search_ok(grid_view(g@), self.drawings@, drawing_type, plot_size));
            }
        }
        let maybe_plot = find_plot_from_map(map, plot_size, drawing_type, &self.drawings);
        match maybe_plot {
            Ok(new_plot) => {
                proof {
                    let g = input.robot_map->0;
                    assert(good_plot(grid_view(g@), self.drawings@, drawing_type, plot_size, new_plot.top_left));
                    assert(grid_view(g@)[0] == g@[0]@);
                }
                let new_drawing = make_drawing(drawing_type, new_plot, drawing_size);
                let ghost before = self.drawings@;
                self.drawings.push(new_drawing);
                proof {
                    assert(self.drawings@.drop_last() =~= before);
                    assert forall|i: int| 0 <= i < self.drawings@.len() implies (#[trigger] self.drawings@[i]).wf() by {
                        if i < before.len() {
                            assert(self.drawings@[i] == before[i]);
                        }
                    }
                }
                self.robot_status = RobotStatus::DrawPicture;
                self.robot_mission = TodaysMission::DrawPixel;
            },
            Err(_) => {
                self.robot_status = RobotStatus::Explore;
                self.robot_mission = TodaysMission::SetupPlot;
            },
        }
        RobotAction::Nothing
    }

    fn draw_picture(&mut self, input: &TickInput, draws: &TickDraws) -> (action: RobotAction)
        requires
            old(self).wf(),
            old(self).robot_status == RobotStatus::DrawPicture,
            draws_ok(*draws),
            tick_input_ok(*old(self), *input, *draws),
        ensures
            draw_step(*old(self), *final(self), *input, *draws, action),
            final(self).wf(),
    {
        let last_index = self.drawings.len() - 1;
        if self.drawings[last_index].is_done() == true {
            self.robot_status = RobotStatus::SetupPlot;
            return RobotAction::Nothing;
        }
        let next_pixel_coords = self.drawings[last_index].get_pixel();
        match next_pixel_coords {
            Some(coords) => {
                if !is_robot_on_next_pixel(input.robot_position, coords) {
                    let maybe_pixel_directions = gps(input, coords);
                    if let Some(pixel_directions) = maybe_pixel_directions {
                        self.directions = pixel_directions;
                        self.robot_status = RobotStatus::FollowDirections;
                        self.robot_mission = TodaysMission::DrawPixel;
                    } else {
                        self.robot_status = RobotStatus::Explore;
                    }
                    RobotAction::Nothing
                } else {
                    RobotAction::Go(direction_from_draw(draws.direction))
                }
            },
            None => {
                let ghost before = self.drawings@;
                let mut last = self.drawings.pop().unwrap();
                last.mark_as_done();
                self.drawings.push(last);
                proof {
                    assert(self.drawings@.drop_last() =~= before.drop_last());
                    assert forall|i: int| 0 <= i < self.drawings@.len() implies (#[trigger] self.drawings@[i]).wf() by {
                        if i < before.len() - 1 {
                            assert(self.drawings@[i] == before[i]);
                        } else {
                            assert(before[i].wf());
                        }
                    }
                }
                self.robot_status = RobotStatus::SetupPlot;
                self.robot_mission = TodaysMission::SetupPlot;
                RobotAction::Nothing
            },
        }
    }

    fn collect_resources(&mut self, input: &TickInput, draws: &TickDraws) -> (action: RobotAction)
        requires
            old(self).wf(),
            old(self).robot_status == RobotStatus::CollectResources,
            tick_input_ok(*old(self), *input, *draws),
        ensures
            collect_step(*old(self), *final(self), *input, action),
            final(self).wf(),
    {
        let last_index = self.drawings.len() - 1;
        let drawing_type = self.drawings[last_index].drawing_type();
        match input.most_loaded {
            Some(flipped_coords) => {
                let map = copy_map(&input.robot_map);
                if is_tile_gettable(map, flipped_coords, drawing_type) {
                    let maybe_resource_directions = gps(input, flipped_coords);
                    if let Some(resource_directions) = maybe_resource_directions {
                        self.directions = resource_directions;
                        self.robot_status = RobotStatus::FollowDirections;
                        self.robot_mission = TodaysMission::GetMaterial;
                    } else {
                        self.robot_status = RobotStatus::DecideWhatToDo;
                        self.robot_mission = TodaysMission::GetMaterial;
                    }
                } else {
                    self.robot_status = RobotStatus::Explore;
                    self.robot_mission = TodaysMission::GetMaterial;
                }
            },
            None => {
                self.robot_status = RobotStatus::Explore;
                self.robot_mission = TodaysMission::GetMaterial;
            },
        }
        RobotAction::Nothing
    }

    /// Reports how the `Put` of the last tick went: a put pixel counts as
    /// filled; a failed one (an empty backpack) sends the robot for material.
    pub fn put_outcome(&mut self, ok: bool)
        requires
            old(self).wf(),
            put_pending(*old(self)),
        ensures
            final(self).wf(),
            final(self).directions@ == old(self).directions@,
            final(self).robot_status == RobotStatus::DecideWhatToDo,
            ok ==> {
                &&& final(self).robot_mission == old(self).robot_mission
                &&& final(self).drawings@.len() == old(self).drawings@.len()
                &&& final(self).drawings@.drop_last() == old(self).drawings@.drop_last()
                &&& final(self).current().advanced_from(old(self).current())
            },
            !ok ==> final(self).robot_mission == TodaysMission::GetMaterial && final(self).drawings@
                == old(self).drawings@,
    {
        if ok {
            let ghost before = self.drawings@;
            let mut last = self.drawings.pop().unwrap();
            last.increase_pixel_index();
            self.drawings.push(last);
            proof {
                assert(self.drawings@.drop_last() =~= before.drop_last());
                assert forall|i: int| 0 <= i < self.drawings@.len() implies (#[trigger] self.drawings@[i]).wf() by {
                    if i < before.len() - 1 {
                        assert(self.drawings@[i] == before[i]);
                    }
                }
            }
            self.robot_status = RobotStatus::DecideWhatToDo;
        } else {
            self.robot_status = RobotStatus::DecideWhatToDo;
            self.robot_mission = TodaysMission::GetMaterial;
        }
    }

    /// Reports how the `Destroy` of the last tick went: taken material sends
    /// the robot back to drawing; a failure sends it gathering again.
    pub fn destroy_outcome(&mut self, ok: bool)
        requires
            old(self).wf(),
            old(self).robot_mission == TodaysMission::GetMaterial,
            old(self).drawings@.len() > 0,
        ensures
            final(self).wf(),
            final(self).directions@ == old(self).directions@,
            final(self).drawings@ == old(self).drawings@,
            ok ==> final(self).robot_status == RobotStatus::DrawPicture && final(self).robot_mission
                == TodaysMission::DrawPixel,
            !ok ==> final(self).robot_status == RobotStatus::CollectResources
                && final(self).robot_mission == TodaysMission::GetMaterial,
    {
        if ok {
            self.robot_status = RobotStatus::DrawPicture;
            self.robot_mission = TodaysMission::DrawPixel;
        } else {
            self.robot_status = RobotStatus::CollectResources;
            self.robot_mission = TodaysMission::GetMaterial;
        }
    }
}

/// Returns a copy of the robot's map.
pub fn copy_map(map: &Option<Vec<Vec<Option<Tile>>>>) -> (r: Option<Vec<Vec<Option<Tile>>>>)
    ensures
        r is Some <==> map is Some,
        r matches Some(g) ==> grid_view(g@) == grid_view(map->0@),
{
    match map {
        None => None,
        Some(g) => {
            let mut rows: Vec<Vec<Option<Tile>>> = Vec::new();
            let mut i: usize = 0;
            while i < g.len()
                invariant
                    0 <= i <= g@.len(),
                    rows@.len() == i,
                    forall|k: int| 0 <= k < i ==> (#[trigger] rows@[k])@ == g@[k]@,
                decreases g@.len() - i,
            {
                let mut row: Vec<Option<Tile>> = Vec::new();
                let mut j: usize = 0;
                while j < g[i].len()
                    invariant
                        0 <= i < g@.len(),
                        0 <= j <= g@[i as int]@.len(),
                        row@ == g@[i as int]@.take(j as int),
                    decreases g@[i as int]@.len() - j,
                {
                    row.push(g[i][j]);
                    assert(row@ =~= g@[i as int]@.take(j + 1));
                    j = j + 1;
                }
                assert(row@ =~= g@[i as int]@);
                rows.push(row);
                i = i + 1;
            }
            assert(grid_view(rows@) =~= grid_view(g@));
            Some(rows)
        },
    }
}


impl TickDraws {
    /// Draws the random choices of a tick.
    pub fn draw() -> (r: TickDraws)
        ensures
            draws_ok(r),
    {
        TickDraws { direction: random_below(4), drawing_type: random_below(4), plot_size: random_below(101) }
    }
}

/// Returns whether the observations satisfy what the search asks of them.
pub fn gps_input_valid(input: &TickInput) -> (r: bool)
    ensures
        r == gps_ok(*input),
{
    match &input.robot_map {
        None => true,
        Some(g) => gps_inputs_valid(g, &input.tile_costs),
    }
}

impl RobotAttributes {
    /// Returns whether a tick may be decided on these observations and draws:
    /// where this fails, deciding the tick would index past the map or overflow.
    pub fn tick_is_safe(&self, input: &TickInput, draws: &TickDraws) -> (r: bool)
        ensures
            r == tick_input_ok(*self, *input, *draws),
    {
        let searching = self.robot_status == RobotStatus::DrawPicture || self.robot_status
            == RobotStatus::CollectResources;
        if searching && !gps_input_valid(input) {
            return false;
        }
        if self.robot_status == RobotStatus::SetupPlot {
            if let Some(g) = &input.robot_map {
                if g.len() > usize::MAX - 9 {
                    return false;
                }
                if g.len() > 0 && g[0].len() > usize::MAX - 9 {
                    return false;
                }
            }
            let kind = drawing_type_from_draw(draws.drawing_type);
            let (size, _) = plot_size_from_draw(kind, draws.plot_size);
            if !plot_search_safe(&input.robot_map, size, kind, &self.drawings) {
                return false;
            }
        }
        if self.robot_status == RobotStatus::CollectResources {
            if let Some(c) = input.most_loaded {
                if let Some(g) = &input.robot_map {
                    if c.0 >= g.len() {
                        return false;
                    }
                    assert(grid_view(g@)[c.0 as int] == g@[c.0 as int]@);
                    if c.1 >= g[c.0].len() {
                        return false;
                    }
                }
            }
        }
        true
    }
}

} // verus!
