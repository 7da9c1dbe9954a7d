use vstd::prelude::*;
use crate::collision::{OutOfBoundsError, extents_fit, resolve, resolve_spec};
use crate::grid::{CellMap, max_row_len};
use crate::movement::{Command, Facing, InputState, Pose, holds, integrate, integrate_spec};

verus! {

/// One player on one map: the pose, the held commands and the tunables of
/// movement. Lengths are in world units.
pub struct AppState {
    pose: Pose,
    map: CellMap,
    cell_size: u32,
    speed: u32,
    turn_step: u32,
    input: InputState,
}

/// What one tick does to a pose: it moves by the held input, and the
/// position it reaches is resolved against the map.
pub open spec fn tick_spec(
    map: Seq<Seq<crate::grid::CellState>>,
    cell_size: int,
    pose: Pose,
    input: InputState,
    facing: Facing,
    speed: int,
    turn_step: int,
) -> Result<Pose, (int, int)> {
    let moved = integrate_spec(pose, input, facing, speed, turn_step);
    match resolve_spec(map, moved.x as int, moved.y as int, cell_size) {
        Ok(p) => Ok(Pose { x: p.0 as i64, y: p.1 as i64, heading: moved.heading }),
        Err(t) => Err(t),
    }
}

impl AppState {
    #[verifier::type_invariant]
    closed spec fn wf(&self) -> bool {
        self.cell_size > 0 && extents_fit(&self.map, self.cell_size)
    }

    /// The player's pose.
    pub closed spec fn pose_spec(&self) -> Pose {
        self.pose
    }

    /// The commands held.
    pub closed spec fn input_spec(&self) -> InputState {
        self.input
    }

    /// The rows of the map.
    pub closed spec fn map_spec(&self) -> Seq<Seq<crate::grid::CellState>> {
        self.map@
    }

    /// The side of a tile, in world units.
    pub closed spec fn cell_size_spec(&self) -> u32 {
        self.cell_size
    }

    /// The distance moved per tick, in world units.
    pub closed spec fn speed_spec(&self) -> u32 {
        self.speed
    }

    /// The heading change of a tick of turning.
    pub closed spec fn turn_step_spec(&self) -> u32 {
        self.turn_step
    }

    /// Starts a player at the centre of the map, facing along `+x`, with no
    /// command held. `None` where the cell size is zero or the map's extent
    /// in world units does not fit a coordinate.
    pub fn new(map: CellMap, cell_size: u32, speed: u32, turn_step: u32) -> (r: Option<AppState>)
        ensures
            r is Some <==> cell_size > 0 && extents_fit(&map, cell_size),
            r matches Some(s) ==> {
                &&& s.map_spec() == map@
                &&& s.cell_size_spec() == cell_size
                &&& s.speed_spec() == speed
                &&& s.turn_step_spec() == turn_step
                &&& s.pose_spec() == Pose {
                    x: (max_row_len(map@) * cell_size / 2) as i64,
                    y: (map@.len() * cell_size / 2) as i64,
                    heading: 0,
                }
                &&& forall|c: Command| !holds(s.input_spec(), c)
            },
    {
        if cell_size == 0 {
            return None;
        }
        let w = map.width() as u128;
        let h = map.height() as u128;
        let cs = cell_size as u128;
        assert(w * cs <= 0xffff_ffff_ffff_ffff * 0xffff_ffff) by (nonlinear_arith)
            requires
                w <= 0xffff_ffff_ffff_ffff,
                cs <= 0xffff_ffff,
        ;
        assert(h * cs <= 0xffff_ffff_ffff_ffff * 0xffff_ffff) by (nonlinear_arith)
            requires
                h <= 0xffff_ffff_ffff_ffff,
                cs <= 0xffff_ffff,
        ;
        let extent_x = w * cs;
        let extent_y = h * cs;
        if extent_x > i64::MAX as u128 || extent_y > i64::MAX as u128 {
            return None;
        }
        let pose = Pose { x: (extent_x / 2) as i64, y: (extent_y / 2) as i64, heading: 0 };
        Some(AppState { pose, map, cell_size, speed, turn_step, input: InputState::new() })
    }

    /// One tick: the pose moves by the held input, along `facing` (the unit
    /// vector of the current heading), and is then resolved against the map.
    /// On an error the pose is left as it was.
    pub fn update(&mut self, facing: Facing) -> (r: Result<(), OutOfBoundsError>)
        ensures
            final(self).map_spec() == old(self).map_spec(),
            final(self).cell_size_spec() == old(self).cell_size_spec(),
            final(self).speed_spec() == old(self).speed_spec(),
            final(self).turn_step_spec() == old(self).turn_step_spec(),
            final(self).input_spec() == old(self).input_spec(),
            ({
                let t = tick_spec(
                    old(self).map_spec(),
                    old(self).cell_size_spec() as int,
                    old(self).pose_spec(),
                    old(self).input_spec(),
                    facing,
                    old(self).speed_spec() as int,
                    old(self).turn_step_spec() as int,
                );
                match r {
                    Ok(()) => t == Ok::<Pose, (int, int)>(final(self).pose_spec()),
                    Err(e) => t == Err::<Pose, (int, int)>((e.column as int, e.row as int))
                        && final(self).pose_spec() == old(self).pose_spec(),
                }
            }),
    {
        proof {
            use_type_invariant(&*self);
        }
        let moved = integrate(self.pose, &self.input, facing, self.speed, self.turn_step);
        match resolve(moved, &self.map, self.cell_size) {
            Ok(p) => {
                self.pose = p;
                Ok(())
            },
            Err(e) => Err(e),
        }
    }

    /// A key went down: its command is now held.
    pub fn key_down_event(&mut self, c: Command)
        ensures
            holds(final(self).input_spec(), c),
            forall|d: Command| d != c ==> holds(final(self).input_spec(), d) == holds(old(self).input_spec(), d),
            final(self).pose_spec() == old(self).pose_spec(),
            final(self).map_spec() == old(self).map_spec(),
            final(self).cell_size_spec() == old(self).cell_size_spec(),
            final(self).speed_spec() == old(self).speed_spec(),
            final(self).turn_step_spec() == old(self).turn_step_spec(),
    {
        proof {
            use_type_invariant(&*self);
        }
        let mut input = self.input;
        input.press(c);
        self.input = input;
    }

    /// A key went up: its command is no longer held.
    pub fn key_up_event(&mut self, c: Command)
        ensures
            !holds(final(self).input_spec(), c),
            forall|d: Command| d != c ==> holds(final(self).input_spec(), d) == holds(old(self).input_spec(), d),
            final(self).pose_spec() == old(self).pose_spec(),
            final(self).map_spec() == old(self).map_spec(),
            final(self).cell_size_spec() == old(self).cell_size_spec(),
            final(self).speed_spec() == old(self).speed_spec(),
            final(self).turn_step_spec() == old(self).turn_step_spec(),
    {
        proof {
            use_type_invariant(&*self);
        }
        let mut input = self.input;
        input.release(c);
        self.input = input;
    }

    /// The player's pose.
    pub fn pose(&self) -> (r: Pose)
        ensures
            r == self.pose_spec(),
    {
        self.pose
    }

    /// The map the player moves on.
    pub fn map(&self) -> (r: &CellMap)
        ensures
            r@ == self.map_spec(),
    {
        &self.map
    }

    /// The side of a tile, in world units.
    pub fn cell_size(&self) -> (r: u32)
        ensures
            r == self.cell_size_spec(),
    {
        self.cell_size
    }

    /// The commands held at the moment.
    pub fn input(&self) -> (r: InputState)
        ensures
            r == self.input_spec(),
    {
        self.input
    }
}

} // verus!
