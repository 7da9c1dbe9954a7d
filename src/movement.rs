use vstd::prelude::*;

verus! {

/// The number of heading units in a full turn: a heading is measured in
/// tenths of a degree.
pub const FULL_TURN: u32 = 3600;

/// The heading change of one tick of turning, about a tenth of a radian.
pub const DEFAULT_TURN_STEP: u32 = 57;

/// The fixed-point scale of a `Facing`: a component of `FACING_SCALE` stands
/// for 1.
pub const FACING_SCALE: i64 = 65536;

/// Where the player stands and which way it faces.
///
/// `x` grows to the right and `y` downwards, in world units. `heading` is an
/// angle in tenths of a degree, kept in `0..FULL_TURN`: zero faces along
/// `+x`, and a growing heading turns clockwise on screen.
#[derive(Debug, Clone, Copy, PartialEq, Eq, Structural)]
pub struct Pose {
    pub x: i64,
    pub y: i64,
    pub heading: u32,
}

/// The unit vector of a heading, `(cos, sin)`, in fixed point with scale
/// `FACING_SCALE`.
#[derive(Debug, Clone, Copy, PartialEq, Eq, Structural)]
pub struct Facing {
    pub cos: i32,
    pub sin: i32,
}

/// One command that a held key gives.
#[derive(Debug, Clone, Copy, PartialEq, Eq, Structural)]
pub enum Command {
    Forward,
    Back,
    StrafeLeft,
    StrafeRight,
    TurnLeft,
    TurnRight,
    Run,
}

/// The commands held at the moment.
#[derive(Debug, Clone, Copy, PartialEq, Eq, Structural)]
pub struct InputState {
    pub forward: bool,
    pub back: bool,
    pub strafe_left: bool,
    pub strafe_right: bool,
    pub turn_left: bool,
    pub turn_right: bool,
    pub run: bool,
}

/// Whether `input` holds the command `c`.
pub open spec fn holds(input: InputState, c: Command) -> bool {
    match c {
        Command::Forward => input.forward,
        Command::Back => input.back,
        Command::StrafeLeft => input.strafe_left,
        Command::StrafeRight => input.strafe_right,
        Command::TurnLeft => input.turn_left,
        Command::TurnRight => input.turn_right,
        Command::Run => input.run,
    }
}

impl InputState {
    /// No command held.
    pub fn new() -> (r: InputState)
        ensures
            forall|c: Command| !holds(r, c),
    {
        InputState {
            forward: false,
            back: false,
            strafe_left: false,
            strafe_right: false,
            turn_left: false,
            turn_right: false,
            run: false,
        }
    }

    /// Marks `c` as held; the other commands stay as they were.
    pub fn press(&mut self, c: Command)
        ensures
            holds(*final(self), c),
            forall|d: Command| d != c ==> holds(*final(self), d) == holds(*old(self), d),
    {
        self.set(c, true);
    }

    /// Marks `c` as released; the other commands stay as they were.
    pub fn release(&mut self, c: Command)
        ensures
            !holds(*final(self), c),
            forall|d: Command| d != c ==> holds(*final(self), d) == holds(*old(self), d),
    {
        self.set(c, false);
    }

    fn set(&mut self, c: Command, held: bool)
        ensures
            holds(*final(self), c) == held,
            forall|d: Command| d != c ==> holds(*final(self), d) == holds(*old(self), d),
    {
        match c {
            Command::Forward => self.forward = held,
            Command::Back => self.back = held,
            Command::StrafeLeft => self.strafe_left = held,
            Command::StrafeRight => self.strafe_right = held,
            Command::TurnLeft => self.turn_left = held,
            Command::TurnRight => self.turn_right = held,
            Command::Run => self.run = held,
        }
    }
}

/// `n / d` rounded toward zero.
pub open spec fn div_toward_zero(n: int, d: int) -> int {
    if n >= 0 {
        n / d
    } else {
        -((-n) / d)
    }
}

/// The distance covered in a tick: `speed`, doubled while running.
pub open spec fn pace(input: InputState, speed: int) -> int {
    if input.run {
        2 * speed
    } else {
        speed
    }
}

/// `v` where `held`, else nothing.
pub open spec fn when(held: bool, v: int) -> int {
    if held {
        v
    } else {
        0
    }
}

/// The displacement of one tick. With `(fx, fy)` the facing vector scaled
/// to the pace, forward adds `(fx, fy)`, back adds `(-fx, -fy)`, strafing
/// left adds `(fy, -fx)` and strafing right `(-fy, fx)`; held together they
/// add up, with no normalising.
pub open spec fn displacement_spec(input: InputState, facing: Facing, speed: int) -> (int, int) {
    let fx = div_toward_zero(pace(input, speed) * facing.cos, FACING_SCALE as int);
    let fy = div_toward_zero(pace(input, speed) * facing.sin, FACING_SCALE as int);
    (
        when(input.forward, fx) - when(input.back, fx) + when(input.strafe_left, fy) - when(
            input.strafe_right,
            fy,
        ),
        when(input.forward, fy) - when(input.back, fy) - when(input.strafe_left, fx) + when(
            input.strafe_right,
            fx,
        ),
    )
}

/// `v` limited to the range of a coordinate.
pub open spec fn saturate(v: int) -> int {
    if v > i64::MAX {
        i64::MAX as int
    } else if v < i64::MIN {
        i64::MIN as int
    } else {
        v
    }
}

/// The heading after a tick: turning left takes `step` off, turning right
/// adds it, and the result is wrapped into `0..FULL_TURN`.
pub open spec fn turned(heading: int, input: InputState, step: int) -> int {
    (heading + when(input.turn_right, step) - when(input.turn_left, step)) % (FULL_TURN as int)
}

/// The pose after one tick of movement, before any collision.
pub open spec fn integrate_spec(pose: Pose, input: InputState, facing: Facing, speed: int, step: int) -> Pose {
    let d = displacement_spec(input, facing, speed);
    Pose {
        x: saturate(pose.x + d.0) as i64,
        y: saturate(pose.y + d.1) as i64,
        heading: turned(pose.heading as int, input, step) as u32,
    }
}

fn scale_to_pace(pace: i128, component: i32) -> (r: i64)
    requires
        0 <= pace <= 2 * u32::MAX,
    ensures
        r == div_toward_zero(pace * component, FACING_SCALE as int),
        -0x1_0000_0000_0000 <= r <= 0x1_0000_0000_0000,
{
    let c = component as i128;
    assert(-0x2_0000_0000 * 0x8000_0000 <= pace * c <= 0x2_0000_0000 * 0x8000_0000) by (nonlinear_arith)
        requires
            0 <= pace <= 0x2_0000_0000,
            -0x8000_0000 <= c <= 0x8000_0000,
    ;
    let p = pace * c;
    if p >= 0 {
        (p / 65536) as i64
    } else {
        -((-p / 65536) as i64)
    }
}

/// The displacement of one tick, as `displacement_spec` says.
pub fn displacement(input: &InputState, facing: Facing, speed: u32) -> (r: (i64, i64))
    ensures
        (r.0 as int, r.1 as int) == displacement_spec(*input, facing, speed as int),
{
    let pace: i128 = if input.run {
        2 * (speed as i128)
    } else {
        speed as i128
    };
    let fx = scale_to_pace(pace, facing.cos);
    let fy = scale_to_pace(pace, facing.sin);
    let mut dx: i64 = 0;
    let mut dy: i64 = 0;
    if input.forward {
        dx = dx + fx;
        dy = dy + fy;
    }
    if input.back {
        dx = dx - fx;
        dy = dy - fy;
    }
    if input.strafe_left {
        dx = dx + fy;
        dy = dy - fx;
    }
    if input.strafe_right {
        dx = dx - fy;
        dy = dy + fx;
    }
    (dx, dy)
}

/// `v + d`, limited to the range of a coordinate.
fn add_saturating(v: i64, d: i64) -> (r: i64)
    ensures
        r == saturate(v + d),
{
    let s = v as i128 + d as i128;
    if s > i64::MAX as i128 {
        i64::MAX
    } else if s < i64::MIN as i128 {
        i64::MIN
    } else {
        s as i64
    }
}

/// Turns a heading as `turned` says.
pub fn turn(heading: u32, input: &InputState, step: u32) -> (r: u32)
    ensures
        r == turned(heading as int, *input, step as int),
        r < FULL_TURN,
{
    let t: i64 = heading as i64 + if input.turn_right {
        step as i64
    } else {
        0
    } - if input.turn_left {
        step as i64
    } else {
        0
    };
    let m: i64 = t % 3600;
    let r: i64 = if m < 0 {
        m + 3600
    } else {
        m
    };
    r as u32
}

/// Advances the pose by one tick of held input: the position moves by the
/// tick's displacement (limited to the coordinate range), then the heading
/// turns.
pub fn integrate(pose: Pose, input: &InputState, facing: Facing, speed: u32, turn_step: u32) -> (r: Pose)
    ensures
        r == integrate_spec(pose, *input, facing, speed as int, turn_step as int),
{
    let d = displacement(input, facing, speed);
    Pose {
        x: add_saturating(pose.x, d.0),
        y: add_saturating(pose.y, d.1),
        heading: turn(pose.heading, input, turn_step),
    }
}

/// Held inputs that share no command but agree on running move the player
/// together by the sum of what each moves it alone: nothing is normalised.
pub proof fn lemma_displacement_additive(a: InputState, b: InputState, facing: Facing, speed: int)
    requires
        a.run == b.run,
        !(a.forward && b.forward),
        !(a.back && b.back),
        !(a.strafe_left && b.strafe_left),
        !(a.strafe_right && b.strafe_right),
    ensures
        ({
            let both = InputState {
                forward: a.forward || b.forward,
                back: a.back || b.back,
                strafe_left: a.strafe_left || b.strafe_left,
                strafe_right: a.strafe_right || b.strafe_right,
                turn_left: a.turn_left || b.turn_left,
                turn_right: a.turn_right || b.turn_right,
                run: a.run,
            };
            let da = displacement_spec(a, facing, speed);
            let db = displacement_spec(b, facing, speed);
            displacement_spec(both, facing, speed) == (da.0 + db.0, da.1 + db.1)
        }),
{
}

} // verus!
