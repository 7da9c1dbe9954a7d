use raycaster::{
    clamp_to_extent, detect_line_break, displacement, integrate, nearest_edge, parse_level,
    resolve, split_level_text, turn, AppState, CellMap, CellState, Command, Edge, Facing,
    InputState, InvalidCellError, LineBreak, OutOfBoundsError, Patch, Pose, Rect, Shade,
    FACING_SCALE, FULL_TURN,
};

fn chars(s: &str) -> Vec<char> {
    s.chars().collect()
}

fn map_of(rows: &[&str]) -> CellMap {
    CellMap::from_2d_char_vec(rows.iter().map(|r| chars(r)).collect()).unwrap()
}

fn at(x: i64, y: i64) -> Pose {
    Pose { x, y, heading: 0 }
}

fn east() -> Facing {
    Facing { cos: FACING_SCALE as i32, sin: 0 }
}

fn held(f: impl Fn(&mut InputState)) -> InputState {
    let mut i = InputState::new();
    f(&mut i);
    i
}

#[test]
fn grid_size_is_row_count_and_longest_row() {
    let m = map_of(&["##.", "#", "", ".#.#"]);
    assert_eq!(m.height(), 4);
    assert_eq!(m.width(), 4);
    let e = map_of(&[]);
    assert_eq!(e.height(), 0);
    assert_eq!(e.width(), 0);
}

#[test]
fn grid_cells_follow_characters() {
    let m = map_of(&["#.", "."]);
    assert_eq!(m.cell_at(0, 0), Some(CellState::Wall));
    assert_eq!(m.cell_at(1, 0), Some(CellState::Hallway));
    assert_eq!(m.cell_at(0, 1), Some(CellState::Hallway));
    assert_eq!(m.cell_at(1, 1), None);
    assert_eq!(m.cell_at(0, 2), None);
}

#[test]
fn grid_rejects_unknown_character() {
    let r = CellMap::from_2d_char_vec(vec![chars("##"), chars("#x."), chars("y")]);
    assert_eq!(r.err(), Some(InvalidCellError { row: 1, column: 1, found: 'x' }));
}

#[test]
fn level_lines_with_crlf_equal_lines_with_lf() {
    let lf = split_level_text(&chars("##.\n#.#\n##."));
    let crlf = split_level_text(&chars("##.\r\n#.#\r\n##."));
    assert_eq!(lf, vec![chars("##."), chars("#.#"), chars("##.")]);
    assert_eq!(lf, crlf);
    let a = parse_level(&chars("##.\n#.#\n##.")).unwrap();
    let b = parse_level(&chars("##.\r\n#.#\r\n##.")).unwrap();
    assert_eq!(a.height(), b.height());
    assert_eq!(a.width(), b.width());
    for row in 0..3 {
        for col in 0..3 {
            assert_eq!(a.cell_at(col, row), b.cell_at(col, row));
        }
    }
}

#[test]
fn level_separator_is_detected_in_priority_order() {
    assert_eq!(detect_line_break(&chars("a\r\nb\nc")), LineBreak::CrLf);
    assert_eq!(detect_line_break(&chars("a\nb\rc")), LineBreak::Lf);
    assert_eq!(detect_line_break(&chars("a\rb")), LineBreak::Cr);
    assert_eq!(detect_line_break(&chars("ab")), LineBreak::Unbroken);
    assert_eq!(detect_line_break(&chars("")), LineBreak::Unbroken);
}

#[test]
fn level_splitting_edge_cases() {
    assert_eq!(split_level_text(&chars("#.\r.#")), vec![chars("#."), chars(".#")]);
    assert_eq!(split_level_text(&chars("#.#")), vec![chars("#.#")]);
    assert_eq!(split_level_text(&chars("")), vec![chars("")]);
    assert_eq!(split_level_text(&chars("#\n")), vec![chars("#"), chars("")]);
    // a lone \r inside a \r\n text stays in its line
    assert_eq!(split_level_text(&chars("#\r\r\n.")), vec![chars("#\r"), chars(".")]);
    // with \r\n present, a bare \n is not a separator
    assert_eq!(split_level_text(&chars("#\n.\r\n#")), vec![chars("#\n."), chars("#")]);
}

#[test]
fn level_parse_reports_bad_character() {
    let r = parse_level(&chars("#.\n.?"));
    assert_eq!(r.err(), Some(InvalidCellError { row: 1, column: 1, found: '?' }));
    let r = parse_level(&chars("#.\r\n.#\r\n"));
    assert!(r.is_ok());
}

#[test]
fn clamp_on_edges() {
    assert_eq!(clamp_to_extent(300, 300), 299);
    assert!(clamp_to_extent(300, 300) < 300);
    assert_eq!(clamp_to_extent(0, 300), 0);
    assert_eq!(clamp_to_extent(-7, 300), 0);
    assert_eq!(clamp_to_extent(1000, 300), 299);
    assert_eq!(clamp_to_extent(150, 300), 150);
    assert_eq!(clamp_to_extent(5, 0), 0);
}

#[test]
fn nearest_edge_breaks_ties_right_bottom_left_top() {
    assert_eq!(nearest_edge(5, 5, 5, 5), Edge::Right);
    assert_eq!(nearest_edge(6, 5, 5, 5), Edge::Bottom);
    assert_eq!(nearest_edge(6, 6, 5, 5), Edge::Left);
    assert_eq!(nearest_edge(6, 6, 6, 5), Edge::Top);
    assert_eq!(nearest_edge(9, 3, 3, 9), Edge::Bottom);
    assert_eq!(nearest_edge(2, 8, 2, 8), Edge::Right);
}

#[test]
fn example_map_hallway_and_bottom_push() {
    let m = map_of(&["##.", "#.#", "##."]);
    // tile (1,1) is a hallway: nothing to push
    assert_eq!(resolve(at(150, 195), &m, 100), Ok(at(150, 195)));
    // 5 units into wall tile (1,0) from its bottom edge
    assert_eq!(resolve(at(150, 95), &m, 100), Ok(at(150, 100)));
}

#[test]
fn push_toward_each_edge() {
    let m = map_of(&["###", "###", "###"]);
    assert_eq!(resolve(at(190, 150), &m, 100), Ok(at(200, 150)));
    assert_eq!(resolve(at(150, 190), &m, 100), Ok(at(150, 200)));
    assert_eq!(resolve(at(110, 150), &m, 100), Ok(at(100, 150)));
    assert_eq!(resolve(at(150, 110), &m, 100), Ok(at(150, 100)));
    // equal distances to all edges: right wins
    assert_eq!(resolve(at(150, 150), &m, 100), Ok(at(200, 150)));
}

#[test]
fn resolve_keeps_heading() {
    let m = map_of(&["#"]);
    let p = Pose { x: 90, y: 50, heading: 1234 };
    assert_eq!(resolve(p, &m, 100), Ok(Pose { x: 100, y: 50, heading: 1234 }));
}

#[test]
fn resolve_clamps_before_lookup() {
    let m = map_of(&["..", ".."]);
    assert_eq!(resolve(at(-40, 500), &m, 100), Ok(at(0, 199)));
    assert_eq!(resolve(at(200, 0), &m, 100), Ok(at(199, 0)));
}

#[test]
fn resolve_twice_is_resolve_once() {
    let m = map_of(&["#.#", "###", ".#."]);
    for &(x, y) in &[(90, 50), (10, 50), (50, 10), (50, 90), (250, 150), (299, 299), (150, 150), (-20, 400)] {
        let once = resolve(at(x, y), &m, 100).unwrap();
        assert_eq!(resolve(once, &m, 100), Ok(once));
    }
}

#[test]
fn wall_push_can_stay_inside_the_tile() {
    // snapping to a left or top edge keeps the position in the same tile
    let m = map_of(&["#"]);
    assert_eq!(resolve(at(10, 50), &m, 100), Ok(at(0, 50)));
    assert_eq!(resolve(at(0, 50), &m, 100), Ok(at(0, 50)));
}

#[test]
fn resolve_reports_short_rows() {
    let m = map_of(&["..", "."]);
    assert_eq!(resolve(at(15, 15), &m, 10), Err(OutOfBoundsError { column: 1, row: 1 }));
    let empty = map_of(&[]);
    assert_eq!(resolve(at(3, 3), &empty, 10), Err(OutOfBoundsError { column: 0, row: 0 }));
}

#[test]
fn forward_and_run() {
    let f = held(|i| i.press(Command::Forward));
    assert_eq!(displacement(&f, east(), 500), (500, 0));
    let fr = held(|i| {
        i.press(Command::Forward);
        i.press(Command::Run)
    });
    assert_eq!(displacement(&fr, east(), 500), (1000, 0));
    let b = held(|i| i.press(Command::Back));
    assert_eq!(displacement(&b, east(), 500), (-500, 0));
}

#[test]
fn strafing_is_perpendicular() {
    let l = held(|i| i.press(Command::StrafeLeft));
    let r = held(|i| i.press(Command::StrafeRight));
    assert_eq!(displacement(&l, east(), 500), (0, -500));
    assert_eq!(displacement(&r, east(), 500), (0, 500));
    let south = Facing { cos: 0, sin: FACING_SCALE as i32 };
    assert_eq!(displacement(&l, south, 500), (500, 0));
    assert_eq!(displacement(&r, south, 500), (-500, 0));
}

#[test]
fn forward_plus_strafe_right_adds_up() {
    let facing = Facing { cos: 39322, sin: 52429 };
    let f = held(|i| i.press(Command::Forward));
    let r = held(|i| i.press(Command::StrafeRight));
    let both = held(|i| {
        i.press(Command::Forward);
        i.press(Command::StrafeRight)
    });
    let a = displacement(&f, facing, 1000);
    let b = displacement(&r, facing, 1000);
    assert_eq!(a, (600, 800));
    assert_eq!(b, (-800, 600));
    assert_eq!(displacement(&both, facing, 1000), (a.0 + b.0, a.1 + b.1));
    assert_eq!(displacement(&both, facing, 1000), (-200, 1400));
}

#[test]
fn scaling_rounds_toward_zero() {
    let f = held(|i| i.press(Command::Forward));
    let facing = Facing { cos: -1, sin: 1 };
    assert_eq!(displacement(&f, facing, 100), (0, 0));
    let facing = Facing { cos: -(FACING_SCALE as i32) / 2, sin: 3 * (FACING_SCALE as i32) / 4 };
    assert_eq!(displacement(&f, facing, 3), (-1, 2));
}

#[test]
fn turning_wraps_into_a_full_turn() {
    let l = held(|i| i.press(Command::TurnLeft));
    let r = held(|i| i.press(Command::TurnRight));
    let both = held(|i| {
        i.press(Command::TurnLeft);
        i.press(Command::TurnRight)
    });
    assert_eq!(turn(0, &l, 57), 3543);
    assert_eq!(turn(3590, &r, 57), 47);
    assert_eq!(turn(100, &r, 57), 157);
    assert_eq!(turn(100, &both, 57), 100);
    assert_eq!(turn(100, &InputState::new(), 57), 100);
    assert_eq!(turn(7300, &InputState::new(), 57), 100);
    assert!(turn(u32::MAX, &r, u32::MAX) < FULL_TURN);
}

#[test]
fn integrate_moves_then_turns_and_saturates() {
    let i = held(|i| {
        i.press(Command::Forward);
        i.press(Command::TurnRight)
    });
    let p = integrate(Pose { x: 10, y: 20, heading: 0 }, &i, east(), 500, 57);
    assert_eq!(p, Pose { x: 510, y: 20, heading: 57 });
    let edge = integrate(Pose { x: i64::MAX - 1, y: 0, heading: 0 }, &i, east(), 500, 57);
    assert_eq!(edge.x, i64::MAX);
    let b = held(|i| i.press(Command::Back));
    let low = integrate(Pose { x: i64::MIN + 1, y: 0, heading: 0 }, &b, east(), 500, 57);
    assert_eq!(low.x, i64::MIN);
}

#[test]
fn input_press_and_release() {
    let mut i = InputState::new();
    i.press(Command::Run);
    i.press(Command::TurnLeft);
    assert!(i.run && i.turn_left && !i.forward);
    i.release(Command::Run);
    assert!(!i.run && i.turn_left);
}

#[test]
fn app_starts_at_map_centre() {
    let s = AppState::new(map_of(&["...", "...", ".."]), 100, 500, 57).unwrap();
    assert_eq!(s.pose(), Pose { x: 150, y: 150, heading: 0 });
    assert_eq!(s.cell_size(), 100);
    assert_eq!(s.input(), InputState::new());
    assert!(AppState::new(map_of(&["."]), 0, 500, 57).is_none());
    assert!(AppState::new(map_of(&["."]), u32::MAX, 500, 57).is_some());
}

#[test]
fn app_tick_moves_and_resolves() {
    let mut s = AppState::new(map_of(&["...", "..#", "..."]), 100, 500, 57).unwrap();
    s.key_down_event(Command::Forward);
    s.key_down_event(Command::Run);
    // from (150,150): 1000 east lands at (1150,150), clamped to (299,150),
    // inside wall tile (2,1): the nearest edge is the right one
    assert_eq!(s.update(east()), Ok(()));
    assert_eq!(s.pose(), Pose { x: 300, y: 150, heading: 0 });
    s.key_up_event(Command::Forward);
    s.key_up_event(Command::Run);
    s.key_down_event(Command::TurnLeft);
    assert_eq!(s.update(east()), Ok(()));
    assert_eq!(s.pose(), Pose { x: 300, y: 150, heading: 3543 });
}

#[test]
fn app_tick_error_keeps_pose() {
    let mut s = AppState::new(map_of(&["..", "."]), 10, 500, 57).unwrap();
    s.key_down_event(Command::Forward);
    let before = s.pose();
    assert_eq!(s.update(Facing { cos: 0, sin: FACING_SCALE as i32 }), Err(OutOfBoundsError { column: 1, row: 1 }));
    assert_eq!(s.pose(), before);
}

#[test]
fn wall_cell_draws_fill_and_four_borders() {
    let p = CellState::Wall.patches(2, 1, 100);
    let black = |x, y, w, h| Patch { rect: Rect { x, y, w, h }, shade: Shade::Black };
    assert_eq!(
        p,
        vec![
            Patch { rect: Rect { x: 200, y: 100, w: 100, h: 100 }, shade: Shade::Gray },
            black(200, 100, 100, 5),
            black(295, 100, 5, 100),
            black(200, 195, 100, 5),
            black(200, 100, 5, 100),
        ]
    );
}

#[test]
fn hallway_cell_draws_fill_only() {
    let p = CellState::Hallway.patches(0, 3, 40);
    assert_eq!(p, vec![Patch { rect: Rect { x: 0, y: 120, w: 40, h: 40 }, shade: Shade::White }]);
}
