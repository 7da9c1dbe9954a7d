use raycaster::{
    eq_ignore_ascii_case, find_flag, has_level_extension, launch_options, level_path,
    parse_cell_size, parse_speed, ConfigError, LaunchOptions, DEFAULT_CELL_SIZE,
    DEFAULT_LEVEL_PATH, DEFAULT_SPEED,
};

fn args(a: &[&str]) -> Vec<String> {
    a.iter().map(|s| s.to_string()).collect()
}

#[test]
fn cell_size_and_speed_from_flags() {
    let o = launch_options(&args(&["raycaster", "level.lvl", "-c", "50", "-s", "10"])).unwrap();
    assert_eq!(o, LaunchOptions { level_path: "level.lvl".to_string(), cell_size: 50, speed: 1000 });
}

#[test]
fn defaults_without_flags() {
    let o = launch_options(&args(&["raycaster", "level.lvl"])).unwrap();
    assert_eq!(o.cell_size, 100);
    assert_eq!(o.speed, 500);
    assert_eq!(DEFAULT_CELL_SIZE, 100);
    assert_eq!(DEFAULT_SPEED, 500);
    let o = launch_options(&args(&["raycaster"])).unwrap();
    assert_eq!(o.level_path, DEFAULT_LEVEL_PATH);
}

#[test]
fn long_flags_ignore_case() {
    let o = launch_options(&args(&["raycaster", "maps/a.lvl", "--CellSize", "7", "--SPEED", "2.5"])).unwrap();
    assert_eq!(o.cell_size, 7);
    assert_eq!(o.speed, 250);
    let o = launch_options(&args(&["raycaster", "-S", ".25"])).unwrap();
    assert_eq!(o.speed, 25);
    assert_eq!(o.level_path, DEFAULT_LEVEL_PATH);
}

#[test]
fn command_line_errors() {
    assert_eq!(launch_options(&args(&["raycaster", "level.txt"])), Err(ConfigError::BadExtension));
    assert_eq!(launch_options(&args(&["raycaster", "level.lvl", "-c"])), Err(ConfigError::MissingCellSize));
    assert_eq!(launch_options(&args(&["raycaster", "level.lvl", "-c", "big"])), Err(ConfigError::BadCellSize));
    assert_eq!(launch_options(&args(&["raycaster", "level.lvl", "-s"])), Err(ConfigError::MissingSpeed));
    assert_eq!(launch_options(&args(&["raycaster", "level.lvl", "-s", "fast"])), Err(ConfigError::BadSpeed));
    // the first flag counts
    assert_eq!(launch_options(&args(&["raycaster", "a.lvl", "-c", "x", "-c", "5"])), Err(ConfigError::BadCellSize));
}

#[test]
fn level_path_is_first_positional() {
    assert_eq!(level_path(&args(&["raycaster", "x/y.lvl"])), "x/y.lvl");
    assert_eq!(level_path(&args(&["raycaster", "-c", "5"])), DEFAULT_LEVEL_PATH);
    assert_eq!(level_path(&args(&["raycaster"])), DEFAULT_LEVEL_PATH);
}

#[test]
fn level_extension() {
    assert!(has_level_extension("a.lvl"));
    assert!(has_level_extension("dir.v2/a.b.lvl"));
    assert!(has_level_extension("lvl"));
    assert!(!has_level_extension("alvl"));
    assert!(!has_level_extension("a.lvl.bak"));
    assert!(!has_level_extension("a.LVL"));
    assert!(!has_level_extension(""));
}

#[test]
fn cell_size_text() {
    assert_eq!(parse_cell_size("50"), Some(50));
    assert_eq!(parse_cell_size("+8"), Some(8));
    assert_eq!(parse_cell_size("4294967295"), Some(u32::MAX));
    assert_eq!(parse_cell_size("4294967296"), None);
    assert_eq!(parse_cell_size(""), None);
    assert_eq!(parse_cell_size("+"), None);
    assert_eq!(parse_cell_size("-3"), None);
    assert_eq!(parse_cell_size("1.5"), None);
}

#[test]
fn speed_text() {
    assert_eq!(parse_speed("10"), Some(1000));
    assert_eq!(parse_speed("5.0"), Some(500));
    assert_eq!(parse_speed("5."), Some(500));
    assert_eq!(parse_speed("2.5"), Some(250));
    assert_eq!(parse_speed("0.75"), Some(75));
    assert_eq!(parse_speed("+3"), Some(300));
    assert_eq!(parse_speed("42949672.95"), Some(u32::MAX));
    assert_eq!(parse_speed("42949673"), None);
    assert_eq!(parse_speed("0.125"), None);
    assert_eq!(parse_speed("."), None);
    assert_eq!(parse_speed(""), None);
    assert_eq!(parse_speed("1.2.3"), None);
    assert_eq!(parse_speed("-1"), None);
}

#[test]
fn flag_lookup() {
    let a = args(&["raycaster", "x.lvl", "--SPEED", "3", "-s", "4"]);
    assert_eq!(find_flag(&a, "-s", "--speed"), Some(2));
    assert_eq!(find_flag(&a, "-c", "--cellsize"), None);
    assert!(eq_ignore_ascii_case("--CellSize", "--cellsize"));
    assert!(!eq_ignore_ascii_case("-c", "-cc"));
}
