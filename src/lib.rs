//! A top-down grid world: level text is parsed into a map of walls and
//! hallways, and a player pose is advanced each tick from held inputs and
//! pushed back out of any wall it has entered.
//!
//! All lengths are integers in one world unit chosen by the caller (the
//! viewer uses hundredths of a pixel); the bounds clamp keeps a position one
//! unit inside the far edge of the map.
pub mod collision;
pub mod config;
pub mod draw;
pub mod grid;
pub mod level;
pub mod movement;
pub mod world;

pub use collision::{Edge, OutOfBoundsError, clamp_to_extent, nearest_edge, resolve};
pub use config::{
    ConfigError, DEFAULT_CELL_SIZE, DEFAULT_LEVEL_PATH, DEFAULT_SPEED, LaunchOptions,
    eq_ignore_ascii_case, find_flag, has_level_extension, launch_options, level_path,
    parse_cell_size, parse_speed,
};
pub use draw::{Patch, Rect, Shade};
pub use grid::{CellMap, CellState, InvalidCellError};
pub use level::{LineBreak, detect_line_break, parse_level, split_level_text};
pub use movement::{
    Command, DEFAULT_TURN_STEP, FACING_SCALE, FULL_TURN, Facing, InputState, Pose, displacement,
    integrate, turn,
};
pub use world::AppState;
