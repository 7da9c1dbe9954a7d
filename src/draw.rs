use vstd::prelude::*;
use crate::grid::CellState;

verus! {

/// The colours that the map is drawn in.
#[derive(Debug, Clone, Copy, PartialEq, Eq, Structural)]
pub enum Shade {
    Black,
    Gray,
    White,
}

/// An axis-aligned rectangle in pixels: top-left corner, width and height.
#[derive(Debug, Clone, Copy, PartialEq, Eq, Structural)]
pub struct Rect {
    pub x: u64,
    pub y: u64,
    pub w: u64,
    pub h: u64,
}

/// A filled rectangle of one shade.
#[derive(Debug, Clone, Copy, PartialEq, Eq, Structural)]
pub struct Patch {
    pub rect: Rect,
    pub shade: Shade,
}

/// The fill of a cell: gray for a wall, white for a hallway.
pub open spec fn fill_shade(c: CellState) -> Shade {
    match c {
        CellState::Wall => Shade::Gray,
        CellState::Hallway => Shade::White,
    }
}

/// A rectangle from plain numbers.
pub open spec fn rect_of(x: int, y: int, w: int, h: int) -> Rect {
    Rect { x: x as u64, y: y as u64, w: w as u64, h: h as u64 }
}

/// What drawing the cell at `(col, row)` paints, in order: the whole tile in
/// its fill, then, for a wall only, a black border a twentieth of the tile
/// thick along the top, right, bottom and left edges.
pub open spec fn cell_patches_spec(c: CellState, col: int, row: int, cell_size: int) -> Seq<Patch> {
    let x = col * cell_size;
    let y = row * cell_size;
    let b = cell_size / 20;
    let fill = Patch { rect: rect_of(x, y, cell_size, cell_size), shade: fill_shade(c) };
    match c {
        CellState::Hallway => seq![fill],
        CellState::Wall => seq![
            fill,
            Patch { rect: rect_of(x, y, cell_size, b), shade: Shade::Black },
            Patch { rect: rect_of((col + 1) * cell_size - b, y, b, cell_size), shade: Shade::Black },
            Patch { rect: rect_of(x, (row + 1) * cell_size - b, cell_size, b), shade: Shade::Black },
            Patch { rect: rect_of(x, y, b, cell_size), shade: Shade::Black },
        ],
    }
}

impl CellState {
    /// The patches that draw this cell at column `col`, row `row` of a map
    /// whose tiles are `cell_size` pixels wide.
    pub fn patches(&self, col: u32, row: u32, cell_size: u32) -> (r: Vec<Patch>)
        ensures
            r@ == cell_patches_spec(*self, col as int, row as int, cell_size as int),
    {
        let cs = cell_size as u64;
        proof {
            assert((col + 1) * cs <= 0x1_0000_0000 * 0xffff_ffff) by (nonlinear_arith)
                requires
                    col + 1 <= 0x1_0000_0000,
                    cs <= 0xffff_ffff,
            ;
            assert((row + 1) * cs <= 0x1_0000_0000 * 0xffff_ffff) by (nonlinear_arith)
                requires
                    row + 1 <= 0x1_0000_0000,
                    cs <= 0xffff_ffff,
            ;
            assert(cs <= (col + 1) * cs) by (nonlinear_arith)
                requires
                    0 <= col,
                    0 <= cs,
            ;
            assert(cs <= (row + 1) * cs) by (nonlinear_arith)
                requires
                    0 <= row,
                    0 <= cs,
            ;
            assert(col * cs <= (col + 1) * cs) by (nonlinear_arith)
                requires
                    0 <= cs,
            ;
            assert(row * cs <= (row + 1) * cs) by (nonlinear_arith)
                requires
                    0 <= cs,
            ;
        }
        let x = col as u64 * cs;
        let y = row as u64 * cs;
        let b = cs / 20;
        let shade = match self {
            CellState::Wall => Shade::Gray,
            CellState::Hallway => Shade::White,
        };
        let mut r: Vec<Patch> = Vec::new();
        r.push(Patch { rect: Rect { x, y, w: cs, h: cs }, shade });
        match self {
            CellState::Hallway => {},
            CellState::Wall => {
                let right = (col as u64 + 1) * cs - b;
                let bottom = (row as u64 + 1) * cs - b;
                r.push(Patch { rect: Rect { x, y, w: cs, h: b }, shade: Shade::Black });
                r.push(Patch { rect: Rect { x: right, y, w: b, h: cs }, shade: Shade::Black });
                r.push(Patch { rect: Rect { x, y: bottom, w: cs, h: b }, shade: Shade::Black });
                r.push(Patch { rect: Rect { x, y, w: b, h: cs }, shade: Shade::Black });
            },
        }
        assert(r@ =~= cell_patches_spec(*self, col as int, row as int, cell_size as int));
        r
    }
}

} // verus!
