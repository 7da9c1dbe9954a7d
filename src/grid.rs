use vstd::prelude::*;

verus! {

/// What occupies one tile of the map.
#[derive(Debug, Clone, Copy, PartialEq, Eq, Structural)]
pub enum CellState {
    Wall,
    Hallway,
}

/// The cell that a level character stands for: `.` is a hallway, `#` a wall.
pub open spec fn cell_of_char(c: char) -> Option<CellState> {
    if c == '.' {
        Some(CellState::Hallway)
    } else if c == '#' {
        Some(CellState::Wall)
    } else {
        None
    }
}

/// A character of a level that is neither `.` nor `#`, and where it stood.
#[derive(Debug, Clone, Copy, PartialEq, Eq, Structural)]
pub struct InvalidCellError {
    pub row: usize,
    pub column: usize,
    pub found: char,
}

/// The length of the longest row (zero for no rows).
pub open spec fn max_row_len<T>(rows: Seq<Seq<T>>) -> nat
    decreases rows.len(),
{
    if rows.len() == 0 {
        0
    } else {
        let rest = max_row_len(rows.drop_last());
        let last = rows.last().len();
        if last > rest {
            last
        } else {
            rest
        }
    }
}

/// No row is longer than the longest.
pub proof fn lemma_row_len_le_max<T>(rows: Seq<Seq<T>>, i: int)
    requires
        0 <= i < rows.len(),
    ensures
        rows[i].len() <= max_row_len(rows),
    decreases rows.len(),
{
    if i < rows.len() - 1 {
        lemma_row_len_le_max(rows.drop_last(), i);
        assert(rows.drop_last()[i] == rows[i]);
    }
}

/// Two lists of rows with rows of the same lengths have the same longest row.
pub proof fn lemma_max_row_len_same<A, B>(a: Seq<Seq<A>>, b: Seq<Seq<B>>)
    requires
        a.len() == b.len(),
        forall|i: int| 0 <= i < a.len() ==> #[trigger] a[i].len() == b[i].len(),
    ensures
        max_row_len(a) == max_row_len(b),
    decreases a.len(),
{
    if a.len() > 0 {
        assert forall|i: int| 0 <= i < a.drop_last().len() implies #[trigger] a.drop_last()[i].len()
            == b.drop_last()[i].len() by {
            assert(a.drop_last()[i] == a[i]);
            assert(b.drop_last()[i] == b[i]);
        }
        lemma_max_row_len_same(a.drop_last(), b.drop_last());
    }
}

/// The map built from rows of valid level characters has as many rows as
/// were given, and is as wide as the longest of them.
pub proof fn lemma_built_size(rows: Seq<Seq<char>>)
    requires
        all_cells_valid(rows),
    ensures
        cells_of_chars(rows).len() == rows.len(),
        max_row_len(cells_of_chars(rows)) == max_row_len(rows),
{
    let m = cells_of_chars(rows);
    assert forall|i: int| 0 <= i < rows.len() implies #[trigger] rows[i].len() == m[i].len() by {}
    lemma_max_row_len_same(rows, m);
}

/// Every row is a row of valid level characters.
pub open spec fn all_cells_valid(rows: Seq<Seq<char>>) -> bool {
    forall|r: int, c: int|
        0 <= r < rows.len() && 0 <= c < rows[r].len() ==> (#[trigger] cell_of_char(rows[r][c])).is_some()
}

/// The map that valid level characters stand for, row for row.
pub open spec fn cells_of_chars(rows: Seq<Seq<char>>) -> Seq<Seq<CellState>> {
    rows.map_values(|row: Seq<char>| row.map_values(|c: char| cell_of_char(c).unwrap()))
}

/// The first invalid character in row-major order: its row and column.
pub open spec fn is_first_invalid(rows: Seq<Seq<char>>, r: int, c: int) -> bool {
    &&& 0 <= r < rows.len()
    &&& 0 <= c < rows[r].len()
    &&& cell_of_char(rows[r][c]).is_none()
    &&& forall|r2: int, c2: int|
        0 <= r2 < rows.len() && 0 <= c2 < rows[r2].len() && (r2 < r || (r2 == r && c2 < c))
            ==> (#[trigger] cell_of_char(rows[r2][c2])).is_some()
}

/// A grid of cells, stored row-major. Rows may differ in length: `width` is
/// the length of the longest one, and a column past the end of a shorter row
/// holds no cell.
pub struct CellMap {
    cells: Vec<Vec<CellState>>,
    width: usize,
}

impl View for CellMap {
    type V = Seq<Seq<CellState>>;

    closed spec fn view(&self) -> Seq<Seq<CellState>> {
        self.cells@.map_values(|row: Vec<CellState>| row@)
    }
}

/// The cell at column `col` of row `row`, if that row reaches so far.
pub open spec fn cell_at_spec(rows: Seq<Seq<CellState>>, col: int, row: int) -> Option<CellState> {
    if 0 <= row < rows.len() && 0 <= col < rows[row].len() {
        Some(rows[row][col])
    } else {
        None
    }
}

impl CellMap {
    #[verifier::type_invariant]
    closed spec fn wf(&self) -> bool {
        self.width == max_row_len(self@)
    }

    /// Builds the map from rows of level characters. Fails on the first
    /// character, in row-major order, that is neither `.` nor `#`.
    pub fn from_2d_char_vec(map_chars: Vec<Vec<char>>) -> (r: Result<CellMap, InvalidCellError>)
        ensures
            match r {
                Ok(m) => all_cells_valid(map_chars@.map_values(|row: Vec<char>| row@)) && m@
                    == cells_of_chars(map_chars@.map_values(|row: Vec<char>| row@)),
                Err(e) => is_first_invalid(
                    map_chars@.map_values(|row: Vec<char>| row@),
                    e.row as int,
                    e.column as int,
                ) && e.found == map_chars@[e.row as int]@[e.column as int],
            },
            r matches Ok(m) ==> m@.len() == map_chars@.len() && max_row_len(m@) == max_row_len(
                map_chars@.map_values(|row: Vec<char>| row@),
            ),
    {
        let ghost rows = map_chars@.map_values(|row: Vec<char>| row@);
        let mut cells: Vec<Vec<CellState>> = Vec::new();
        let mut width: usize = 0;
        let mut r: usize = 0;
        while r < map_chars.len()
            invariant
                r <= map_chars.len(),
                rows == map_chars@.map_values(|row: Vec<char>| row@),
                cells@.len() == r,
                forall|i: int| 0 <= i < r ==> (#[trigger] cells@[i])@ == cells_of_chars(rows)[i],
                forall|r2: int, c2: int|
                    0 <= r2 < r && 0 <= c2 < rows[r2].len() ==> (#[trigger] cell_of_char(
                        rows[r2][c2],
                    )).is_some(),
                width == max_row_len(cells@.map_values(|row: Vec<CellState>| row@)),
            decreases map_chars.len() - r,
        {
            let line = &map_chars[r];
            let mut row: Vec<CellState> = Vec::new();
            let mut c: usize = 0;
            while c < line.len()
                invariant
                    r < map_chars.len(),
                    line@ == rows[r as int],
                    rows == map_chars@.map_values(|row: Vec<char>| row@),
                    c <= line.len(),
                    row@.len() == c,
                    forall|j: int| 0 <= j < c ==> row@[j] == cell_of_char(line@[j]).unwrap(),
                    forall|j: int| 0 <= j < c ==> (#[trigger] cell_of_char(line@[j])).is_some(),
                    forall|r2: int, c2: int|
                        0 <= r2 < r && 0 <= c2 < rows[r2].len() ==> (#[trigger] cell_of_char(
                            rows[r2][c2],
                        )).is_some(),
                decreases line.len() - c,
            {
                let ch = line[c];
                if ch == '.' {
                    row.push(CellState::Hallway);
                } else if ch == '#' {
                    row.push(CellState::Wall);
                } else {
                    let e = InvalidCellError { row: r, column: c, found: ch };
                    assert forall|r2: int, c2: int|
                        0 <= r2 < rows.len() && 0 <= c2 < rows[r2].len() && (r2 < r || (r2 == r
                            && c2 < c)) implies (#[trigger] cell_of_char(rows[r2][c2])).is_some() by {
                        if r2 == r {
                            assert(cell_of_char(line@[c2]).is_some());
                        }
                    }
                    assert(is_first_invalid(rows, r as int, c as int));
                    return Err(e);
                }
                c = c + 1;
            }
            let ghost before = cells@.map_values(|row: Vec<CellState>| row@);
            if row.len() > width {
                width = row.len();
            }
            assert(row@ =~= cells_of_chars(rows)[r as int]);
            cells.push(row);
            assert(cells@.map_values(|row: Vec<CellState>| row@).drop_last() =~= before);
            r = r + 1;
        }
        assert(all_cells_valid(rows));
        let m = CellMap { cells, width };
        assert(m@ =~= cells_of_chars(rows));
        proof {
            lemma_built_size(rows);
        }
        Ok(m)
    }

    /// The number of rows.
    pub fn height(&self) -> (r: usize)
        ensures
            r == self@.len(),
    {
        self.cells.len()
    }

    /// The length of the longest row.
    pub fn width(&self) -> (r: usize)
        ensures
            r == max_row_len(self@),
    {
        proof {
            use_type_invariant(self);
        }
        self.width
    }

    /// The cell at column `col` of row `row`, or `None` where no cell stands
    /// there (past the last row, or past the end of a short row).
    pub fn cell_at(&self, col: usize, row: usize) -> (r: Option<CellState>)
        ensures
            r == cell_at_spec(self@, col as int, row as int),
    {
        if row < self.cells.len() && col < self.cells[row].len() {
            Some(self.cells[row][col])
        } else {
            None
        }
    }
}

} // verus!
