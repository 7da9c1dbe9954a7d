use vstd::prelude::*;
use crate::grid::{CellMap, InvalidCellError, all_cells_valid, cells_of_chars, is_first_invalid};

verus! {

/// The line separator of a level text.
#[derive(Debug, Clone, Copy, PartialEq, Eq, Structural)]
pub enum LineBreak {
    /// `\r\n`
    CrLf,
    /// `\n`
    Lf,
    /// `\r`
    Cr,
    /// No separator: the text is a single line.
    Unbroken,
}

/// The text holds `\r` directly followed by `\n`.
pub open spec fn has_crlf(s: Seq<char>) -> bool {
    exists|j: int| 0 <= j && j + 1 < s.len() && #[trigger] s[j] == '\r' && s[j + 1] == '\n'
}

/// The separator a text is split on: `\r\n` if it occurs, else `\n` if it
/// occurs, else `\r` if it occurs; a text with none of them is one line.
pub open spec fn line_break_of(s: Seq<char>) -> LineBreak {
    if has_crlf(s) {
        LineBreak::CrLf
    } else if s.contains('\n') {
        LineBreak::Lf
    } else if s.contains('\r') {
        LineBreak::Cr
    } else {
        LineBreak::Unbroken
    }
}

/// The number of characters a separator takes.
pub open spec fn break_len(lb: LineBreak) -> int {
    match lb {
        LineBreak::CrLf => 2,
        LineBreak::Lf => 1,
        LineBreak::Cr => 1,
        LineBreak::Unbroken => 0,
    }
}

/// The text ends with the separator.
pub open spec fn ends_with_break(s: Seq<char>, lb: LineBreak) -> bool {
    match lb {
        LineBreak::CrLf => s.len() >= 2 && s[s.len() - 2] == '\r' && s[s.len() - 1] == '\n',
        LineBreak::Lf => s.len() >= 1 && s[s.len() - 1] == '\n',
        LineBreak::Cr => s.len() >= 1 && s[s.len() - 1] == '\r',
        LineBreak::Unbroken => false,
    }
}

/// The lines of `s`, cut at each separator `lb`. There is always at least
/// one line, and a separator at the very end leaves an empty last line.
pub open spec fn split_lines(s: Seq<char>, lb: LineBreak) -> Seq<Seq<char>>
    decreases s.len(),
{
    if ends_with_break(s, lb) {
        split_lines(s.subrange(0, s.len() - break_len(lb)), lb).push(Seq::empty())
    } else if s.len() == 0 {
        seq![Seq::empty()]
    } else {
        let p = split_lines(s.drop_last(), lb);
        p.update(p.len() - 1, p.last().push(s.last()))
    }
}

/// The lines of a level text, cut at the separator that the text uses.
pub open spec fn level_lines(s: Seq<char>) -> Seq<Seq<char>> {
    split_lines(s, line_break_of(s))
}

proof fn lemma_split_nonempty(s: Seq<char>, lb: LineBreak)
    ensures
        split_lines(s, lb).len() >= 1,
    decreases s.len(),
{
    if ends_with_break(s, lb) {
        lemma_split_nonempty(s.subrange(0, s.len() - break_len(lb)), lb);
    } else if s.len() > 0 {
        lemma_split_nonempty(s.drop_last(), lb);
    }
}

/// The characters of a separator.
pub open spec fn break_chars(lb: LineBreak) -> Seq<char> {
    match lb {
        LineBreak::CrLf => seq!['\r', '\n'],
        LineBreak::Lf => seq!['\n'],
        LineBreak::Cr => seq!['\r'],
        LineBreak::Unbroken => Seq::empty(),
    }
}

/// The lines written one after another with `sep` between each two.
pub open spec fn join_lines(rows: Seq<Seq<char>>, sep: Seq<char>) -> Seq<char>
    decreases rows.len(),
{
    if rows.len() == 0 {
        Seq::empty()
    } else if rows.len() == 1 {
        rows[0]
    } else {
        join_lines(rows.drop_last(), sep) + sep + rows.last()
    }
}

/// No line holds `\r` or `\n`.
pub open spec fn free_of_breaks(rows: Seq<Seq<char>>) -> bool {
    forall|i: int, j: int|
        0 <= i < rows.len() && 0 <= j < rows[i].len() ==> #[trigger] rows[i][j] != '\r' && rows[i][j]
            != '\n'
}

proof fn lemma_split_append(p: Seq<char>, w: Seq<char>, lb: LineBreak)
    requires
        forall|j: int| 0 <= j < w.len() ==> #[trigger] w[j] != '\r' && w[j] != '\n',
    ensures
        ({
            let s = split_lines(p, lb);
            split_lines(p + w, lb) == s.update(s.len() - 1, s.last() + w)
        }),
    decreases w.len(),
{
    lemma_split_nonempty(p, lb);
    let s = split_lines(p, lb);
    if w.len() == 0 {
        assert(p + w =~= p);
        assert(s.update(s.len() - 1, s.last() + w) =~= s);
    } else {
        let v = w.drop_last();
        let c = w.last();
        assert forall|j: int| 0 <= j < v.len() implies #[trigger] v[j] != '\r' && v[j] != '\n' by {
            assert(v[j] == w[j]);
        }
        lemma_split_append(p, v, lb);
        let q = p + v;
        assert(p + w =~= q.push(c));
        assert(q.push(c).drop_last() =~= q);
        assert(!ends_with_break(q.push(c), lb));
        lemma_split_nonempty(q, lb);
        let pp = split_lines(q, lb);
        assert(pp == s.update(s.len() - 1, s.last() + v));
        assert(pp.len() == s.len());
        assert(pp.last() == s.last() + v);
        assert(split_lines(q.push(c), lb) == pp.update(pp.len() - 1, pp.last().push(c)));
        assert((s.last() + v).push(c) =~= s.last() + w);
        assert(split_lines(q.push(c), lb) =~= s.update(s.len() - 1, s.last() + w));
    }
}

proof fn lemma_split_join(rows: Seq<Seq<char>>, lb: LineBreak)
    requires
        free_of_breaks(rows),
        rows.len() >= 1,
        lb == LineBreak::CrLf || lb == LineBreak::Lf,
    ensures
        split_lines(join_lines(rows, break_chars(lb)), lb) == rows,
    decreases rows.len(),
{
    let sep = break_chars(lb);
    let last = rows.last();
    assert forall|j: int| 0 <= j < last.len() implies #[trigger] last[j] != '\r' && last[j] != '\n' by {
        assert(rows[rows.len() - 1][j] == last[j]);
    }
    if rows.len() == 1 {
        let e = Seq::<char>::empty();
        assert(split_lines(e, lb) == seq![e]);
        lemma_split_append(e, last, lb);
        assert(e + last =~= last);
        assert(seq![e].update(0, e + last) =~= rows);
    } else {
        let init = rows.drop_last();
        assert(free_of_breaks(init)) by {
            assert forall|i: int, j: int| 0 <= i < init.len() && 0 <= j < init[i].len() implies #[trigger] init[i][j]
                != '\r' && init[i][j] != '\n' by {
                assert(init[i] == rows[i]);
            }
        }
        lemma_split_join(init, lb);
        let p = join_lines(init, sep) + sep;
        assert(ends_with_break(p, lb));
        assert(p.subrange(0, p.len() - break_len(lb)) =~= join_lines(init, sep));
        assert(split_lines(p, lb) == init.push(Seq::<char>::empty()));
        lemma_split_append(p, last, lb);
        assert(join_lines(rows, sep) == p + last);
        assert(Seq::<char>::empty() + last =~= last);
        assert(init.push(Seq::<char>::empty()).update(init.len() as int, Seq::<char>::empty() + last) =~= rows);
    }
}

proof fn lemma_lf_join_has_no_cr(rows: Seq<Seq<char>>)
    requires
        free_of_breaks(rows),
    ensures
        !join_lines(rows, seq!['\n']).contains('\r'),
    decreases rows.len(),
{
    let t = join_lines(rows, seq!['\n']);
    if rows.len() == 1 {
        if t.contains('\r') {
            let k = choose|k: int| 0 <= k < t.len() && t[k] == '\r';
            assert(rows[0][k] == '\r');
        }
    } else if rows.len() > 1 {
        let init = rows.drop_last();
        assert(free_of_breaks(init)) by {
            assert forall|i: int, j: int| 0 <= i < init.len() && 0 <= j < init[i].len() implies #[trigger] init[i][j]
                != '\r' && init[i][j] != '\n' by {
                assert(init[i] == rows[i]);
            }
        }
        lemma_lf_join_has_no_cr(init);
        let a = join_lines(init, seq!['\n']);
        if t.contains('\r') {
            let k = choose|k: int| 0 <= k < t.len() && t[k] == '\r';
            if k < a.len() {
                assert(t[k] == a[k]);
            } else if k > a.len() {
                assert(t[k] == rows[rows.len() - 1][k - a.len() - 1]);
            }
        }
    }
}

/// A level written with `\r\n` line ends cuts into the same lines as the
/// same level written with `\n`: the lines themselves, where none of them
/// holds a line-end character.
pub proof fn lemma_crlf_same_as_lf(rows: Seq<Seq<char>>)
    requires
        free_of_breaks(rows),
    ensures
        level_lines(join_lines(rows, seq!['\r', '\n'])) == level_lines(join_lines(rows, seq!['\n'])),
        rows.len() >= 1 ==> level_lines(join_lines(rows, seq!['\n'])) == rows,
{
    if rows.len() >= 2 {
        let a = join_lines(rows.drop_last(), seq!['\r', '\n']);
        let t = join_lines(rows, seq!['\r', '\n']);
        assert(t[a.len() as int] == '\r' && t[a.len() as int + 1] == '\n');
        assert(has_crlf(t));
        lemma_split_join(rows, LineBreak::CrLf);
        let b = join_lines(rows.drop_last(), seq!['\n']);
        let u = join_lines(rows, seq!['\n']);
        assert(u[b.len() as int] == '\n');
        lemma_lf_join_has_no_cr(rows);
        assert(!has_crlf(u)) by {
            if has_crlf(u) {
                let j = choose|j: int| 0 <= j && j + 1 < u.len() && #[trigger] u[j] == '\r' && u[j + 1] == '\n';
                assert(u.contains('\r'));
            }
        }
        lemma_split_join(rows, LineBreak::Lf);
    } else if rows.len() == 1 {
        lemma_lf_join_has_no_cr(rows);
        let u = rows[0];
        assert(!u.contains('\n')) by {
            if u.contains('\n') {
                let k = choose|k: int| 0 <= k < u.len() && u[k] == '\n';
                assert(rows[0][k] == '\n');
            }
        }
        assert(!has_crlf(u)) by {
            if has_crlf(u) {
                let j = choose|j: int| 0 <= j && j + 1 < u.len() && #[trigger] u[j] == '\r' && u[j + 1] == '\n';
                assert(u.contains('\r'));
            }
        }
        let e = Seq::<char>::empty();
        assert(split_lines(e, LineBreak::Unbroken) == seq![e]);
        assert forall|j: int| 0 <= j < u.len() implies #[trigger] u[j] != '\r' && u[j] != '\n' by {
            assert(rows[0][j] == u[j]);
        }
        lemma_split_append(e, u, LineBreak::Unbroken);
        assert(e + u =~= u);
        assert(seq![e].update(0, e + u) =~= rows);
    }
}

/// Finds which separator a level text uses.
pub fn detect_line_break(text: &Vec<char>) -> (r: LineBreak)
    ensures
        r == line_break_of(text@),
{
    let mut lf = false;
    let mut cr = false;
    let mut i: usize = 0;
    while i < text.len()
        invariant
            i <= text.len(),
            forall|j: int| 0 <= j < i && j + 1 < text.len() ==> !(#[trigger] text@[j] == '\r' && text@[j + 1] == '\n'),
            lf == text@.subrange(0, i as int).contains('\n'),
            cr == text@.subrange(0, i as int).contains('\r'),
        decreases text.len() - i,
    {
        let c = text[i];
        if c == '\r' && i + 1 < text.len() && text[i + 1] == '\n' {
            assert(has_crlf(text@));
            return LineBreak::CrLf;
        }
        if c == '\n' {
            lf = true;
        }
        if c == '\r' {
            cr = true;
        }
        proof {
            let a = text@.subrange(0, i as int);
            let b = text@.subrange(0, i + 1);
            assert(b == a.push(c));
            if a.contains('\n') {
                let k = choose|k: int| 0 <= k < a.len() && a[k] == '\n';
                assert(b[k] == '\n');
            }
            if a.contains('\r') {
                let k = choose|k: int| 0 <= k < a.len() && a[k] == '\r';
                assert(b[k] == '\r');
            }
            if b.contains('\n') && c != '\n' {
                let k = choose|k: int| 0 <= k < b.len() && b[k] == '\n';
                assert(a[k] == '\n');
            }
            if b.contains('\r') && c != '\r' {
                let k = choose|k: int| 0 <= k < b.len() && b[k] == '\r';
                assert(a[k] == '\r');
            }
            if c == '\n' {
                assert(b[i as int] == '\n');
            }
            if c == '\r' {
                assert(b[i as int] == '\r');
            }
        }
        i = i + 1;
    }
    assert(text@.subrange(0, i as int) == text@);
    if lf {
        LineBreak::Lf
    } else if cr {
        LineBreak::Cr
    } else {
        LineBreak::Unbroken
    }
}

/// Cuts a level text into its lines at the separator it uses.
pub fn split_level_text(text: &Vec<char>) -> (r: Vec<Vec<char>>)
    ensures
        r@.map_values(|row: Vec<char>| row@) == level_lines(text@),
{
    let lb = detect_line_break(text);
    let ghost s = text@;
    let mut rows: Vec<Vec<char>> = Vec::new();
    let mut cur: Vec<char> = Vec::new();
    let mut i: usize = 0;
    proof {
        assert(s.subrange(0, 0) =~= Seq::<char>::empty());
        assert(rows@.map_values(|row: Vec<char>| row@).push(cur@) =~= split_lines(s.subrange(0, 0), lb));
    }
    while i < text.len()
        invariant
            s == text@,
            lb == line_break_of(s),
            i <= text.len(),
            rows@.map_values(|row: Vec<char>| row@).push(cur@) == split_lines(s.subrange(0, i as int), lb),
            lb == LineBreak::CrLf && 0 < i < s.len() && s[i - 1] == '\r' ==> s[i as int] != '\n',
        decreases text.len() - i,
    {
        let ghost pre = s.subrange(0, i as int);
        let ghost before = rows@.map_values(|row: Vec<char>| row@);
        let c = text[i];
        let is_break = match lb {
            LineBreak::CrLf => c == '\r' && i + 1 < text.len() && text[i + 1] == '\n',
            LineBreak::Lf => c == '\n',
            LineBreak::Cr => c == '\r',
            LineBreak::Unbroken => false,
        };
        if is_break {
            let step: usize = if lb == LineBreak::CrLf { 2 } else { 1 };
            rows.push(cur);
            cur = Vec::new();
            proof {
                let post = s.subrange(0, i + step);
                assert(ends_with_break(post, lb));
                assert(post.subrange(0, post.len() - break_len(lb)) =~= pre);
                assert(rows@.map_values(|row: Vec<char>| row@) =~= before.push(
                    split_lines(pre, lb).last(),
                ));
                lemma_split_nonempty(pre, lb);
                assert(before.push(split_lines(pre, lb).last()) =~= split_lines(pre, lb));
                assert(rows@.map_values(|row: Vec<char>| row@).push(cur@) =~= split_lines(post, lb));
            }
            i = i + step;
        } else {
            cur.push(c);
            proof {
                let post = s.subrange(0, i + 1);
                assert(post.drop_last() =~= pre);
                assert(!ends_with_break(post, lb)) by {
                    if lb == LineBreak::CrLf && i > 0 {
                        assert(post[i - 1] == s[i - 1]);
                    }
                }
                assert(rows@.map_values(|row: Vec<char>| row@).push(cur@) =~= split_lines(post, lb));
            }
            i = i + 1;
        }
    }
    rows.push(cur);
    assert(s.subrange(0, i as int) =~= s);
    rows
}

/// Parses a level text into its map: lines as `split_level_text` cuts them,
/// `.` a hallway and `#` a wall.
pub fn parse_level(text: &Vec<char>) -> (r: Result<CellMap, InvalidCellError>)
    ensures
        match r {
            Ok(m) => all_cells_valid(level_lines(text@)) && m@ == cells_of_chars(level_lines(text@)),
            Err(e) => is_first_invalid(level_lines(text@), e.row as int, e.column as int)
                && e.found == level_lines(text@)[e.row as int][e.column as int],
        },
{
    let rows = split_level_text(text);
    let ghost lines = rows@.map_values(|row: Vec<char>| row@);
    let r = CellMap::from_2d_char_vec(rows);
    proof {
        if let Err(e) = r {
            assert(lines[e.row as int] == rows@[e.row as int]@);
        }
    }
    r
}

} // verus!
