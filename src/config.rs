use vstd::prelude::*;
use vstd::string::{StrSliceExecFns, StringExecFns};

verus! {

/// The side of a tile in pixels when no `-c` / `--cellsize` is given.
pub const DEFAULT_CELL_SIZE: u32 = 100;

/// The movement speed in hundredths of a pixel per tick when no `-s` /
/// `--speed` is given: five pixels.
pub const DEFAULT_SPEED: u32 = 500;

/// The level read when no path is given.
pub const DEFAULT_LEVEL_PATH: &'static str = "resources/default_map.lvl";

/// What the command line asks for.
#[derive(Debug, PartialEq, Eq)]
pub struct LaunchOptions {
    pub level_path: String,
    /// The side of a tile, in pixels.
    pub cell_size: u32,
    /// The distance moved per tick, in hundredths of a pixel.
    pub speed: u32,
}

/// Why the command line cannot be used.
#[derive(Debug, Clone, Copy, PartialEq, Eq, Structural)]
pub enum ConfigError {
    /// The level path does not end in `.lvl`.
    BadExtension,
    /// `-c` / `--cellsize` is the last argument.
    MissingCellSize,
    /// The cell size is not a whole number that fits 32 bits.
    BadCellSize,
    /// `-s` / `--speed` is the last argument.
    MissingSpeed,
    /// The speed is not a number with at most two decimals, or is too large.
    BadSpeed,
}

/// A character's ASCII lower case, as a code point.
pub open spec fn ascii_lower(c: char) -> u32 {
    if 'A' <= c && c <= 'Z' {
        (c as u32 + 32) as u32
    } else {
        c as u32
    }
}

/// Two texts equal but for the case of ASCII letters.
pub open spec fn eq_ignore_case(a: Seq<char>, b: Seq<char>) -> bool {
    a.len() == b.len() && forall|i: int| 0 <= i < a.len() ==> #[trigger] ascii_lower(a[i]) == ascii_lower(b[i])
}

/// Compares two texts ignoring the case of ASCII letters.
pub fn eq_ignore_ascii_case(a: &str, b: &str) -> (r: bool)
    ensures
        r == eq_ignore_case(a@, b@),
{
    let n = a.unicode_len();
    if n != b.unicode_len() {
        return false;
    }
    let mut i: usize = 0;
    while i < n
        invariant
            n == a@.len() == b@.len(),
            i <= n,
            forall|j: int| 0 <= j < i ==> #[trigger] ascii_lower(a@[j]) == ascii_lower(b@[j]),
        decreases n - i,
    {
        let x = a.get_char(i);
        let y = b.get_char(i);
        let lx: u32 = if 'A' <= x && x <= 'Z' {
            x as u32 + 32
        } else {
            x as u32
        };
        let ly: u32 = if 'A' <= y && y <= 'Z' {
            y as u32 + 32
        } else {
            y as u32
        };
        if lx != ly {
            assert(ascii_lower(a@[i as int]) != ascii_lower(b@[i as int]));
            return false;
        }
        i = i + 1;
    }
    true
}

/// The arguments as texts.
pub open spec fn texts(args: Seq<String>) -> Seq<Seq<char>> {
    args.map_values(|s: String| s@)
}

/// `a` names the option, in its short or long form.
pub open spec fn is_flag(a: Seq<char>, short: Seq<char>, long: Seq<char>) -> bool {
    eq_ignore_case(a, short) || eq_ignore_case(a, long)
}

/// `i` is the first argument that names the option.
pub open spec fn is_first_flag(args: Seq<Seq<char>>, short: Seq<char>, long: Seq<char>, i: int) -> bool {
    &&& 0 <= i < args.len()
    &&& is_flag(args[i], short, long)
    &&& forall|j: int| 0 <= j < i ==> !is_flag(#[trigger] args[j], short, long)
}

/// No argument names the option.
pub open spec fn has_no_flag(args: Seq<Seq<char>>, short: Seq<char>, long: Seq<char>) -> bool {
    forall|j: int| 0 <= j < args.len() ==> !is_flag(#[trigger] args[j], short, long)
}

/// Finds the first argument that names an option.
pub fn find_flag(args: &Vec<String>, short: &str, long: &str) -> (r: Option<usize>)
    ensures
        match r {
            Some(i) => is_first_flag(texts(args@), short@, long@, i as int),
            None => has_no_flag(texts(args@), short@, long@),
        },
{
    let mut i: usize = 0;
    while i < args.len()
        invariant
            i <= args.len(),
            forall|j: int| 0 <= j < i ==> !is_flag(#[trigger] texts(args@)[j], short@, long@),
        decreases args.len() - i,
    {
        let a = args[i].as_str();
        if eq_ignore_ascii_case(a, short) || eq_ignore_ascii_case(a, long) {
            return Some(i);
        }
        i = i + 1;
    }
    None
}

/// A decimal digit.
pub open spec fn is_digit(c: char) -> bool {
    '0' <= c && c <= '9'
}

/// Every character is a decimal digit.
pub open spec fn all_digits(s: Seq<char>) -> bool {
    forall|i: int| 0 <= i < s.len() ==> is_digit(#[trigger] s[i])
}

/// The number that a run of decimal digits writes.
pub open spec fn decimal_value(s: Seq<char>) -> int
    decreases s.len(),
{
    if s.len() == 0 {
        0
    } else {
        decimal_value(s.drop_last()) * 10 + (s.last() as int - '0' as int)
    }
}

/// The text without one leading `+`.
pub open spec fn unsigned_part(s: Seq<char>) -> Seq<char> {
    if s.len() > 0 && s[0] == '+' {
        s.drop_first()
    } else {
        s
    }
}

/// The cell size a text writes: an optional `+` and one or more decimal
/// digits, of a value that fits 32 bits.
pub open spec fn cell_size_of(s: Seq<char>) -> Option<int> {
    let d = unsigned_part(s);
    if d.len() > 0 && all_digits(d) && decimal_value(d) <= u32::MAX {
        Some(decimal_value(d))
    } else {
        None
    }
}

/// The speed a text writes, in hundredths: an optional `+`, then digits
/// with at most two decimals after a `.` (`5`, `5.`, `2.5`, `.25`, `0.125`
/// is refused), with at least one digit, of a value that fits 32 bits.
pub open spec fn speed_of(s: Seq<char>) -> Option<int> {
    let d = unsigned_part(s);
    let n = d.len();
    let v = if n > 0 && all_digits(d) {
        Some(decimal_value(d) * 100)
    } else if n >= 2 && d[n - 1] == '.' && all_digits(d.take(n - 1)) {
        Some(decimal_value(d.take(n - 1)) * 100)
    } else if n >= 2 && d[n - 2] == '.' && all_digits(d.take(n - 2)) && is_digit(d[n - 1]) {
        Some(decimal_value(d.take(n - 2)) * 100 + decimal_value(d.skip(n - 1)) * 10)
    } else if n >= 3 && d[n - 3] == '.' && all_digits(d.take(n - 3)) && all_digits(d.skip(n - 2)) {
        Some(decimal_value(d.take(n - 3)) * 100 + decimal_value(d.skip(n - 2)))
    } else {
        None
    };
    match v {
        Some(x) => if x <= u32::MAX {
            Some(x)
        } else {
            None
        },
        None => None,
    }
}

proof fn lemma_decimal_nonneg(s: Seq<char>)
    requires
        all_digits(s),
    ensures
        decimal_value(s) >= 0,
    decreases s.len(),
{
    if s.len() > 0 {
        assert(all_digits(s.drop_last())) by {
            assert forall|i: int| 0 <= i < s.drop_last().len() implies is_digit(#[trigger] s.drop_last()[i]) by {
                assert(s.drop_last()[i] == s[i]);
            }
        }
        lemma_decimal_nonneg(s.drop_last());
        assert(is_digit(s[s.len() - 1]));
    }
}

/// Reads the decimal digits of `s[from..to]`. `None` where one is not a
/// digit or the value exceeds `limit`.
fn digits_value(s: &Vec<char>, from: usize, to: usize, limit: u64) -> (r: Option<u64>)
    requires
        from <= to <= s@.len(),
        limit <= u32::MAX,
    ensures
        ({
            let t = s@.subrange(from as int, to as int);
            match r {
                Some(v) => all_digits(t) && v == decimal_value(t) && v <= limit,
                None => !all_digits(t) || decimal_value(t) > limit,
            }
        }),
{
    let mut v: u64 = 0;
    let mut i: usize = from;
    while i < to
        invariant
            from <= i <= to <= s@.len(),
            limit <= u32::MAX,
            all_digits(s@.subrange(from as int, i as int)),
            v == decimal_value(s@.subrange(from as int, i as int)),
            v <= limit,
        decreases to - i,
    {
        let c = s[i];
        let ghost pre = s@.subrange(from as int, i as int);
        let ghost post = s@.subrange(from as int, i + 1);
        assert(post.drop_last() =~= pre);
        if !('0' <= c && c <= '9') {
            assert(post[post.len() - 1] == c);
            assert(!all_digits(s@.subrange(from as int, to as int))) by {
                assert(s@.subrange(from as int, to as int)[i - from] == c);
            }
            return None;
        }
        let d = (c as u32 - '0' as u32) as u64;
        let next = v * 10 + d;
        assert forall|j: int| 0 <= j < post.len() implies is_digit(#[trigger] post[j]) by {
            if j < pre.len() {
                assert(post[j] == pre[j]);
            }
        }
        if next > limit {
            proof {
                lemma_rest_not_smaller(s@, from as int, i + 1, to as int);
            }
            return None;
        }
        v = next;
        i = i + 1;
    }
    Some(v)
}

proof fn lemma_rest_not_smaller(s: Seq<char>, from: int, mid: int, to: int)
    requires
        0 <= from <= mid <= to <= s.len(),
        all_digits(s.subrange(from, mid)),
    ensures
        all_digits(s.subrange(from, to)) ==> decimal_value(s.subrange(from, to)) >= decimal_value(
            s.subrange(from, mid),
        ),
    decreases to - mid,
{
    if mid < to && all_digits(s.subrange(from, to)) {
        let a = s.subrange(from, to - 1);
        assert(s.subrange(from, to).drop_last() =~= a);
        assert(all_digits(a)) by {
            assert forall|i: int| 0 <= i < a.len() implies is_digit(#[trigger] a[i]) by {
                assert(a[i] == s.subrange(from, to)[i]);
            }
        }
        lemma_rest_not_smaller(s, from, mid, to - 1);
        lemma_decimal_nonneg(a);
        assert(is_digit(s.subrange(from, to)[to - 1 - from]));
    }
}

/// The characters of a text.
fn chars_of(s: &str) -> (r: Vec<char>)
    ensures
        r@ == s@,
{
    let n = s.unicode_len();
    let mut r: Vec<char> = Vec::new();
    let mut i: usize = 0;
    while i < n
        invariant
            n == s@.len(),
            i <= n,
            r@ == s@.take(i as int),
        decreases n - i,
    {
        let c = s.get_char(i);
        r.push(c);
        assert(s@.take(i + 1) =~= s@.take(i as int).push(c));
        i = i + 1;
    }
    assert(s@.take(n as int) =~= s@);
    r
}

/// Whether every character of `s[from..to]` is a decimal digit.
fn all_digits_in(s: &Vec<char>, from: usize, to: usize) -> (r: bool)
    requires
        from <= to <= s@.len(),
    ensures
        r == all_digits(s@.subrange(from as int, to as int)),
{
    let mut i: usize = from;
    while i < to
        invariant
            from <= i <= to <= s@.len(),
            all_digits(s@.subrange(from as int, i as int)),
        decreases to - i,
    {
        let c = s[i];
        if !('0' <= c && c <= '9') {
            assert(s@.subrange(from as int, to as int)[i - from] == c);
            return false;
        }
        assert forall|j: int| 0 <= j < i + 1 - from implies is_digit(#[trigger] s@.subrange(from as int, i + 1)[j]) by {
            if j < i - from {
                assert(s@.subrange(from as int, i + 1)[j] == s@.subrange(from as int, i as int)[j]);
            }
        }
        i = i + 1;
    }
    true
}

/// Where the digits of a number start: past one leading `+`.
fn unsigned_start(c: &Vec<char>) -> (r: usize)
    ensures
        r <= c@.len(),
        c@.subrange(r as int, c@.len() as int) == unsigned_part(c@),
{
    if c.len() > 0 && c[0] == '+' {
        assert(c@.subrange(1, c@.len() as int) =~= c@.drop_first());
        1
    } else {
        assert(c@.subrange(0, c@.len() as int) =~= c@);
        0
    }
}

/// Reads a cell size as `cell_size_of` says.
pub fn parse_cell_size(text: &str) -> (r: Option<u32>)
    ensures
        match r {
            Some(v) => cell_size_of(text@) == Some(v as int),
            None => cell_size_of(text@) is None,
        },
{
    let c = chars_of(text);
    let st = unsigned_start(&c);
    if st == c.len() {
        return None;
    }
    match digits_value(&c, st, c.len(), 0xffff_ffff) {
        Some(v) => Some(v as u32),
        None => None,
    }
}

/// Reads a speed in hundredths as `speed_of` says.
pub fn parse_speed(text: &str) -> (r: Option<u32>)
    ensures
        match r {
            Some(v) => speed_of(text@) == Some(v as int),
            None => speed_of(text@) is None,
        },
{
    let c = chars_of(text);
    let st = unsigned_start(&c);
    let n = c.len();
    let ghost d = unsigned_part(c@);
    let m = n - st;
    proof {
        if m >= 1 {
            assert(d.take(m - 1) =~= c@.subrange(st as int, n - 1));
            assert(d.skip(m - 1) =~= c@.subrange(n - 1, n as int));
        }
        if m >= 2 {
            assert(d.take(m - 2) =~= c@.subrange(st as int, n - 2));
            assert(d.skip(m - 2) =~= c@.subrange(n - 2, n as int));
        }
        if m >= 3 {
            assert(d.take(m - 3) =~= c@.subrange(st as int, n - 3));
        }
    }
    let whole = if m > 0 {
        all_digits_in(&c, st, n)
    } else {
        false
    };
    if whole {
        return match digits_value(&c, st, n, 42949672) {
            Some(v) => Some((v * 100) as u32),
            None => None,
        };
    }
    if m >= 2 && c[n - 1] == '.' && all_digits_in(&c, st, n - 1) {
        return match digits_value(&c, st, n - 1, 42949672) {
            Some(v) => Some((v * 100) as u32),
            None => None,
        };
    }
    if m >= 2 && c[n - 2] == '.' && all_digits_in(&c, st, n - 2) && '0' <= c[n - 1] && c[n - 1] <= '9' {
        let f = digits_value(&c, n - 1, n, 9);
        proof {
            let t = c@.subrange(n - 1, n as int);
            assert(t.drop_last() =~= Seq::<char>::empty());
            assert(decimal_value(Seq::<char>::empty()) == 0);
            assert(t[0] == c@[n - 1]);
            assert(decimal_value(t) == t[0] as int - '0' as int);
            assert(all_digits(t));
        }
        return match digits_value(&c, st, n - 2, 42949672) {
            Some(v) => {
                let t = v * 100 + f.unwrap() * 10;
                if t <= 0xffff_ffff {
                    Some(t as u32)
                } else {
                    None
                }
            },
            None => None,
        };
    }
    if m >= 3 && c[n - 3] == '.' && all_digits_in(&c, st, n - 3) && all_digits_in(&c, n - 2, n) {
        let f = digits_value(&c, n - 2, n, 99);
        proof {
            let t = c@.subrange(n - 2, n as int);
            assert(t.drop_last() =~= c@.subrange(n - 2, n - 1));
            assert(c@.subrange(n - 2, n - 1).drop_last() =~= Seq::<char>::empty());
            let u = c@.subrange(n - 2, n - 1);
            assert(u.drop_last() =~= Seq::<char>::empty());
            assert(decimal_value(Seq::<char>::empty()) == 0);
            assert(is_digit(t[0]) && is_digit(t[1]));
            assert(u[0] == t[0]);
            assert(decimal_value(u) == u[0] as int - '0' as int);
            assert(decimal_value(t) == decimal_value(u) * 10 + (t[1] as int - '0' as int));
        }
        return match digits_value(&c, st, n - 3, 42949672) {
            Some(v) => {
                let t = v * 100 + f.unwrap();
                if t <= 0xffff_ffff {
                    Some(t as u32)
                } else {
                    None
                }
            },
            None => None,
        };
    }
    None
}

/// The path names a level file: the part after its last `.` (the whole path
/// where it has none) is `lvl`.
pub open spec fn has_level_extension_spec(p: Seq<char>) -> bool {
    let n = p.len();
    &&& n >= 3
    &&& p[n - 3] == 'l' && p[n - 2] == 'v' && p[n - 1] == 'l'
    &&& (n == 3 || p[n - 4] == '.')
}

/// Whether the path names a level file, as `has_level_extension_spec` says.
pub fn has_level_extension(path: &str) -> (r: bool)
    ensures
        r == has_level_extension_spec(path@),
{
    let c = chars_of(path);
    let n = c.len();
    if n < 3 {
        return false;
    }
    if !(c[n - 3] == 'l' && c[n - 2] == 'v' && c[n - 1] == 'l') {
        return false;
    }
    n == 3 || c[n - 4] == '.'
}

/// The argument is not an option: it does not begin with `-`.
pub open spec fn is_positional(a: Seq<char>) -> bool {
    !(a.len() > 0 && a[0] == '-')
}

/// The level path: the first argument after the program name where there
/// is one and it is not an option, else the default level.
pub open spec fn level_path_spec(args: Seq<Seq<char>>) -> Seq<char> {
    if args.len() > 1 && is_positional(args[1]) {
        args[1]
    } else {
        DEFAULT_LEVEL_PATH@
    }
}

/// Picks the level path as `level_path_spec` says.
pub fn level_path(args: &Vec<String>) -> (r: String)
    ensures
        r@ == level_path_spec(texts(args@)),
{
    if args.len() > 1 {
        let a = args[1].as_str();
        let positional = if a.unicode_len() > 0 {
            a.get_char(0) != '-'
        } else {
            true
        };
        if positional {
            return args[1].clone();
        }
    }
    String::from_str(DEFAULT_LEVEL_PATH)
}

/// The value an option is given: `Some(None)` where no argument names it,
/// `Some(Some(v))` with `v` the argument after the first one that names it,
/// and `None` where that one is the last argument.
pub open spec fn option_text(args: Seq<Seq<char>>, short: Seq<char>, long: Seq<char>) -> Option<
    Option<Seq<char>>,
> {
    if has_no_flag(args, short, long) {
        Some(None)
    } else {
        let i = choose|i: int| is_first_flag(args, short, long, i);
        if i + 1 < args.len() {
            Some(Some(args[i + 1]))
        } else {
            None
        }
    }
}

/// Finds the argument that gives an option its value, as `option_text` says.
fn option_index(args: &Vec<String>, short: &str, long: &str) -> (r: Option<Option<usize>>)
    ensures
        match r {
            None => option_text(texts(args@), short@, long@) is None,
            Some(None) => option_text(texts(args@), short@, long@) == Some(None::<Seq<char>>),
            Some(Some(j)) => j < args@.len() && option_text(texts(args@), short@, long@) == Some(
                Some(texts(args@)[j as int]),
            ),
        },
{
    match find_flag(args, short, long) {
        None => Some(None),
        Some(i) => {
            let ghost t = texts(args@);
            proof {
                let k = choose|k: int| is_first_flag(t, short@, long@, k);
                if k < i {
                    assert(!is_flag(t[k], short@, long@));
                }
                if i < k {
                    assert(!is_flag(t[i as int], short@, long@));
                }
                assert(k == i);
            }
            if i < args.len() - 1 {
                Some(Some(i + 1))
            } else {
                None
            }
        },
    }
}

/// What a command line asks for: the level path, the cell size in pixels
/// and the speed in hundredths of a pixel per tick, or the first thing wrong
/// with it, checked in that order.
pub open spec fn launch_spec(args: Seq<Seq<char>>) -> Result<(Seq<char>, int, int), ConfigError> {
    let path = level_path_spec(args);
    if !has_level_extension_spec(path) {
        Err(ConfigError::BadExtension)
    } else {
        match option_text(args, "-c"@, "--cellsize"@) {
            None => Err(ConfigError::MissingCellSize),
            Some(c) => {
                let cell_size = match c {
                    None => Some(DEFAULT_CELL_SIZE as int),
                    Some(t) => cell_size_of(t),
                };
                match cell_size {
                    None => Err(ConfigError::BadCellSize),
                    Some(cs) => match option_text(args, "-s"@, "--speed"@) {
                        None => Err(ConfigError::MissingSpeed),
                        Some(v) => {
                            let speed = match v {
                                None => Some(DEFAULT_SPEED as int),
                                Some(t) => speed_of(t),
                            };
                            match speed {
                                None => Err(ConfigError::BadSpeed),
                                Some(sp) => Ok((path, cs, sp)),
                            }
                        },
                    },
                }
            },
        }
    }
}

/// Reads the command line (program name first) as `launch_spec` says.
pub fn launch_options(args: &Vec<String>) -> (r: Result<LaunchOptions, ConfigError>)
    ensures
        match r {
            Ok(o) => launch_spec(texts(args@)) == Ok::<(Seq<char>, int, int), ConfigError>(
                (o.level_path@, o.cell_size as int, o.speed as int),
            ),
            Err(e) => launch_spec(texts(args@)) == Err::<(Seq<char>, int, int), ConfigError>(e),
        },
{
    let level_path = level_path(args);
    if !has_level_extension(level_path.as_str()) {
        return Err(ConfigError::BadExtension);
    }
    let cell_size = match option_index(args, "-c", "--cellsize") {
        None => {
            return Err(ConfigError::MissingCellSize);
        },
        Some(None) => DEFAULT_CELL_SIZE,
        Some(Some(j)) => match parse_cell_size(args[j].as_str()) {
            Some(v) => v,
            None => {
                return Err(ConfigError::BadCellSize);
            },
        },
    };
    let speed = match option_index(args, "-s", "--speed") {
        None => {
            return Err(ConfigError::MissingSpeed);
        },
        Some(None) => DEFAULT_SPEED,
        Some(Some(j)) => match parse_speed(args[j].as_str()) {
            Some(v) => v,
            None => {
                return Err(ConfigError::BadSpeed);
            },
        },
    };
    Ok(LaunchOptions { level_path, cell_size, speed })
}

} // verus!
