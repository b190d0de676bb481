use vstd::prelude::*;
use vstd::string::StrSliceExecFns;

verus! {

/// A cell of the board, as (column, row).
pub type Location = (usize, usize);

pub open spec fn is_ascii_digit(c: char) -> bool {
    '0' <= c && c <= '9'
}

/// What is left of a text once its leading decimal digits are taken off.
pub open spec fn strip_leading_digits(s: Seq<char>) -> Seq<char>
    decreases s.len(),
{
    if s.len() > 0 && is_ascii_digit(s[0]) {
        strip_leading_digits(s.drop_first())
    } else {
        s
    }
}

/// Drops the numeric packet-type prefix of a socket message; `None` when
/// nothing but digits was there.
pub fn fuck_socketio(msg: String) -> (r: Option<String>)
    requires
        msg@.len() > 0,
    ensures
        strip_leading_digits(msg@).len() == 0 ==> r is None,
        strip_leading_digits(msg@).len() > 0 ==> (r matches Some(t) && t@ == strip_leading_digits(
            msg@,
        )),
{
    let s = msg.as_str();
    let n = s.unicode_len();
    let mut i: usize = 0;
    assert(s@.subrange(0, n as int) =~= s@);
    while i < n && is_digit_char(s.get_char(i))
        invariant
            n == s@.len(),
            s@ == msg@,
            i <= n,
            strip_leading_digits(s@) == strip_leading_digits(s@.subrange(i as int, n as int)),
        decreases n - i,
    {
        proof {
            let t = s@.subrange(i as int, n as int);
            assert(t.drop_first() =~= s@.subrange(i + 1, n as int));
        }
        i = i + 1;
    }
    proof {
        let t = s@.subrange(i as int, n as int);
        assert(strip_leading_digits(t) == t);
    }
    if i == n {
        None
    } else {
        Some(s.substring_char(i, n).to_owned())
    }
}

fn is_digit_char(c: char) -> (r: bool)
    ensures
        r == is_ascii_digit(c),
{
    '0' <= c && c <= '9'
}

/// The index that a linear cell index stands for: one past the board is
/// folded back.
pub open spec fn folded_index(i: int, width: int, height: int) -> int {
    if i > width * height {
        i % (width * height)
    } else {
        i
    }
}

/// Maps a row-major cell index of a `width` x `height` playfield to a board
/// cell, shifted by the padding.
pub fn int_to_location(i: u64, width: u64, height: u64, pad_left: u64, pad_top: u64) -> (r:
    Location)
    requires
        width > 0,
        height > 0,
        width * height <= usize::MAX,
        pad_left + width <= usize::MAX,
        pad_top + height <= usize::MAX,
    ensures
        r.0 == folded_index(i as int, width as int, height as int) % (width as int)
            + pad_left,
        r.1 == folded_index(i as int, width as int, height as int) / (width as int)
            + pad_top,
{
    assert(width * height > 0) by (nonlinear_arith)
        requires
            width > 0,
            height > 0,
    ;
    let area: u64 = width * height;
    let mut j: u64 = i;
    if j > area {
        j = j % area;
    }
    assert(j <= area);
    let x: u64 = j % width;
    let y: u64 = j / width;
    proof {
        assert(y <= height) by (nonlinear_arith)
            requires
                y == j / width,
                j <= width * height,
                width > 0,
        ;
    }
    ((x + pad_left) as usize, (y + pad_top) as usize)
}

/// The row-major cell index of a board cell, padding taken off.
pub fn location_to_int(location: Location, width: u64, height: u64, pad_left: u64, pad_top: u64) -> (r: u64)
    requires
        location.0 >= pad_left,
        location.1 >= pad_top,
        (location.0 - pad_left) + (location.1 - pad_top) * width <= u64::MAX,
    ensures
        r == (location.0 - pad_left) + (location.1 - pad_top) * width,
{
    let x: u64 = (location.0 - pad_left as usize) as u64;
    let y: u64 = (location.1 - pad_top as usize) as u64;
    proof {
        assert(y * width <= u64::MAX) by (nonlinear_arith)
            requires
                x + y * width <= u64::MAX,
                x >= 0,
        ;
    }
    x + y * width
}

/// The four orthogonal neighbours of a cell that lie on a
/// `width` x `height` board: left, right, up, down.
pub open spec fn neighbor_seq(location: Location, width: usize, height: usize) -> Seq<Location> {
    let s0: Seq<Location> = if location.0 > 0 {
        seq![((location.0 - 1) as usize, location.1)]
    } else {
        seq![]
    };
    let s1 = if location.0 < width - 1 {
        s0.push(((location.0 + 1) as usize, location.1))
    } else {
        s0
    };
    let s2 = if location.1 > 0 {
        s1.push((location.0, (location.1 - 1) as usize))
    } else {
        s1
    };
    if location.1 < height - 1 {
        s2.push((location.0, (location.1 + 1) as usize))
    } else {
        s2
    }
}

pub fn get_neighbors(location: Location, width: usize, height: usize) -> (r: Vec<Location>)
    requires
        width > 0,
        height > 0,
    ensures
        r@ == neighbor_seq(location, width, height),
{
    let mut neighbors: Vec<Location> = Vec::new();
    if location.0 > 0 {
        neighbors.push((location.0 - 1, location.1));
    }
    if location.0 < width - 1 {
        neighbors.push((location.0 + 1, location.1));
    }
    if location.1 > 0 {
        neighbors.push((location.0, location.1 - 1));
    }
    if location.1 < height - 1 {
        neighbors.push((location.0, location.1 + 1));
    }
    assert(neighbors@ =~= neighbor_seq(location, width, height));
    neighbors
}

pub open spec fn abs_diff(a: int, b: int) -> int {
    if a >= b {
        a - b
    } else {
        b - a
    }
}

pub open spec fn manhattan(a: Location, b: Location) -> int {
    abs_diff(a.0 as int, b.0 as int) + abs_diff(a.1 as int, b.1 as int)
}

pub fn manhattan_distance(a: Location, b: Location) -> (r: u64)
    requires
        manhattan(a, b) <= u64::MAX,
    ensures
        r == manhattan(a, b),
{
    let dx: u64 = if a.0 >= b.0 {
        (a.0 - b.0) as u64
    } else {
        (b.0 - a.0) as u64
    };
    let dy: u64 = if a.1 >= b.1 {
        (a.1 - b.1) as u64
    } else {
        (b.1 - a.1) as u64
    };
    dx + dy
}

} // verus!
