use vstd::prelude::*;

verus! {

/// The color of a pocket on a European wheel.
#[derive(Clone, Copy, Debug, PartialEq, Eq, Structural)]
pub enum Color {
    Green,
    Red,
    Black,
}

/// Every way to bet on one spin.
#[derive(Clone, Copy, Debug, PartialEq, Eq, Structural)]
pub enum BetType {
    Straight(u8),
    Split(u8, u8),
    Street(u8),
    Corner(u8),
    SixLine(u8),
    Column(u8),
    Dozen(u8),
    Red,
    Black,
    Even,
    Odd,
    Low,
    High,
}

/// One bet of one spin.
#[derive(Clone, Copy, Debug, PartialEq, Eq, Structural)]
pub struct Bet {
    pub bet_type: BetType,
    pub amount: u64,
}

/// One bet's outcome; a winning payout includes the original stake.
#[derive(Clone, Copy, Debug, PartialEq, Eq, Structural)]
pub struct BetResult {
    pub bet_type: BetType,
    pub amount: u64,
    pub won: bool,
    pub payout: u64,
}

/// Everything one spin resolved.
#[derive(Debug)]
pub struct SpinResult {
    pub winning_number: u8,
    pub color: Color,
    pub bets: Vec<BetResult>,
    pub total_bet: u64,
    pub total_payout: u64,
    pub net_result: i64,
}

/// The red and black pockets, for display.
#[derive(Debug)]
pub struct BoardLayout {
    pub red_numbers: Vec<u8>,
    pub black_numbers: Vec<u8>,
}

/// One row of the payout table, for display.
#[derive(Debug)]
pub struct PayoutInfo {
    pub bet_type: String,
    pub payout_multiplier: u8,
}

/// The eighteen red pockets of the European layout.
pub open spec fn spec_is_red(n: u8) -> bool {
    n == 1 || n == 3 || n == 5 || n == 7 || n == 9 || n == 12 || n == 14 || n == 16 || n == 18
        || n == 19 || n == 21 || n == 23 || n == 25 || n == 27 || n == 30 || n == 32 || n == 34
        || n == 36
}

pub open spec fn spec_color(n: u8) -> Color {
    if n == 0 {
        Color::Green
    } else if spec_is_red(n) {
        Color::Red
    } else {
        Color::Black
    }
}

/// The color of pocket `n`: green for zero, else red or black by the
/// standard layout.
pub fn get_color(n: u8) -> (r: Color)
    ensures
        r == spec_color(n),
{
    if n == 0 {
        Color::Green
    } else if n == 1 || n == 3 || n == 5 || n == 7 || n == 9 || n == 12 || n == 14 || n == 16
        || n == 18 || n == 19 || n == 21 || n == 23 || n == 25 || n == 27 || n == 30 || n == 32
        || n == 34 || n == 36 {
        Color::Red
    } else {
        Color::Black
    }
}

/// The column (1, 2 or 3) of a number; zero has none.
pub fn get_column(n: u8) -> (r: Option<u8>)
    ensures
        n == 0 ==> r is None,
        n > 0 ==> r == Some((((n - 1) % 3) + 1) as u8),
{
    if n == 0 {
        None
    } else {
        Some(((n - 1) % 3) + 1)
    }
}

/// The dozen (1, 2 or 3) of a number; zero has none.
pub fn get_dozen(n: u8) -> (r: Option<u8>)
    ensures
        n == 0 ==> r is None,
        n > 0 ==> r == Some((((n - 1) / 12) + 1) as u8),
{
    if n == 0 {
        None
    } else {
        Some(((n - 1) / 12) + 1)
    }
}

/// A valid split: two distinct numbers adjacent on the board. Zero
/// splits with 1, 2 or 3; otherwise the pair differs by 3 (same row) or
/// by 1 within one street.
pub open spec fn spec_valid_split(a: u8, b: u8) -> bool {
    let lo = if a < b {
        a
    } else {
        b
    };
    let hi = if a < b {
        b
    } else {
        a
    };
    &&& a <= 36
    &&& b <= 36
    &&& a != b
    &&& (if lo == 0 {
        hi <= 3
    } else {
        hi - lo == 3 || (hi - lo == 1 && (lo - 1) / 3 == (hi - 1) / 3)
    })
}

pub fn is_valid_split(a: u8, b: u8) -> (r: bool)
    ensures
        r == spec_valid_split(a, b),
{
    if a > 36 || b > 36 || a == b {
        return false;
    }
    let lo = if a < b {
        a
    } else {
        b
    };
    let hi = if a < b {
        b
    } else {
        a
    };
    if lo == 0 {
        return hi <= 3;
    }
    if hi - lo == 3 {
        return true;
    }
    if hi - lo == 1 {
        return (lo - 1) / 3 == (hi - 1) / 3;
    }
    false
}

/// A valid street start: the first number of a row of three.
pub fn is_valid_street(start: u8) -> (r: bool)
    ensures
        r == (1 <= start <= 34 && (start - 1) % 3 == 0),
{
    start >= 1 && start <= 34 && (start - 1) % 3 == 0
}

/// A valid corner top-left: not in the third column, with a full 2 x 2
/// square below and to the right of it on the board.
pub fn is_valid_corner(top_left: u8) -> (r: bool)
    ensures
        r == (1 <= top_left <= 32 && ((top_left - 1) % 3) + 1 != 3),
{
    if top_left == 0 || top_left > 32 {
        return false;
    }
    let col = ((top_left - 1) % 3) + 1;
    if col == 3 {
        return false;
    }
    top_left + 3 <= 36
}

/// A valid six-line start: the first number of two consecutive rows.
pub fn is_valid_six_line(start: u8) -> (r: bool)
    ensures
        r == (1 <= start <= 31 && (start - 1) % 3 == 0),
{
    start >= 1 && start <= 31 && (start - 1) % 3 == 0
}

/// The three numbers of the street starting at `start`.
pub fn get_street_numbers(start: u8) -> (r: [u8; 3])
    requires
        start <= 34,
    ensures
        r@ == seq![start, (start + 1) as u8, (start + 2) as u8],
{
    let r = [start, start + 1, start + 2];
    proof {
        assert(r@ =~= seq![start, (start + 1) as u8, (start + 2) as u8]);
    }
    r
}

/// The four numbers of the corner with top-left `top_left`.
pub fn get_corner_numbers(top_left: u8) -> (r: [u8; 4])
    requires
        top_left <= 32,
    ensures
        r@ == seq![top_left, (top_left + 1) as u8, (top_left + 3) as u8, (top_left + 4) as u8],
{
    let r = [top_left, top_left + 1, top_left + 3, top_left + 4];
    proof {
        assert(r@ =~= seq![
            top_left,
            (top_left + 1) as u8,
            (top_left + 3) as u8,
            (top_left + 4) as u8,
        ]);
    }
    r
}

/// The six numbers of the six-line starting at `start`.
pub fn get_six_line_numbers(start: u8) -> (r: [u8; 6])
    requires
        start <= 31,
    ensures
        r@ == seq![
            start,
            (start + 1) as u8,
            (start + 2) as u8,
            (start + 3) as u8,
            (start + 4) as u8,
            (start + 5) as u8,
        ],
{
    let r = [start, start + 1, start + 2, start + 3, start + 4, start + 5];
    proof {
        assert(r@ =~= seq![
            start,
            (start + 1) as u8,
            (start + 2) as u8,
            (start + 3) as u8,
            (start + 4) as u8,
            (start + 5) as u8,
        ]);
    }
    r
}

/// The twelve numbers of column `col`: `col`, `col + 3`, and so on.
pub fn get_column_numbers(col: u8) -> (r: [u8; 12])
    requires
        1 <= col <= 3,
    ensures
        r@.len() == 12,
        forall|k: int| 0 <= k < 12 ==> r@[k] == col + 3 * k,
{
    let r = [
        col,
        col + 3,
        col + 6,
        col + 9,
        col + 12,
        col + 15,
        col + 18,
        col + 21,
        col + 24,
        col + 27,
        col + 30,
        col + 33,
    ];
    proof {
        assert forall|k: int| 0 <= k < 12 implies r@[k] == col + 3 * k by {
            if k == 0 {
            } else if k == 1 {
            } else if k == 2 {
            } else if k == 3 {
            } else if k == 4 {
            } else if k == 5 {
            } else if k == 6 {
            } else if k == 7 {
            } else if k == 8 {
            } else if k == 9 {
            } else if k == 10 {
            } else {
                assert(k == 11);
            }
        }
    }
    r
}

/// The twelve numbers of dozen `dozen`: twelve consecutive numbers from
/// `(dozen - 1) * 12 + 1`.
pub fn get_dozen_numbers(dozen: u8) -> (r: [u8; 12])
    requires
        1 <= dozen <= 3,
    ensures
        r@.len() == 12,
        forall|k: int| 0 <= k < 12 ==> r@[k] == (dozen - 1) * 12 + 1 + k,
{
    let start = (dozen - 1) * 12 + 1;
    let r = [
        start,
        start + 1,
        start + 2,
        start + 3,
        start + 4,
        start + 5,
        start + 6,
        start + 7,
        start + 8,
        start + 9,
        start + 10,
        start + 11,
    ];
    proof {
        assert forall|k: int| 0 <= k < 12 implies r@[k] == (dozen - 1) * 12 + 1 + k by {
            if k == 0 {
            } else if k == 1 {
            } else if k == 2 {
            } else if k == 3 {
            } else if k == 4 {
            } else if k == 5 {
            } else if k == 6 {
            } else if k == 7 {
            } else if k == 8 {
            } else if k == 9 {
            } else if k == 10 {
            } else {
                assert(k == 11);
            }
        }
    }
    r
}

} // verus!
