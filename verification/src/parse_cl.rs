//! The options of the command line: the extent of the grid and the scale at
//! which it is drawn, as numbers written in decimal.

use vstd::prelude::*;
use vstd::string::StrSliceExecFns;

verus! {

/// The number of columns and of rows where none is given.
pub const DEFAULT_SIZE: u32 = 20;

/// The options of a game.
#[derive(Debug, Clone, Copy, PartialEq, Eq)]
pub struct Options {
    /// The number of columns, then of rows.
    pub size: (u32, u32),
    /// The side of a cell on the screen, in pixels.
    pub scale: u32,
}

/// The argument that is no number the game can use.
#[derive(Debug, Clone, Copy, PartialEq, Eq, Structural)]
pub enum Invalid {
    Height,
    Width,
    Square,
    Scale,
}

/// The value of a decimal digit, and `None` for any other character.
pub open spec fn digit(c: char) -> Option<nat> {
    if c == '0' {
        Some(0)
    } else if c == '1' {
        Some(1)
    } else if c == '2' {
        Some(2)
    } else if c == '3' {
        Some(3)
    } else if c == '4' {
        Some(4)
    } else if c == '5' {
        Some(5)
    } else if c == '6' {
        Some(6)
    } else if c == '7' {
        Some(7)
    } else if c == '8' {
        Some(8)
    } else if c == '9' {
        Some(9)
    } else {
        None
    }
}

/// Whether every character of `s` is a decimal digit.
pub open spec fn all_digits(s: Seq<char>) -> bool {
    forall|i: int| 0 <= i < s.len() ==> (#[trigger] digit(s[i])).is_some()
}

/// The number that the digits `s` write in decimal.
pub open spec fn decimal(s: Seq<char>) -> nat
    decreases s.len(),
{
    if s.len() == 0 {
        0
    } else {
        decimal(s.drop_last()) * 10 + match digit(s.last()) {
            Some(d) => d,
            None => 0,
        }
    }
}

/// The number that `s` writes: one digit or more, after a `+` or not, that
/// write a number no greater than `u32::MAX`. Anything else writes none.
pub open spec fn number(s: Seq<char>) -> Option<u32> {
    let digits = if s.len() > 0 && s[0] == '+' {
        s.drop_first()
    } else {
        s
    };
    if digits.len() > 0 && all_digits(digits) && decimal(digits) <= u32::MAX {
        Some(decimal(digits) as u32)
    } else {
        None
    }
}

/// Whether `s` writes an extent that a grid can have: a number from 1 to
/// `i32::MAX`.
pub open spec fn writes_extent(s: Seq<char>) -> bool {
    number(s) matches Some(n) && 1 <= n <= i32::MAX
}

/// What the arguments ask for. `height`, `width` and `square` may be
/// missing; `square` stands for both of the others and goes before them. An
/// extent that is not given is `DEFAULT_SIZE`. The first argument that is no
/// number from 1 up, or no extent that a grid can have, is named: `height`
/// is looked at first, then `width`, `square` and `scale`.
pub open spec fn parse_spec(
    width: Option<Seq<char>>,
    height: Option<Seq<char>>,
    square: Option<Seq<char>>,
    scale: Seq<char>,
) -> Result<Options, Invalid> {
    if height matches Some(s) && !writes_extent(s) {
        Err(Invalid::Height)
    } else if width matches Some(s) && !writes_extent(s) {
        Err(Invalid::Width)
    } else if square matches Some(s) && !writes_extent(s) {
        Err(Invalid::Square)
    } else if !(number(scale) matches Some(n) && n >= 1) {
        Err(Invalid::Scale)
    } else {
        let x = match (square, width) {
            (Some(s), _) => number(s).unwrap(),
            (None, Some(s)) => number(s).unwrap(),
            (None, None) => DEFAULT_SIZE,
        };
        let y = match (square, height) {
            (Some(s), _) => number(s).unwrap(),
            (None, Some(s)) => number(s).unwrap(),
            (None, None) => DEFAULT_SIZE,
        };
        Ok(Options { size: (x, y), scale: number(scale).unwrap() })
    }
}

/// The characters of an argument that may be missing.
pub open spec fn text(arg: Option<&str>) -> Option<Seq<char>> {
    match arg {
        Some(s) => Some(s@),
        None => None,
    }
}

/// The digits up to a place write no greater a number than all of them do.
proof fn lemma_decimal_grows(s: Seq<char>, k: int)
    requires
        0 <= k <= s.len(),
    ensures
        decimal(s.subrange(0, k)) <= decimal(s),
    decreases s.len() - k,
{
    if k == s.len() {
        assert(s.subrange(0, k) =~= s);
    } else {
        lemma_decimal_grows(s, k + 1);
        assert(s.subrange(0, k + 1).drop_last() =~= s.subrange(0, k));
    }
}

fn digit_of(c: char) -> (d: Option<u64>)
    ensures
        match d {
            Some(v) => digit(c) == Some(v as nat),
            None => digit(c).is_none(),
        },
{
    match c {
        '0' => Some(0),
        '1' => Some(1),
        '2' => Some(2),
        '3' => Some(3),
        '4' => Some(4),
        '5' => Some(5),
        '6' => Some(6),
        '7' => Some(7),
        '8' => Some(8),
        '9' => Some(9),
        _ => None,
    }
}

/// Reads a number written in decimal, as `number` says.
pub fn parse_number(s: &str) -> (r: Option<u32>)
    ensures
        r == number(s@),
{
    let len = s.unicode_len();
    let start: usize = if len > 0 && s.get_char(0) == '+' {
        1
    } else {
        0
    };
    if start == len {
        return None;
    }
    let ghost digits = s@.subrange(start as int, len as int);
    assert(digits =~= if s@.len() > 0 && s@[0] == '+' {
        s@.drop_first()
    } else {
        s@
    });
    let mut acc: u64 = 0;
    let mut i: usize = start;
    while i < len
        invariant
            start <= i <= len,
            len == s@.len(),
            digits == s@.subrange(start as int, len as int),
            digits == if s@.len() > 0 && s@[0] == '+' {
                s@.drop_first()
            } else {
                s@
            },
            acc == decimal(digits.subrange(0, i - start)),
            acc <= u32::MAX,
            all_digits(digits.subrange(0, i - start)),
        decreases len - i,
    {
        let d = match digit_of(s.get_char(i)) {
            Some(d) => d,
            None => {
                assert(digit(digits[i - start]).is_none());
                return None;
            },
        };
        proof {
            assert(digits.subrange(0, i - start + 1).drop_last() =~= digits.subrange(
                0,
                i - start,
            ));
            lemma_decimal_grows(digits, i - start + 1);
        }
        acc = acc * 10 + d;
        if acc > u32::MAX as u64 {
            return None;
        }
        i = i + 1;
    }
    assert(digits.subrange(0, len - start) =~= digits);
    Some(acc as u32)
}

/// Reads an extent that may be missing: `Ok` with the extent or with
/// nothing, and `Err` where what is given is no extent that a grid can have.
fn parse_extent(arg: Option<&str>) -> (r: Result<Option<u32>, ()>)
    ensures
        match arg {
            None => r == Ok::<Option<u32>, ()>(None),
            Some(s) => if writes_extent(s@) {
                r == Ok::<Option<u32>, ()>(number(s@))
            } else {
                r.is_err()
            },
        },
{
    match arg {
        None => Ok(None),
        Some(s) => match parse_number(s) {
            Some(n) => if 1 <= n && n <= i32::MAX as u32 {
                Ok(Some(n))
            } else {
                Err(())
            },
            None => Err(()),
        },
    }
}

/// Reads the options from the arguments of the command line, each as it was
/// written there.
pub fn parse_cl(width: Option<&str>, height: Option<&str>, square: Option<&str>, scale: &str) -> (r:
    Result<Options, Invalid>)
    ensures
        r == parse_spec(text(width), text(height), text(square), scale@),
{
    let mut height = match parse_extent(height) {
        Ok(h) => h,
        Err(_) => {
            return Err(Invalid::Height);
        },
    };
    let mut width = match parse_extent(width) {
        Ok(w) => w,
        Err(_) => {
            return Err(Invalid::Width);
        },
    };
    let square = match parse_extent(square) {
        Ok(s) => s,
        Err(_) => {
            return Err(Invalid::Square);
        },
    };
    let scale = match parse_number(scale) {
        Some(n) => if n >= 1 {
            n
        } else {
            return Err(Invalid::Scale);
        },
        None => {
            return Err(Invalid::Scale);
        },
    };
    if let Some(s) = square {
        height = Some(s);
        width = Some(s);
    }
    let x = match width {
        Some(w) => w,
        None => DEFAULT_SIZE,
    };
    let y = match height {
        Some(h) => h,
        None => DEFAULT_SIZE,
    };
    Ok(Options { size: (x, y), scale })
}

} // verus!
