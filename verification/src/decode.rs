//! Splitting one instruction word into an opcode and parameter modes.
//!
//! The opcode is the low two decimal digits of the word.  The remaining
//! digits, read from least significant to most significant, give the
//! addressing mode of parameter 1, 2, 3, …; a digit position that is not
//! present defaults to 0 (position mode).  A negative word, an opcode outside
//! the defined set, or a mode digit outside {0, 1, 2} is a decode failure.

use vstd::prelude::*;

use crate::errors::Failure;

verus! {

/// One instruction of the machine.
#[derive(Copy, Clone, Debug, PartialEq, Eq, Structural)]
pub enum Opcode {
    Add,
    Multiply,
    Input,
    Output,
    JumpIfTrue,
    JumpIfFalse,
    LessThan,
    Equals,
    RelativeBaseOffset,
    Terminate,
}

/// The addressing mode of one parameter.
#[derive(Copy, Clone, Debug, PartialEq, Eq, Structural)]
pub enum ParameterMode {
    Position,
    Immediate,
    Relative,
}

/// The opcode encoded by the low two decimal digits, if any.
pub open spec fn opcode_of(n: int) -> Option<Opcode> {
    if n == 1 {
        Some(Opcode::Add)
    } else if n == 2 {
        Some(Opcode::Multiply)
    } else if n == 3 {
        Some(Opcode::Input)
    } else if n == 4 {
        Some(Opcode::Output)
    } else if n == 5 {
        Some(Opcode::JumpIfTrue)
    } else if n == 6 {
        Some(Opcode::JumpIfFalse)
    } else if n == 7 {
        Some(Opcode::LessThan)
    } else if n == 8 {
        Some(Opcode::Equals)
    } else if n == 9 {
        Some(Opcode::RelativeBaseOffset)
    } else if n == 99 {
        Some(Opcode::Terminate)
    } else {
        None
    }
}

/// `r` with its `k` least significant decimal digits removed.
pub open spec fn shift10(r: int, k: nat) -> int
    recommends
        0 <= r,
    decreases k,
{
    if k == 0 {
        r
    } else {
        shift10(r / 10, (k - 1) as nat)
    }
}

/// The `k`-th decimal digit of `r`, counting from 0 at the least significant.
pub open spec fn digit_at(r: int, k: nat) -> int
    recommends
        0 <= r,
{
    shift10(r, k) % 10
}

/// The mode digit of parameter `i` (1-based) of instruction word `w`.
/// Digit positions beyond the written digits are 0: position mode.
pub open spec fn mode_digit(w: int, i: int) -> int
    recommends
        0 <= w,
        1 <= i,
{
    digit_at(w / 100, (i - 1) as nat)
}

/// Every decimal digit of `r` is a defined mode, i.e. at most 2.
pub open spec fn modes_valid(r: int) -> bool
    recommends
        0 <= r,
    decreases r,
{
    if r <= 0 {
        true
    } else {
        r % 10 <= 2 && modes_valid(r / 10)
    }
}

/// The mode named by a digit known to be at most 2.
pub open spec fn mode_of_digit(d: int) -> ParameterMode
    recommends
        0 <= d <= 2,
{
    if d == 0 {
        ParameterMode::Position
    } else if d == 1 {
        ParameterMode::Immediate
    } else {
        ParameterMode::Relative
    }
}

/// In a word whose digits are all valid modes, every digit position — written
/// or defaulted — holds a digit between 0 and 2.
pub proof fn lemma_modes_valid_digit(r: int, k: nat)
    requires
        0 <= r,
        modes_valid(r),
    ensures
        0 <= digit_at(r, k) <= 2,
    decreases k,
{
    if k == 0 {
        if r == 0 {
            assert(digit_at(r, 0) == 0);
        }
    } else {
        lemma_modes_valid_digit(r / 10, (k - 1) as nat);
    }
}

impl Opcode {
    /// Maps a numeric code to the opcode it names.
    pub fn try_from(value: i64) -> (r: Result<Opcode, Failure>)
        ensures
            r == match opcode_of(value as int) {
                Some(op) => Ok::<Opcode, Failure>(op),
                None => Err::<Opcode, Failure>(Failure::InvalidOpcode),
            },
    {
        match value {
            1 => Ok(Opcode::Add),
            2 => Ok(Opcode::Multiply),
            3 => Ok(Opcode::Input),
            4 => Ok(Opcode::Output),
            5 => Ok(Opcode::JumpIfTrue),
            6 => Ok(Opcode::JumpIfFalse),
            7 => Ok(Opcode::LessThan),
            8 => Ok(Opcode::Equals),
            9 => Ok(Opcode::RelativeBaseOffset),
            99 => Ok(Opcode::Terminate),
            _ => Err(Failure::InvalidOpcode),
        }
    }
}

impl ParameterMode {
    /// Maps a mode digit to the mode it names.
    pub fn try_from(value: i64) -> (r: Result<ParameterMode, Failure>)
        ensures
            r == if 0 <= value <= 2 {
                Ok::<ParameterMode, Failure>(mode_of_digit(value as int))
            } else {
                Err::<ParameterMode, Failure>(Failure::InvalidParameterMode)
            },
    {
        match value {
            0 => Ok(ParameterMode::Position),
            1 => Ok(ParameterMode::Immediate),
            2 => Ok(ParameterMode::Relative),
            _ => Err(Failure::InvalidParameterMode),
        }
    }
}

/// Checks that every written mode digit of `rest` (the instruction word with
/// its opcode digits removed) is a defined mode.
pub fn check_modes(rest: i64) -> (r: bool)
    requires
        0 <= rest,
    ensures
        r == modes_valid(rest as int),
{
    let mut x = rest;
    while x > 0
        invariant
            0 <= x,
            modes_valid(rest as int) == modes_valid(x as int),
        decreases x,
    {
        if x % 10 > 2 {
            return false;
        }
        x = x / 10;
    }
    true
}

/// Extracts the mode of parameter `i` (1-based) from instruction word `w`,
/// whose mode digit for that parameter has already been checked.
pub fn param_mode(w: i64, i: u64) -> (m: ParameterMode)
    requires
        0 <= w,
        1 <= i,
        0 <= mode_digit(w as int, i as int) <= 2,
    ensures
        m == mode_of_digit(mode_digit(w as int, i as int)),
{
    let mut rest = w / 100;
    let mut k = i - 1;
    while k > 0
        invariant
            0 <= rest,
            rest == shift10(w as int / 100, (i - 1 - k) as nat),
            k <= i - 1,
        decreases k,
    {
        rest = rest / 10;
        k = k - 1;
        proof {
            lemma_shift10_unfold(w as int / 100, (i - 1 - k) as nat);
        }
    }
    let d = rest % 10;
    if d == 0 {
        ParameterMode::Position
    } else if d == 1 {
        ParameterMode::Immediate
    } else {
        ParameterMode::Relative
    }
}

/// Removing one more digit after `k` removals is the same as removing `k`
/// digits from the number with its last digit already removed — the order the
/// extraction loop works in.
proof fn lemma_shift10_unfold(r: int, k: nat)
    ensures
        shift10(r, k) == if k == 0 {
            r
        } else {
            shift10(r, (k - 1) as nat) / 10
        },
    decreases k,
{
    if k > 0 {
        lemma_shift10_unfold(r / 10, (k - 1) as nat);
    }
}

} // verus!
