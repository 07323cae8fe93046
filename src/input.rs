use vstd::prelude::*;
use vstd::string::*;

use crate::board::COLUMNS;

verus! {

/// Why a typed column choice was rejected.
#[derive(Clone, Copy, Debug, PartialEq, Eq, Structural)]
pub enum InputError {
    /// The text holds something other than decimal digits.
    InvalidInput,
    /// The number is not a column of the board.
    OutOfRange,
}

pub open spec fn is_digit(ch: char) -> bool {
    '0' <= ch <= '9'
}

pub open spec fn all_digits(s: Seq<char>) -> bool {
    forall|i: int| 0 <= i < s.len() ==> is_digit(#[trigger] s[i])
}

/// The number that the decimal digits `s` spell; the empty text spells 0.
pub open spec fn decimal(s: Seq<char>) -> int
    decreases s.len(),
{
    if s.len() == 0 {
        0
    } else {
        decimal(s.drop_last()) * 10 + (s.last() as int - '0' as int)
    }
}

/// The column, counted from 1, that the text `s` names, or why it names none.
pub open spec fn column_choice(s: Seq<char>) -> Result<int, InputError> {
    if !all_digits(s) {
        Err(InputError::InvalidInput)
    } else if 1 <= decimal(s) <= COLUMNS {
        Ok(decimal(s))
    } else {
        Err(InputError::OutOfRange)
    }
}

proof fn lemma_decimal_grows(s: Seq<char>, i: int, j: int)
    requires
        all_digits(s),
        0 <= i <= j <= s.len(),
    ensures
        0 <= decimal(s.take(i)) <= decimal(s.take(j)),
    decreases j,
{
    if j > 0 {
        assert(s.take(j).drop_last() =~= s.take(j - 1));
        assert(is_digit(s[j - 1]));
        if i < j {
            lemma_decimal_grows(s, i, j - 1);
        } else {
            lemma_decimal_grows(s, j - 1, j - 1);
        }
    } else {
        assert(s.take(0).len() == 0);
    }
}

proof fn lemma_decimal_nonneg(s: Seq<char>)
    requires
        all_digits(s),
    ensures
        decimal(s) >= 0,
{
    lemma_decimal_grows(s, s.len() as int, s.len() as int);
    assert(s.take(s.len() as int) =~= s);
}

/// Reads `s` as an unsigned decimal number. Text holding anything but the
/// digits 0 to 9 is `InvalidInput`; a number too large for `u32` is
/// `OutOfRange`. The empty text reads as 0.
pub fn convert_to_int(s: &str) -> (r: Result<u32, InputError>)
    ensures
        !all_digits(s@) ==> r == Err::<u32, InputError>(InputError::InvalidInput),
        all_digits(s@) && decimal(s@) <= u32::MAX ==> r == Ok::<u32, InputError>(decimal(s@) as u32),
        all_digits(s@) && decimal(s@) > u32::MAX ==> r == Err::<u32, InputError>(InputError::OutOfRange),
{
    let n = s.unicode_len();
    let mut i: usize = 0;
    while i < n
        invariant
            n == s@.len(),
            i <= n,
            forall|j: int| 0 <= j < i ==> is_digit(#[trigger] s@[j]),
        decreases n - i,
    {
        let ch = s.get_char(i);
        if !('0' <= ch && ch <= '9') {
            return Err(InputError::InvalidInput);
        }
        i = i + 1;
    }
    let mut acc: u64 = 0;
    let mut i: usize = 0;
    while i < n
        invariant
            n == s@.len(),
            i <= n,
            all_digits(s@),
            acc == decimal(s@.take(i as int)),
            acc <= u32::MAX,
        decreases n - i,
    {
        let ch = s.get_char(i);
        let d = (ch as u32 - '0' as u32) as u64;
        let next = acc * 10 + d;
        proof {
            assert(s@.take(i + 1).drop_last() =~= s@.take(i as int));
        }
        if next > u32::MAX as u64 {
            proof {
                lemma_decimal_grows(s@, i + 1, n as int);
                assert(s@.take(n as int) =~= s@);
            }
            return Err(InputError::OutOfRange);
        }
        acc = next;
        i = i + 1;
    }
    assert(s@.take(n as int) =~= s@);
    Ok(acc as u32)
}

/// Reads the column, counted from 1, that a player typed.
pub fn parse_column(s: &str) -> (r: Result<usize, InputError>)
    ensures
        match column_choice(s@) {
            Ok(c) => r == Ok::<usize, InputError>(c as usize),
            Err(e) => r == Err::<usize, InputError>(e),
        },
{
    proof {
        if all_digits(s@) {
            lemma_decimal_nonneg(s@);
        }
    }
    match convert_to_int(s) {
        Ok(n) => {
            if 1 <= n && n <= COLUMNS as u32 {
                Ok(n as usize)
            } else {
                Err(InputError::OutOfRange)
            }
        },
        Err(e) => Err(e),
    }
}

} // verus!
