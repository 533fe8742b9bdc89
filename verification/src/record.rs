//! Parsing of one raw input record of the form
//! `FILE_PATH:LINE_NUMBER:NEW_LINE_CONTENT`.

use vstd::prelude::*;

use crate::text::{find_byte, find_first, copy_range, lemma_find_first_characterization};

verus! {

/// Colon byte (`:`), the record's field separator.
pub const COLON: u8 = 58;

/// Plus-sign byte (`+`), an accepted leading sign on the line number.
pub const PLUS_SIGN: u8 = 43;

/// Byte of the digit `0`.
pub const DIGIT_ZERO: u8 = 48;

/// Byte of the digit `9`.
pub const DIGIT_NINE: u8 = 57;

/// Why a record could not be parsed or applied.
#[derive(Clone, Copy, Debug, PartialEq, Eq, Structural)]
pub enum PatchError {
    /// The raw line holds fewer than two separators.
    MalformedRecord,
    /// The middle segment is not a strictly positive base-10 integer that
    /// fits the machine's word size.
    InvalidLineNumber,
    /// The requested line number exceeds the file's line count.
    LineOutOfRange,
}

/// An ASCII decimal digit.
pub open spec fn is_digit_byte(b: u8) -> bool {
    DIGIT_ZERO <= b <= DIGIT_NINE
}

/// A non-empty sequence made only of ASCII decimal digits.
pub open spec fn is_digit_seq(s: Seq<u8>) -> bool {
    s.len() > 0 && forall|i: int| 0 <= i < s.len() ==> is_digit_byte(#[trigger] s[i])
}

/// The base-10 value of a digit sequence.
pub open spec fn digits_value(s: Seq<u8>) -> nat
    decreases s.len(),
{
    if s.len() == 0 {
        0
    } else {
        (10 * digits_value(s.drop_last()) + (s.last() - DIGIT_ZERO)) as nat
    }
}

/// `s` without one accepted leading plus sign.
pub open spec fn strip_sign(s: Seq<u8>) -> Seq<u8> {
    if s.len() > 0 && s[0] == PLUS_SIGN {
        s.drop_first()
    } else {
        s
    }
}

/// Whether the middle segment of a record is a well-formed line number: after
/// an optional plus sign, only digits, with a strictly positive value that
/// fits the machine's word size.
pub open spec fn is_valid_line_number(s: Seq<u8>) -> bool {
    &&& is_digit_seq(strip_sign(s))
    &&& 0 < digits_value(strip_sign(s)) <= usize::MAX
}

/// The value of a well-formed line-number segment.
pub open spec fn line_number_value(s: Seq<u8>) -> nat {
    digits_value(strip_sign(s))
}

/// What parsing a raw record line yields: the path (before the first colon),
/// the line number (between the first and second colon), and the content
/// (everything after the second colon, verbatim); or the error that the line
/// deserves.
pub open spec fn parse_record(s: Seq<u8>) -> Result<(Seq<u8>, nat, Seq<u8>), PatchError> {
    match find_first(s, COLON) {
        None => Err(PatchError::MalformedRecord),
        Some(i) => {
            let rest = s.subrange(i + 1, s.len() as int);
            match find_first(rest, COLON) {
                None => Err(PatchError::MalformedRecord),
                Some(j) => {
                    let number = rest.subrange(0, j);
                    if is_valid_line_number(number) {
                        Ok(
                            (
                                s.subrange(0, i),
                                line_number_value(number),
                                rest.subrange(j + 1, rest.len() as int),
                            ),
                        )
                    } else {
                        Err(PatchError::InvalidLineNumber)
                    }
                },
            }
        },
    }
}

/// The value of a digit sequence is at least the value of any of its
/// prefixes.
pub proof fn lemma_digits_value_prefix_le(s: Seq<u8>, i: int)
    requires
        0 <= i <= s.len(),
        forall|j: int| 0 <= j < s.len() ==> is_digit_byte(#[trigger] s[j]),
    ensures
        digits_value(s.subrange(0, i)) <= digits_value(s),
    decreases s.len(),
{
    if i == s.len() {
        assert(s.subrange(0, i) =~= s);
    } else {
        assert(s.drop_last() =~= s.subrange(0, s.len() - 1));
        assert(forall|j: int| 0 <= j < s.len() - 1 ==> s.drop_last()[j] == s[j]);
        lemma_digits_value_prefix_le(s.drop_last(), i);
        assert(s.drop_last().subrange(0, i) =~= s.subrange(0, i));
        assert(digits_value(s) == (10 * digits_value(s.drop_last()) + (s.last()
            - DIGIT_ZERO)) as nat);
    }
}

/// One validated patch record: the file to edit, the 1-based line to replace,
/// and the replacement content.
#[derive(Debug)]
pub struct LinePatch {
    /// The target file's path, as the raw bytes before the first colon.
    pub file_path: Vec<u8>,
    /// The 1-based number of the line to replace; never zero.
    pub line_number: usize,
    /// The replacement content, verbatim, colons and all.
    pub content: Vec<u8>,
}

impl LinePatch {
    /// A record's validity: line numbers are 1-based, so zero never occurs.
    pub open spec fn wf(&self) -> bool {
        self.line_number >= 1
    }

    /// Parses one raw input line into a record: the bytes before the first
    /// colon name the file, the digits between the first two colons give the
    /// 1-based line number, and everything after the second colon is the
    /// replacement content. Fails with `MalformedRecord` when fewer than two
    /// colons are present, and with `InvalidLineNumber` when the middle
    /// segment is not a strictly positive integer.
    pub fn new(line: &[u8]) -> (r: Result<LinePatch, PatchError>)
        ensures
            match r {
                Ok(p) => parse_record(line@) == Ok::<_, PatchError>(
                    (p.file_path@, p.line_number as nat, p.content@),
                ) && p.wf(),
                Err(e) => parse_record(line@) == Err::<(Seq<u8>, nat, Seq<u8>), _>(e),
            },
    {
        let first = match find_byte(line, COLON) {
            Some(i) => i,
            None => {
                return Err(PatchError::MalformedRecord);
            },
        };
        proof {
            lemma_find_first_characterization(line@, COLON);
        }
        let line_len = line.len();
        let rest = copy_range(line, first + 1, line_len);
        let second = match find_byte(rest.as_slice(), COLON) {
            Some(j) => j,
            None => {
                return Err(PatchError::MalformedRecord);
            },
        };
        proof {
            lemma_find_first_characterization(rest@, COLON);
        }
        let number_part = vstd::slice::slice_subrange(rest.as_slice(), 0, second);
        let line_number = match parse_line_number(number_part) {
            Some(v) => v,
            None => {
                return Err(PatchError::InvalidLineNumber);
            },
        };
        let file_path = copy_range(line, 0, first);
        let content = copy_range(rest.as_slice(), second + 1, rest.len());
        Ok(LinePatch { file_path, line_number, content })
    }
}

/// Parses the line-number segment: an optional plus sign, then one or more
/// decimal digits, with a strictly positive value that fits the machine's
/// word size. Returns `None` exactly on the segments that are no well-formed
/// line number.
pub fn parse_line_number(s: &[u8]) -> (r: Option<usize>)
    ensures
        match r {
            Some(v) => is_valid_line_number(s@) && v as nat == line_number_value(s@) && 1 <= v,
            None => !is_valid_line_number(s@),
        },
{
    let start: usize = if s.len() > 0 && s[0] == PLUS_SIGN {
        1
    } else {
        0
    };
    proof {
        if start == 1 {
            assert(strip_sign(s@) =~= s@.subrange(1, s@.len() as int));
        } else {
            assert(strip_sign(s@) =~= s@.subrange(0, s@.len() as int));
        }
    }
    if s.len() == start {
        return None;
    }
    let ghost digits = strip_sign(s@);
    let mut value: usize = 0;
    let mut i: usize = start;
    proof {
        assert(s@.subrange(start as int, start as int) =~= Seq::<u8>::empty());
    }
    while i < s.len()
        invariant
            start <= i <= s@.len(),
            digits == strip_sign(s@),
            digits == s@.subrange(start as int, s@.len() as int),
            forall|j: int| start <= j < i ==> is_digit_byte(#[trigger] s@[j]),
            value as nat == digits_value(s@.subrange(start as int, i as int)),
        decreases s@.len() - i,
    {
        let b = s[i];
        if b < DIGIT_ZERO || b > DIGIT_NINE {
            proof {
                assert(digits[i - start] == s@[i as int]);
            }
            return None;
        }
        let digit = (b - DIGIT_ZERO) as usize;
        let wide = value as u128 * 10 + digit as u128;
        proof {
            let prefix = s@.subrange(start as int, i + 1);
            assert(prefix.drop_last() =~= s@.subrange(start as int, i as int));
            assert(prefix.last() == s@[i as int]);
            assert(digits_value(prefix) == (10 * digits_value(prefix.drop_last()) + (prefix.last()
                - DIGIT_ZERO)) as nat);
        }
        if wide > usize::MAX as u128 {
            proof {
                assert(forall|j: int| 0 <= j < i + 1 - start ==> digits[j] == s@[start + j]);
                if is_digit_seq(digits) {
                    lemma_digits_value_prefix_le(digits, i + 1 - start);
                    assert(digits.subrange(0, i + 1 - start) =~= s@.subrange(start as int, i + 1));
                    assert(digits_value(digits) > usize::MAX);
                }
            }
            return None;
        }
        value = wide as usize;
        i = i + 1;
    }
    if value == 0 {
        proof {
            assert(s@.subrange(start as int, i as int) =~= digits);
        }
        return None;
    }
    proof {
        assert(s@.subrange(start as int, i as int) =~= digits);
        assert(forall|j: int| 0 <= j < digits.len() ==> digits[j] == s@[start + j]);
        assert(is_digit_seq(digits));
    }
    Some(value)
}

} // verus!
