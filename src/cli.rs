//! The decisions the benchmark program takes on its command line: which run
//! to make, over how many points, or which error stops it.
use crate::aggregate::Mode;
use vstd::prelude::*;
use vstd::utf8::encode_utf8;

verus! {

/// What the command line asks for.
#[derive(Clone, Copy, Debug, PartialEq, Eq, Structural)]
pub enum Invocation {
    /// A run in the given mode over `sample` points.
    Run { mode: Mode, sample: u64 },
    /// The mode word is neither `single` nor `multi`: the program answers
    /// `command not found` and makes no run.
    NotFound,
}

/// Why the command line cannot be acted on.
#[derive(Clone, Copy, Debug, PartialEq, Eq, Structural)]
pub enum ArgError {
    /// No mode word was given.
    MissingMode,
    /// No sample count was given.
    MissingSample,
    /// The sample count is not a decimal number that fits in a `u64`.
    InvalidSample,
}

/// An ASCII decimal digit.
pub open spec fn is_digit(b: u8) -> bool {
    48 <= b <= 57
}

/// The number that a sequence of decimal digits writes, most significant
/// first.
pub open spec fn digits_value(b: Seq<u8>) -> nat
    decreases b.len(),
{
    if b.len() == 0 {
        0
    } else {
        digits_value(b.drop_last()) * 10 + (b.last() - 48) as nat
    }
}

/// The text of an unsigned decimal number without its optional leading `+`.
pub open spec fn unsigned_digits(b: Seq<u8>) -> Seq<u8> {
    if b.len() > 0 && b[0] == 43 {
        b.subrange(1, b.len() as int)
    } else {
        b
    }
}

/// The number that a text of an unsigned decimal number writes: an
/// optional `+`, then one digit or more.
pub open spec fn decimal_value(b: Seq<u8>) -> Option<nat> {
    let d = unsigned_digits(b);
    if d.len() > 0 && forall|i: int| 0 <= i < d.len() ==> is_digit(#[trigger] d[i]) {
        Some(digits_value(d))
    } else {
        None
    }
}

/// The sample count that a text gives: its decimal value, where that fits
/// in a `u64`.
pub open spec fn sample_count(b: Seq<u8>) -> Option<u64> {
    match decimal_value(b) {
        Some(v) => if v <= u64::MAX {
            Some(v as u64)
        } else {
            None
        },
        None => None,
    }
}

/// The mode that a mode word names, if any.
pub open spec fn mode_of(word: Seq<char>) -> Option<Mode> {
    if word == "single"@ {
        Some(Mode::Single)
    } else if word == "multi"@ {
        Some(Mode::Multi)
    } else {
        None
    }
}

/// What a command line (the program's name first) asks for. The arguments
/// are examined in order: the mode word must be there, then the sample
/// count must be there and be a number; only then is the mode word read.
pub open spec fn invocation_of(args: Seq<String>) -> Result<Invocation, ArgError> {
    if args.len() < 2 {
        Err(ArgError::MissingMode)
    } else if args.len() < 3 {
        Err(ArgError::MissingSample)
    } else {
        match sample_count(encode_utf8(args[2]@)) {
            None => Err(ArgError::InvalidSample),
            Some(sample) => match mode_of(args[1]@) {
                Some(mode) => Ok(Invocation::Run { mode, sample }),
                None => Ok(Invocation::NotFound),
            },
        }
    }
}

/// A command line with a sample count that is a number and a mode word that
/// names no mode asks for no run: the program answers `command not found`.
pub proof fn lemma_unknown_mode_not_found(args: Seq<String>)
    requires
        args.len() >= 3,
        sample_count(encode_utf8(args[2]@)) is Some,
        mode_of(args[1]@) is None,
    ensures
        invocation_of(args) == Ok::<Invocation, ArgError>(Invocation::NotFound),
{
}

/// The digits of a number that grows by more digits only grow in value.
proof fn lemma_digits_value_monotone(b: Seq<u8>, i: int)
    requires
        0 <= i <= b.len(),
    ensures
        digits_value(b.take(i)) <= digits_value(b),
    decreases b.len(),
{
    if i < b.len() {
        assert(b.take(i) =~= b.drop_last().take(i));
        lemma_digits_value_monotone(b.drop_last(), i);
    } else {
        assert(b.take(i) =~= b);
    }
}

/// Reads a sample count written in decimal, with an optional leading `+`.
pub fn parse_sample(text: &str) -> (r: Option<u64>)
    ensures
        r == sample_count(encode_utf8(text@)),
{
    let b = text.as_bytes();
    let ghost all = b@;
    let start: usize = if b.len() > 0 && b[0] == 43 {
        1
    } else {
        0
    };
    let ghost d = unsigned_digits(all);
    assert(d =~= all.subrange(start as int, all.len() as int));
    if start == b.len() {
        return None;
    }
    let mut acc: u64 = 0;
    let mut i: usize = start;
    while i < b.len()
        invariant
            start <= i <= b.len(),
            b@ == all,
            all == encode_utf8(text@),
            d == unsigned_digits(all),
            d =~= all.subrange(start as int, all.len() as int),
            forall|k: int| 0 <= k < i - start ==> is_digit(#[trigger] d[k]),
            acc == digits_value(d.take(i - start)),
        decreases b.len() - i,
    {
        let c = b[i];
        let ghost j = i - start;
        assert(d[j] == c);
        if c < 48 || c > 57 {
            assert(!is_digit(d[j]));
            return None;
        }
        let digit: u64 = (c - 48) as u64;
        assert(d.take(j + 1).drop_last() =~= d.take(j));
        if acc > (u64::MAX - digit) / 10 {
            proof {
                lemma_digits_value_monotone(d, j + 1);
                assert(digits_value(d.take(j + 1)) == acc * 10 + digit);
                assert(acc * 10 + digit > u64::MAX) by (nonlinear_arith)
                    requires
                        acc > (u64::MAX - digit) / 10,
                        digit <= 9,
                ;
                assert(digits_value(d) > u64::MAX);
            }
            return None;
        }
        assert(acc * 10 + digit <= u64::MAX) by (nonlinear_arith)
            requires
                acc <= (u64::MAX - digit) / 10,
                digit <= 9,
        ;
        acc = acc * 10 + digit;
        i = i + 1;
    }
    assert(d.take(d.len() as int) =~= d);
    Some(acc)
}

/// Whether a mode word names a mode, and which.
pub fn parse_mode(word: &str) -> (r: Option<Mode>)
    ensures
        r == mode_of(word@),
{
    let owned = word.to_owned();
    if owned == "single".to_owned() {
        Some(Mode::Single)
    } else if owned == "multi".to_owned() {
        Some(Mode::Multi)
    } else {
        None
    }
}

/// Decides what a command line (the program's name first) asks for.
pub fn parse_args(args: &Vec<String>) -> (r: Result<Invocation, ArgError>)
    ensures
        r == invocation_of(args@),
{
    if args.len() < 2 {
        return Err(ArgError::MissingMode);
    }
    if args.len() < 3 {
        return Err(ArgError::MissingSample);
    }
    match parse_sample(args[2].as_str()) {
        None => Err(ArgError::InvalidSample),
        Some(sample) => match parse_mode(args[1].as_str()) {
            Some(mode) => Ok(Invocation::Run { mode, sample }),
            None => Ok(Invocation::NotFound),
        },
    }
}

} // verus!
