//! Reading what a stream probe reports: three lines holding the width, the
//! height and the frame rate of a video.

use vstd::prelude::*;
use crate::text::{
    after_line, chars_of, find_char, line, line_end, line_len, parse_u32_range, parsed_u32,
    span_until, trim_range, trimmed,
};

verus! {

/// Why a report could not be read.
#[derive(Clone, Copy, Debug, PartialEq, Eq)]
pub enum ProbeError {
    /// The report has no first line.
    MissingWidth,
    /// The first line is not a 32-bit unsigned number.
    InvalidWidth,
    /// The report has no second line.
    MissingHeight,
    /// The second line is not a 32-bit unsigned number.
    InvalidHeight,
    /// The report has no third line.
    MissingFrameRate,
}

/// What a report holds.
#[derive(Debug)]
pub struct ProbeFields {
    /// Width of the video in pixels.
    pub width: u32,
    /// Height of the video in pixels.
    pub height: u32,
    /// The frame rate as it was reported, without surrounding white space:
    /// a number or a fraction of two numbers.
    pub frame_rate: String,
}

/// What a report holds: the numbers on its first two lines and the text of
/// its third, each taken without surrounding white space; or the first thing
/// found wrong with it.
pub open spec fn probed(report: Seq<char>) -> Result<(u32, u32, Seq<char>), ProbeError> {
    match line(report, 0) {
        None => Err(ProbeError::MissingWidth),
        Some(first) => match parsed_u32(trimmed(first)) {
            None => Err(ProbeError::InvalidWidth),
            Some(width) => match line(report, 1) {
                None => Err(ProbeError::MissingHeight),
                Some(second) => match parsed_u32(trimmed(second)) {
                    None => Err(ProbeError::InvalidHeight),
                    Some(height) => match line(report, 2) {
                        None => Err(ProbeError::MissingFrameRate),
                        Some(third) => Ok((width, height, trimmed(third))),
                    },
                },
            },
        },
    }
}

impl ProbeError {
    /// A short description of the error.
    pub open spec fn description(self) -> Seq<char> {
        match self {
            ProbeError::MissingWidth => "missing width"@,
            ProbeError::InvalidWidth => "invalid width"@,
            ProbeError::MissingHeight => "missing height"@,
            ProbeError::InvalidHeight => "invalid height"@,
            ProbeError::MissingFrameRate => "missing frame rate"@,
        }
    }

    /// A short description of the error.
    pub fn message(&self) -> (text: &'static str)
        ensures
            text@ == self.description(),
    {
        match self {
            ProbeError::MissingWidth => "missing width",
            ProbeError::InvalidWidth => "invalid width",
            ProbeError::MissingHeight => "missing height",
            ProbeError::InvalidHeight => "invalid height",
            ProbeError::MissingFrameRate => "missing frame rate",
        }
    }
}

/// Finds the line that starts at `from`: where it ends, and where the next
/// line starts. `None` where the text ends at `from`.
pub fn next_line(text: &[char], from: usize) -> (found: Option<(usize, usize)>)
    requires
        from <= text@.len(),
    ensures
        found is None <==> from == text@.len(),
        found matches Some((end, next)) ==> {
            &&& from <= end <= next <= text@.len()
            &&& text@.subrange(from as int, end as int) == text@.skip(from as int).take(
                line_len(text@.skip(from as int)) as int,
            )
            &&& text@.skip(next as int) == after_line(text@.skip(from as int))
        },
{
    if from == text.len() {
        return None;
    }
    let end = line_end(text, from);
    let next = if end < text.len() {
        end + 1
    } else {
        end
    };
    proof {
        let rest = text@.skip(from as int);
        assert(text@.subrange(from as int, end as int) =~= rest.take(line_len(rest) as int));
        assert(text@.skip(next as int) =~= after_line(rest));
    }
    Some((end, next))
}

/// Reads the report of a stream probe.
pub fn parse_probe_output(stdout: &str) -> (fields: Result<ProbeFields, ProbeError>)
    ensures
        match fields {
            Ok(read) => probed(stdout@) == Ok::<(u32, u32, Seq<char>), ProbeError>(
                (read.width, read.height, read.frame_rate@),
            ),
            Err(error) => probed(stdout@) == Err::<(u32, u32, Seq<char>), ProbeError>(error),
        },
{
    let chars = chars_of(stdout);
    let text = chars.as_slice();
    proof {
        reveal_with_fuel(line, 3);
        assert(text@.skip(0) == text@);
    }
    let (first_end, second_start) = match next_line(text, 0) {
        Some(found) => found,
        None => { return Err(ProbeError::MissingWidth); },
    };
    let (from, to) = trim_range(text, 0, first_end);
    let width = match parse_u32_range(text, from, to) {
        Some(value) => value,
        None => { return Err(ProbeError::InvalidWidth); },
    };
    let (second_end, third_start) = match next_line(text, second_start) {
        Some(found) => found,
        None => { return Err(ProbeError::MissingHeight); },
    };
    let (from, to) = trim_range(text, second_start, second_end);
    let height = match parse_u32_range(text, from, to) {
        Some(value) => value,
        None => { return Err(ProbeError::InvalidHeight); },
    };
    let third_end = match next_line(text, third_start) {
        Some((end, _)) => end,
        None => { return Err(ProbeError::MissingFrameRate); },
    };
    let (from, to) = trim_range(text, third_start, third_end);
    let frame_rate = String::from_str(stdout.substring_char(from, to));
    Ok(ProbeFields { width, height, frame_rate })
}

/// The two parts of a frame rate: what stands before its first `/`, and
/// what stands after it where it has one.
pub open spec fn fraction_parts(rate: Seq<char>) -> (Seq<char>, Option<Seq<char>>) {
    let bar = span_until(rate, '/');
    if bar < rate.len() {
        (rate.take(bar as int), Some(rate.skip(bar as int + 1)))
    } else {
        (rate, None)
    }
}

/// Splits a frame rate at its first `/`.
pub fn split_fraction<'a>(rate: &'a str) -> (parts: (&'a str, Option<&'a str>))
    ensures
        parts.0@ == fraction_parts(rate@).0,
        match parts.1 {
            Some(denominator) => fraction_parts(rate@).1 == Some(denominator@),
            None => fraction_parts(rate@).1 is None,
        },
{
    let chars = chars_of(rate);
    let text = chars.as_slice();
    let bar = find_char(text, 0, '/');
    proof {
        assert(text@.skip(0) == text@);
        assert(rate@.subrange(0, bar as int) == rate@.take(bar as int));
    }
    if bar < text.len() {
        proof {
            assert(rate@.subrange(bar + 1, rate@.len() as int) == rate@.skip(bar + 1));
        }
        (rate.substring_char(0, bar), Some(rate.substring_char(bar + 1, text.len())))
    } else {
        proof {
            assert(rate@.take(bar as int) == rate@);
        }
        (rate, None)
    }
}

} // verus!
