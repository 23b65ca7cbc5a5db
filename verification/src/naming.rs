//! File names: the default name of an output video, the name of a
//! comparison video, and the names of the frame images of a run.

use vstd::prelude::*;

verus! {

/// Number of digits to which frame numbers are padded.
pub const FRAME_DIGITS: usize = 8;

/// What follows the stem in the name of an output video.
pub open spec fn output_suffix(compare: bool) -> Seq<char> {
    if compare {
        "_compare"@
    } else {
        "_ascii"@
    }
}

/// Extension of an output video: WebP where frames are transparent, MP4
/// otherwise.
pub open spec fn output_extension(transparent: bool) -> Seq<char> {
    if transparent {
        "webp"@
    } else {
        "mp4"@
    }
}

/// Name of the output video for an input whose name has the given stem.
pub open spec fn output_name(stem: Seq<char>, transparent: bool, compare: bool) -> Seq<char> {
    stem + output_suffix(compare) + "."@ + output_extension(transparent)
}

/// Name of the output video for an input whose name has the given stem;
/// `output` stands in for a name without a stem.
pub fn default_output_name(stem: Option<&str>, transparent: bool, compare: bool) -> (name: String)
    ensures
        name@ == output_name(
            match stem {
                Some(given) => given@,
                None => "output"@,
            },
            transparent,
            compare,
        ),
{
    let mut name = match stem {
        Some(given) => String::from_str(given),
        None => String::from_str("output"),
    };
    if compare {
        name.append("_compare");
    } else {
        name.append("_ascii");
    }
    name.append(".");
    if transparent {
        name.append("webp");
    } else {
        name.append("mp4");
    }
    name
}

/// Name of the video that shows an input beside its rendering: the stem of
/// the input, `_compare`, and the extension of the rendered video.
pub fn comparison_name(stem: &str, extension: &str) -> (name: String)
    ensures
        name@ == stem@ + "_compare."@ + extension@,
{
    let mut name = String::from_str(stem);
    name.append("_compare.");
    name.append(extension);
    name
}

/// The character of a decimal digit.
pub open spec fn digit_char(digit: int) -> char {
    if digit == 0 {
        '0'
    } else if digit == 1 {
        '1'
    } else if digit == 2 {
        '2'
    } else if digit == 3 {
        '3'
    } else if digit == 4 {
        '4'
    } else if digit == 5 {
        '5'
    } else if digit == 6 {
        '6'
    } else if digit == 7 {
        '7'
    } else if digit == 8 {
        '8'
    } else {
        '9'
    }
}

/// The last `count` decimal digits of a number, most significant first,
/// with zeros where the number has fewer.
pub open spec fn last_digits(number: nat, count: nat) -> Seq<char>
    decreases count,
{
    if count == 0 {
        Seq::empty()
    } else {
        last_digits(number / 10, (count - 1) as nat).push(digit_char((number % 10) as int))
    }
}

/// How many decimal digits a number has; zero has one.
pub open spec fn digit_count(number: nat) -> nat
    decreases number,
{
    if number < 10 {
        1
    } else {
        digit_count(number / 10) + 1
    }
}

/// A number in decimal, padded with zeros on the left to at least `width`
/// digits.
pub open spec fn zero_padded(number: nat, width: nat) -> Seq<char> {
    if digit_count(number) >= width {
        last_digits(number, digit_count(number))
    } else {
        last_digits(number, width)
    }
}

/// Name of the image that holds the frame of the given number.
pub open spec fn frame_name(index: nat) -> Seq<char> {
    "frame_"@ + zero_padded(index, FRAME_DIGITS as nat) + ".png"@
}

/// The text of a decimal digit.
pub fn digit_text(digit: u8) -> (text: &'static str)
    requires
        digit < 10,
    ensures
        text@ == seq![digit_char(digit as int)],
{
    proof {
        reveal_strlit("0");
        reveal_strlit("1");
        reveal_strlit("2");
        reveal_strlit("3");
        reveal_strlit("4");
        reveal_strlit("5");
        reveal_strlit("6");
        reveal_strlit("7");
        reveal_strlit("8");
        reveal_strlit("9");
    }
    let text = match digit {
        0 => "0",
        1 => "1",
        2 => "2",
        3 => "3",
        4 => "4",
        5 => "5",
        6 => "6",
        7 => "7",
        8 => "8",
        _ => "9",
    };
    assert(text@ =~= seq![digit_char(digit as int)]);
    text
}

/// Counts the decimal digits of a number.
pub fn count_digits(number: usize) -> (count: usize)
    ensures
        count == digit_count(number as nat),
{
    let mut count: usize = 1;
    let mut rest = number;
    while rest >= 10
        invariant
            digit_count(number as nat) == digit_count(rest as nat) + count - 1,
            1 <= count,
            count + rest <= number + 1,
        decreases rest,
    {
        rest = rest / 10;
        count += 1;
    }
    count
}

/// Name of the image that holds the frame of the given number: `frame_`,
/// the number padded to eight digits, and `.png`.
pub fn frame_file_name(index: usize) -> (name: String)
    ensures
        name@ == frame_name(index as nat),
{
    let digits = count_digits(index);
    let width = if digits >= FRAME_DIGITS {
        digits
    } else {
        FRAME_DIGITS
    };
    let mut reversed: Vec<u8> = Vec::new();
    let mut rest = index;
    while reversed.len() < width
        invariant
            reversed.len() <= width,
            forall|i: int| 0 <= i < reversed.len() ==> reversed[i] < 10,
            last_digits(index as nat, width as nat) == last_digits(
                rest as nat,
                (width - reversed.len()) as nat,
            ) + Seq::new(
                reversed.len() as nat,
                |i: int| digit_char(reversed[reversed.len() - 1 - i] as int),
            ),
        decreases width - reversed.len(),
    {
        let ghost before = reversed@;
        let ghost remaining = (width - reversed.len()) as nat;
        reversed.push((rest % 10) as u8);
        proof {
            let tail_before = Seq::new(
                before.len(),
                |i: int| digit_char(before[before.len() - 1 - i] as int),
            );
            let tail_after = Seq::new(
                reversed.len() as nat,
                |i: int| digit_char(reversed[reversed.len() - 1 - i] as int),
            );
            assert(tail_after =~= seq![digit_char((rest % 10) as int)] + tail_before);
            assert(last_digits(rest as nat, remaining) == last_digits(
                (rest / 10) as nat,
                (remaining - 1) as nat,
            ).push(digit_char((rest % 10) as int)));
            assert(last_digits((rest / 10) as nat, (remaining - 1) as nat).push(
                digit_char((rest % 10) as int),
            ) + tail_before =~= last_digits((rest / 10) as nat, (remaining - 1) as nat)
                + tail_after);
        }
        rest = rest / 10;
    }
    let mut name = String::from_str("frame_");
    let mut left = width;
    while left > 0
        invariant
            left <= width,
            width == reversed.len(),
            forall|i: int| 0 <= i < reversed.len() ==> reversed[i] < 10,
            name@ == "frame_"@ + Seq::new(
                (width - left) as nat,
                |i: int| digit_char(reversed[width - 1 - i] as int),
            ),
        decreases left,
    {
        left -= 1;
        name.append(digit_text(reversed[left]));
        assert(name@ =~= "frame_"@ + Seq::new(
            (width - left) as nat,
            |i: int| digit_char(reversed[width - 1 - i] as int),
        ));
    }
    name.append(".png");
    proof {
        assert(last_digits(rest as nat, 0) =~= Seq::<char>::empty());
        assert(last_digits(index as nat, width as nat) =~= Seq::new(
            width as nat,
            |i: int| digit_char(reversed[width - 1 - i] as int),
        ));
    }
    name
}

} // verus!
