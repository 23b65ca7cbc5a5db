use video_ascii_cli::naming::{
    comparison_name, count_digits, default_output_name, digit_text, frame_file_name,
};
use video_ascii_cli::probe::{parse_probe_output, split_fraction, ProbeError};
use video_ascii_cli::text::{
    chars_of, find_char, is_whitespace, line_end, parse_u32, parse_u32_range, trim_range,
};

fn chars(text: &str) -> Vec<char> {
    text.chars().collect()
}

/// The trimmed text, through `trim_range`.
fn trim(text: &str) -> String {
    let all = chars(text);
    let (from, to) = trim_range(&all, 0, all.len());
    all[from..to].iter().collect()
}

#[test]
fn default_output_names() {
    assert_eq!(default_output_name(Some("input"), false, false), "input_ascii.mp4");
    assert_eq!(default_output_name(Some("input"), true, false), "input_ascii.webp");
    assert_eq!(default_output_name(Some("input"), false, true), "input_compare.mp4");
    assert_eq!(default_output_name(Some("input"), true, true), "input_compare.webp");
    assert_eq!(default_output_name(None, false, false), "output_ascii.mp4");
    assert_eq!(default_output_name(Some(""), false, false), "_ascii.mp4");
    assert_eq!(default_output_name(Some("a.b"), false, false), "a.b_ascii.mp4");
    assert_eq!(default_output_name(Some("été"), true, false), "été_ascii.webp");
}

#[test]
fn comparison_names() {
    assert_eq!(comparison_name("input", "mp4"), "input_compare.mp4");
    assert_eq!(comparison_name("clip.v2", "webp"), "clip.v2_compare.webp");
    assert_eq!(comparison_name("", ""), "_compare.");
}

#[test]
fn frame_names_are_padded_to_eight_digits() {
    assert_eq!(frame_file_name(0), "frame_00000000.png");
    assert_eq!(frame_file_name(7), "frame_00000007.png");
    assert_eq!(frame_file_name(10), "frame_00000010.png");
    assert_eq!(frame_file_name(1234), "frame_00001234.png");
    assert_eq!(frame_file_name(99_999_999), "frame_99999999.png");
}

#[test]
fn frame_names_grow_beyond_eight_digits() {
    assert_eq!(frame_file_name(100_000_000), "frame_100000000.png");
    assert_eq!(frame_file_name(1_234_567_890), "frame_1234567890.png");
    assert_eq!(frame_file_name(usize::MAX), format!("frame_{:08}.png", usize::MAX));
}

#[test]
fn frame_names_agree_with_formatting() {
    let mut index: usize = 0;
    while index < 3_000_000 {
        assert_eq!(frame_file_name(index), format!("frame_{:08}.png", index));
        index = index * 3 + 1;
    }
    for index in 0..2000 {
        assert_eq!(frame_file_name(index), format!("frame_{:08}.png", index));
    }
}

#[test]
fn frame_names_sort_in_frame_order() {
    let names: Vec<String> = (0..1200).map(frame_file_name).collect();
    let mut sorted = names.clone();
    sorted.sort();
    assert_eq!(sorted, names);
}

#[test]
fn digits_are_counted() {
    assert_eq!(count_digits(0), 1);
    assert_eq!(count_digits(9), 1);
    assert_eq!(count_digits(10), 2);
    assert_eq!(count_digits(99), 2);
    assert_eq!(count_digits(100), 3);
    assert_eq!(count_digits(99_999_999), 8);
    assert_eq!(count_digits(100_000_000), 9);
    assert_eq!(count_digits(usize::MAX), usize::MAX.to_string().len());
}

#[test]
fn digits_have_their_text() {
    for digit in 0..10u8 {
        assert_eq!(digit_text(digit), digit.to_string());
    }
}

#[test]
fn characters_of_a_string() {
    assert_eq!(chars_of(""), Vec::<char>::new());
    assert_eq!(chars_of("a é█"), vec!['a', ' ', 'é', '█']);
}

#[test]
fn white_space_is_the_unicode_property() {
    for code in 0..=0x10FFFFu32 {
        if let Some(c) = char::from_u32(code) {
            assert_eq!(is_whitespace(c), c.is_whitespace(), "U+{code:04X}");
        }
    }
}

#[test]
fn trimming_agrees_with_the_standard_library() {
    for text in [
        "",
        " ",
        "a",
        "  a  ",
        "\t64\r",
        "\r\n",
        " a b ",
        "\u{a0}x\u{3000}",
        "\u{2003}30000/1001\u{85}",
        "x\u{200b}",
        "   ",
        "é ",
    ] {
        assert_eq!(trim(text), text.trim(), "{text:?}");
    }
}

#[test]
fn trimming_stays_inside_its_range() {
    let all = chars("  ab  cd  ");
    assert_eq!(trim_range(&all, 0, 10), (2, 8));
    assert_eq!(trim_range(&all, 0, 5), (2, 4));
    assert_eq!(trim_range(&all, 4, 10), (6, 8));
    assert_eq!(trim_range(&all, 4, 6), (6, 6));
    assert_eq!(trim_range(&all, 3, 3), (3, 3));
}

#[test]
fn line_ends_are_found() {
    let all = chars("ab\ncd\n\nef");
    assert_eq!(line_end(&all, 0), 2);
    assert_eq!(line_end(&all, 1), 2);
    assert_eq!(line_end(&all, 2), 2);
    assert_eq!(line_end(&all, 3), 5);
    assert_eq!(line_end(&all, 6), 6);
    assert_eq!(line_end(&all, 7), 9);
    assert_eq!(line_end(&all, 9), 9);
    assert_eq!(find_char(&all, 0, 'd'), 4);
    assert_eq!(find_char(&all, 5, 'd'), 9);
    assert_eq!(find_char(&all, 0, 'z'), 9);
}

#[test]
fn numbers_agree_with_the_standard_library() {
    for text in [
        "0",
        "7",
        "64",
        "007",
        "+5",
        "+0",
        "4294967295",
        "4294967296",
        "+4294967295",
        "00000000000000000000000000000000000001",
        "99999999999999999999999999999999999999",
        "42949672950",
        "",
        "+",
        "-",
        "-0",
        "-5",
        "++5",
        "+-5",
        "5+",
        " 5",
        "5 ",
        "1_000",
        "0x10",
        "1e3",
        "1.0",
        "١٢٣",
        "１２",
        "12a",
        "a12",
        "/",
        ":",
    ] {
        assert_eq!(parse_u32(&chars(text)), text.parse::<u32>().ok(), "{text:?}");
    }
}

#[test]
fn numbers_near_the_limit() {
    for value in (u32::MAX as u64 - 20)..(u32::MAX as u64 + 20) {
        let text = value.to_string();
        assert_eq!(parse_u32(&chars(&text)), text.parse::<u32>().ok());
    }
    for value in [0u32, 1, 9, 10, 99, 100, 65_535, 65_536, 1_000_000_000, u32::MAX] {
        assert_eq!(parse_u32(&chars(&value.to_string())), Some(value));
    }
}

#[test]
fn numbers_are_read_from_a_range() {
    let all = chars("w=640;h=+480");
    assert_eq!(parse_u32_range(&all, 2, 5), Some(640));
    assert_eq!(parse_u32_range(&all, 8, 12), Some(480));
    assert_eq!(parse_u32_range(&all, 9, 12), Some(480));
    assert_eq!(parse_u32_range(&all, 0, 5), None);
    assert_eq!(parse_u32_range(&all, 2, 6), None);
    assert_eq!(parse_u32_range(&all, 3, 3), None);
}

#[test]
fn probe_report_is_read() {
    let fields = parse_probe_output("64\n48\n5/1\n").expect("a well-formed report");
    assert_eq!(fields.width, 64);
    assert_eq!(fields.height, 48);
    assert_eq!(fields.frame_rate, "5/1");
}

#[test]
fn probe_report_may_carry_white_space_and_more_lines() {
    let fields = parse_probe_output("  1920 \r\n\t1080\r\n 30000/1001 \r\nextra\n").expect("report");
    assert_eq!(fields.width, 1920);
    assert_eq!(fields.height, 1080);
    assert_eq!(fields.frame_rate, "30000/1001");

    let fields = parse_probe_output("80\n56\n6").expect("report without a final line end");
    assert_eq!((fields.width, fields.height), (80, 56));
    assert_eq!(fields.frame_rate, "6");

    let fields = parse_probe_output("+80\n056\n\n").expect("report with an empty rate");
    assert_eq!((fields.width, fields.height), (80, 56));
    assert_eq!(fields.frame_rate, "");
}

#[test]
fn probe_report_errors_come_in_order() {
    assert_eq!(parse_probe_output("").unwrap_err(), ProbeError::MissingWidth);
    assert_eq!(parse_probe_output("\n").unwrap_err(), ProbeError::InvalidWidth);
    assert_eq!(parse_probe_output("abc\n48\n5\n").unwrap_err(), ProbeError::InvalidWidth);
    assert_eq!(parse_probe_output("-64\n48\n5\n").unwrap_err(), ProbeError::InvalidWidth);
    assert_eq!(parse_probe_output("4294967296\n48\n5\n").unwrap_err(), ProbeError::InvalidWidth);
    assert_eq!(parse_probe_output("64").unwrap_err(), ProbeError::MissingHeight);
    assert_eq!(parse_probe_output("64\n").unwrap_err(), ProbeError::MissingHeight);
    assert_eq!(parse_probe_output("64\n\n").unwrap_err(), ProbeError::InvalidHeight);
    assert_eq!(parse_probe_output("64\n4 8\n5\n").unwrap_err(), ProbeError::InvalidHeight);
    assert_eq!(parse_probe_output("64\n48").unwrap_err(), ProbeError::MissingFrameRate);
    assert_eq!(parse_probe_output("64\n48\n").unwrap_err(), ProbeError::MissingFrameRate);
    assert_eq!(parse_probe_output("x\ny").unwrap_err(), ProbeError::InvalidWidth);
}

#[test]
fn probe_errors_have_messages() {
    assert_eq!(ProbeError::MissingWidth.message(), "missing width");
    assert_eq!(ProbeError::InvalidWidth.message(), "invalid width");
    assert_eq!(ProbeError::MissingHeight.message(), "missing height");
    assert_eq!(ProbeError::InvalidHeight.message(), "invalid height");
    assert_eq!(ProbeError::MissingFrameRate.message(), "missing frame rate");
}

#[test]
fn probe_report_lines_agree_with_the_standard_library() {
    for report in [
        "1\n2\n3\n",
        "1\r\n2\r\n3",
        "\n\n\n",
        "1\n\n3\n4",
        " 1 \n 2 \n 3 ",
        "1\n2",
        "1\n2\n",
        "1\n2\n\r",
    ] {
        let mut lines = report.lines();
        let expected = (|| {
            let width = lines.next()?.trim().parse::<u32>().ok()?;
            let height = lines.next()?.trim().parse::<u32>().ok()?;
            let rate = lines.next()?.trim().to_string();
            Some((width, height, rate))
        })();
        let read = parse_probe_output(report).ok().map(|f| (f.width, f.height, f.frame_rate));
        assert_eq!(read, expected, "{report:?}");
    }
}

#[test]
fn fractions_are_split_at_the_first_bar() {
    assert_eq!(split_fraction("30000/1001"), ("30000", Some("1001")));
    assert_eq!(split_fraction("24"), ("24", None));
    assert_eq!(split_fraction("1/0"), ("1", Some("0")));
    assert_eq!(split_fraction("/"), ("", Some("")));
    assert_eq!(split_fraction("a/b/c"), ("a", Some("b/c")));
    assert_eq!(split_fraction(""), ("", None));
    assert_eq!(split_fraction("é/█"), ("é", Some("█")));
    for text in ["30000/1001", "24", "/", "a/b/c", "", "x/"] {
        let expected = match text.split_once('/') {
            Some((numerator, denominator)) => (numerator, Some(denominator)),
            None => (text, None),
        };
        assert_eq!(split_fraction(text), expected);
    }
}
