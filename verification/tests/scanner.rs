use mrsim_txt::decimal::{parse_decimal, scaled_position};
use mrsim_txt::error::ErrorKind;
use mrsim_txt::lines::{split_lines, split_yaml, strip_comments};
use mrsim_txt::scan::parse_space_separated_ints;
use mrsim_txt::scan::scan_lanes;

fn bytes(s: &str) -> Vec<u8> {
    s.as_bytes().to_vec()
}

#[test]
fn scan_basic() {
    let r = parse_space_separated_ints(&bytes(" 12 -3")).unwrap();
    assert_eq!(r, vec![12, -3]);
}

#[test]
fn scan_empty_span() {
    let r = parse_space_separated_ints(&bytes("")).unwrap();
    assert!(r.is_empty());
}

#[test]
fn scan_trailing_space_tolerated() {
    let r = parse_space_separated_ints(&bytes(" 1 ")).unwrap();
    assert_eq!(r, vec![1]);
}

#[test]
fn scan_first_value_needs_no_leading_space() {
    // the delimiter before the first value is implicit
    assert_eq!(parse_space_separated_ints(&bytes("12")).unwrap(), vec![12]);
    assert_eq!(parse_space_separated_ints(&bytes("1 2")).unwrap(), vec![1, 2]);
    assert_eq!(
        parse_space_separated_ints(&bytes("0 5 -2")).unwrap(),
        vec![0, 5, -2]
    );
    assert_eq!(parse_space_separated_ints(&bytes("-7")).unwrap(), vec![-7]);
}

#[test]
fn scan_values_must_be_space_separated() {
    // after the first value every boundary must be a single space
    let e = parse_space_separated_ints(&bytes("1-2")).unwrap_err();
    assert_eq!(e.kind, ErrorKind::NumericParse);
    assert!(parse_space_separated_ints(&bytes("1,2")).is_err());
}

#[test]
fn scan_double_space_is_error() {
    assert!(parse_space_separated_ints(&bytes(" 1  2")).is_err());
}

#[test]
fn scan_bare_minus_is_error() {
    assert!(parse_space_separated_ints(&bytes(" -")).is_err());
}

#[test]
fn scan_nondigit_in_token_is_error() {
    let e = parse_space_separated_ints(&bytes(" 1a2")).unwrap_err();
    assert_eq!(e.kind, ErrorKind::NumericParse);
}

#[test]
fn scan_i32_bounds() {
    assert_eq!(
        parse_space_separated_ints(&bytes(" -2147483648")).unwrap(),
        vec![i32::MIN]
    );
    assert_eq!(
        parse_space_separated_ints(&bytes(" 2147483647")).unwrap(),
        vec![i32::MAX]
    );
    assert!(parse_space_separated_ints(&bytes(" 2147483648")).is_err());
    assert!(parse_space_separated_ints(&bytes(" -2147483649")).is_err());
}

#[test]
fn decimal_with_fraction() {
    let d = parse_decimal(&bytes("2048.0"), 0).unwrap();
    assert!(!d.neg);
    assert_eq!(d.mantissa, 20480);
    assert_eq!(d.frac_digits, 1);
}

#[test]
fn decimal_integer_form() {
    let d = parse_decimal(&bytes("100"), 0).unwrap();
    assert_eq!(d.mantissa, 100);
    assert_eq!(d.frac_digits, 0);
}

#[test]
fn decimal_negative_bare_fraction() {
    let d = parse_decimal(&bytes("-.5"), 0).unwrap();
    assert!(d.neg);
    assert_eq!(d.mantissa, 5);
    assert_eq!(d.frac_digits, 1);
}

#[test]
fn decimal_rejects_malformed() {
    assert!(parse_decimal(&bytes(""), 0).is_err());
    assert!(parse_decimal(&bytes("1.2.3"), 0).is_err());
    assert!(parse_decimal(&bytes("--1"), 0).is_err());
    assert!(parse_decimal(&bytes("."), 0).is_err());
    assert!(parse_decimal(&bytes("1e"), 0).is_err());
    assert!(parse_decimal(&bytes("e3"), 0).is_err());
    assert!(parse_decimal(&bytes("1e3x"), 0).is_err());
    assert!(parse_decimal(&bytes("1e--3"), 0).is_err());
}

#[test]
fn decimal_exponent_shifts_the_scale_exactly() {
    let d = parse_decimal(&bytes("1e3"), 0).unwrap();
    assert_eq!((d.neg, d.mantissa, d.frac_digits), (false, 1000, 0));
    let d = parse_decimal(&bytes("2.5e-2"), 0).unwrap();
    assert_eq!((d.neg, d.mantissa, d.frac_digits), (false, 25, 3));
    let d = parse_decimal(&bytes("1E+2"), 0).unwrap();
    assert_eq!((d.neg, d.mantissa, d.frac_digits), (false, 100, 0));
    let d = parse_decimal(&bytes("-12.5e1"), 0).unwrap();
    assert_eq!((d.neg, d.mantissa, d.frac_digits), (true, 125, 0));
    let d = parse_decimal(&bytes("1e19"), 0).unwrap();
    assert_eq!((d.mantissa, d.frac_digits), (10000000000000000000, 0));
    // an exact zero carries any exponent
    let d = parse_decimal(&bytes("0e999999999999999999999999"), 0).unwrap();
    assert_eq!((d.mantissa, d.frac_digits), (0, 0));
}

#[test]
fn decimal_exponent_out_of_range_is_rejected() {
    // the shifted mantissa leaves u64
    assert!(parse_decimal(&bytes("2e19"), 0).is_err());
    assert!(parse_decimal(&bytes("1e20"), 0).is_err());
    // the shifted scale leaves the fractional-digit cap
    assert!(parse_decimal(&bytes("1e-31"), 0).is_err());
}

#[test]
fn decimal_rejects_mantissa_overflow() {
    let e = parse_decimal(&bytes("18446744073709551616"), 0).unwrap_err();
    assert_eq!(e.kind, ErrorKind::NumericParse);
    // the largest mantissa still parses
    let d = parse_decimal(&bytes("18446744073709551615"), 0).unwrap();
    assert_eq!(d.mantissa, u64::MAX);
}

#[test]
fn scaled_position_exact_rational() {
    let res = parse_decimal(&bytes("2048.0"), 0).unwrap();
    let (numer, denom) = scaled_position(512, &res);
    assert_eq!(numer, 10485760);
    assert_eq!(denom, 10240);
    assert_eq!(numer, 1024 * denom as i128);
    assert_eq!(numer as f64 / denom as f64, 1024.0);
}

#[test]
fn split_lines_handles_both_conventions() {
    let unix = split_lines(&bytes("a\nb\n"));
    assert_eq!(unix, vec![bytes("a"), bytes("b")]);
    let windows = split_lines(&bytes("a\r\nb\r\n"));
    assert_eq!(windows, vec![bytes("a"), bytes("b")]);
    let no_terminator = split_lines(&bytes("a\nb"));
    assert_eq!(no_terminator, vec![bytes("a"), bytes("b")]);
}

#[test]
fn comments_stripped_only_in_leading_window() {
    let mut lines: Vec<Vec<u8>> = Vec::new();
    for i in 0..105 {
        if i == 5 || i == 102 {
            lines.push(bytes("  # a comment"));
        } else {
            lines.push(bytes("line"));
        }
    }
    let kept = strip_comments(lines);
    assert_eq!(kept.len(), 104);
    assert_eq!(kept[101], bytes("  # a comment"));
}

#[test]
fn segmentation_splits_on_markers() {
    let text = bytes("h1\nh2\nframe cluster 0:\na\nb\nframe cluster 1:\nc\n");
    let lines = split_lines(&text);
    let (header, segments) = split_yaml(&lines);
    assert_eq!(header, vec![bytes("h1"), bytes("h2")]);
    assert_eq!(segments.len(), 2);
    assert_eq!(
        segments[0],
        vec![bytes("frame cluster 0:"), bytes("a"), bytes("b")]
    );
    assert_eq!(segments[1], vec![bytes("frame cluster 1:"), bytes("c")]);
}

#[test]
fn lane_count_does_not_change_output() {
    let spans = vec![
        bytes(" 1 2 3"),
        bytes(" -7"),
        bytes(""),
        bytes(" 10 -20 30 -40"),
    ];
    let starts = vec![0usize, 0, 0, 0];
    let wide = scan_lanes(&spans, &starts).unwrap();
    for (lane, span) in spans.iter().enumerate() {
        let narrow = parse_space_separated_ints(span).unwrap();
        assert_eq!(wide[lane], narrow);
    }
}

#[test]
fn lanes_report_lowest_failing_lane() {
    let spans = vec![bytes(" 1 x"), bytes("bad")];
    let starts = vec![0usize, 0];
    let e = scan_lanes(&spans, &starts).unwrap_err();
    assert_eq!(e.kind, ErrorKind::NumericParse);
    assert_eq!(e.line, 0);
}
