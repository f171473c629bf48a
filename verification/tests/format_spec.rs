use incubator::format_spec::custom;
use incubator::format_spec::regexp;
use incubator::format_spec::{chars_of, number, scan_digits, Precision, Sign};

#[test]
fn parses_sign() {
    for (input, expected) in vec![
        ("", None),
        (">8.*", None),
        (">+8.*", Some(Sign::Plus)),
        ("-.1$x", Some(Sign::Minus)),
        ("a^#043.8?", None),
    ] {
        let (sign, ..) = custom::parse(input);
        assert_eq!(sign, expected);
    }
}

#[test]
fn parses_width() {
    for (input, expected) in vec![
        ("", None),
        (">8.*", Some(8)),
        (">+8.*", Some(8)),
        ("-.1$x", None),
        ("a^#043.8?", Some(43)),
    ] {
        let (_, width, _) = custom::parse(input);
        assert_eq!(width, expected);
    }
}

#[test]
fn parses_precision() {
    for (input, expected) in vec![
        ("", None),
        (">8.*", Some(Precision::Asterisk)),
        (">+8.*", Some(Precision::Asterisk)),
        ("-.1$x", Some(Precision::Argument(1))),
        ("a^#043.8?", Some(Precision::Integer(8))),
    ] {
        let (_, _, precision) = custom::parse(input);
        assert_eq!(precision, expected);
    }
}

#[test]
fn custom_point_without_precision_spoils_the_text() {
    assert_eq!(custom::parse("+12.x"), (None, None, None));
    assert_eq!(custom::parse("+12."), (None, None, None));
    assert_eq!(custom::parse("."), (None, None, None));
    assert_eq!(custom::parse("+12"), (Some(Sign::Plus), Some(12), None));
    assert_eq!(custom::parse("+12x.5"), (Some(Sign::Plus), Some(12), None));
}

#[test]
fn custom_reads_only_the_first_sign_and_run() {
    assert_eq!(custom::parse("--5"), (Some(Sign::Minus), None, None));
    assert_eq!(custom::parse("ab-007.10$"), (Some(Sign::Minus), Some(7), Some(Precision::Argument(10))));
    assert_eq!(custom::parse("ab-007.10"), (Some(Sign::Minus), Some(7), Some(Precision::Integer(10))));
    assert_eq!(custom::parse("ü+1"), (Some(Sign::Plus), Some(1), None));
    assert_eq!(custom::parse("٣+1"), (Some(Sign::Plus), Some(1), None));
    assert_eq!(custom::parse("5.*$"), (None, Some(5), Some(Precision::Asterisk)));
}

#[test]
fn characters_come_out_one_by_one() {
    assert_eq!(chars_of("aü٣+"), vec!['a', 'ü', '٣', '+']);
    assert_eq!(chars_of(""), Vec::<char>::new());
}

#[test]
fn digit_runs_end_at_the_first_other_character() {
    let chars = chars_of("12a345");
    assert_eq!(scan_digits(&chars, 0), 2);
    assert_eq!(scan_digits(&chars, 2), 2);
    assert_eq!(scan_digits(&chars, 3), 6);
    assert_eq!(scan_digits(&chars, 6), 6);
}

#[test]
fn numbers_that_do_not_fit_are_none() {
    let max = usize::MAX.to_string();
    let chars = chars_of(&max);
    assert_eq!(number(&chars, 0, chars.len()), Some(usize::MAX));
    let mut bigger = max.clone();
    bigger.push('0');
    let chars = chars_of(&bigger);
    assert_eq!(number(&chars, 0, chars.len()), None);
    let chars = chars_of("18446744073709551616");
    if usize::MAX as u128 == u64::MAX as u128 {
        assert_eq!(number(&chars, 0, chars.len()), None);
    }
    let chars = chars_of("0000000000000000000000000000042");
    assert_eq!(number(&chars, 0, chars.len()), Some(42));
    assert_eq!(number(&chars, 3, 3), Some(0));
}

#[test]
fn main_parses_sign() {
    for (input, expected) in vec![
        ("", None),
        (">8.*", None),
        (">+8.*", Some(Sign::Plus)),
        ("-.1$x", Some(Sign::Minus)),
        ("a^#043.8?", None),
    ] {
        let (sign, ..) = regexp::parse(input);
        assert_eq!(sign, expected);
    }
}

#[test]
fn main_parses_width() {
    for (input, expected) in vec![
        ("", None),
        (">8.*", Some(8)),
        (">+8.*", Some(8)),
        ("-.1$x", None),
        ("a^#043.8?", Some(43)),
    ] {
        let (_, width, _) = regexp::parse(input);
        assert_eq!(width, expected);
    }
}

#[test]
fn main_parses_precision() {
    for (input, expected) in vec![
        ("", None),
        (">8.*", Some(Precision::Asterisk)),
        (">+8.*", Some(Precision::Asterisk)),
        ("-.1$x", Some(Precision::Argument(1))),
        ("a^#043.8?", Some(Precision::Integer(8))),
    ] {
        let (_, _, precision) = regexp::parse(input);
        assert_eq!(precision, expected);
    }
}

#[test]
fn regexp_keeps_what_it_read_before_a_bare_point() {
    assert_eq!(regexp::parse("+12.x"), (Some(Sign::Plus), Some(12), None));
    assert_eq!(regexp::parse("+12."), (Some(Sign::Plus), Some(12), None));
    assert_eq!(regexp::parse("."), (None, None, None));
    assert_eq!(regexp::parse("ab-007.10$"), (Some(Sign::Minus), Some(7), Some(Precision::Argument(10))));
    assert_eq!(regexp::parse("5.*$"), (None, Some(5), Some(Precision::Asterisk)));
}

#[test]
fn regexp_stops_at_digits_of_other_scripts() {
    // the sign is searched for right behind the skipped characters, and
    // a digit of another script is not skipped
    assert_eq!(regexp::parse("٣+1"), (None, None, None));
    assert_eq!(regexp::parse("ü+1"), (Some(Sign::Plus), Some(1), None));
    assert_eq!(regexp::parse("+٣"), (Some(Sign::Plus), None, None));
}

#[test]
fn regexp_numbers_that_do_not_fit_are_none() {
    let mut text = String::from("+");
    text.push_str(&usize::MAX.to_string());
    text.push_str("0.");
    text.push_str(&usize::MAX.to_string());
    assert_eq!(
        regexp::parse(&text),
        (Some(Sign::Plus), None, Some(Precision::Integer(usize::MAX)))
    );
}

#[test]
fn captured_texts_are_read_as_the_groups_mean_them() {
    let text = |s: &str| Some(s.to_string());
    assert_eq!(
        regexp::interpret(&text("+"), &text("12"), &text("*")),
        (Some(Sign::Plus), Some(12), Some(Precision::Asterisk))
    );
    assert_eq!(
        regexp::interpret(&text("-"), &text(""), &text("3$")),
        (Some(Sign::Minus), None, Some(Precision::Argument(3)))
    );
    assert_eq!(
        regexp::interpret(&text("+-"), &text("+7"), &text("")),
        (None, Some(7), None)
    );
    assert_eq!(
        regexp::interpret(&text(""), &text("7a"), &text("$")),
        (None, None, None)
    );
    assert_eq!(
        regexp::interpret(&None, &text("+"), &text("+5$")),
        (None, None, Some(Precision::Argument(5)))
    );
    assert_eq!(regexp::interpret(&None, &None, &None), (None, None, None));
    assert_eq!(
        regexp::interpret(&None, &text("-1"), &text("**")),
        (None, None, None)
    );
}

#[test]
fn read_unsigned_reads_as_usize_does() {
    for text in ["", "+", "0", "+0", "007", "+42", "-1", "4 2", "42 ", "٣", "++1", "1+"] {
        let chars = chars_of(text);
        assert_eq!(
            regexp::read_unsigned(&chars, 0, chars.len()),
            text.parse::<usize>().ok(),
            "{:?}",
            text
        );
    }
}
