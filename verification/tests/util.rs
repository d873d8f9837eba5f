use humble_cli::util::{
    byte_string_to_number, extract_filename_from_url, humanize_bytes, parse_usize_range,
    replace_invalid_chars_in_filename, str_vectors_intersect, union_usize_ranges,
};

#[test]
fn test_remove_invalid_chars() {
    let test_data = vec![
        ("Humble Bundle: Nice book", "Humble Bundle  Nice book"),
        ("::Make::", "Make"),
        ("Test\nFile", "Test File"),
    ];

    for (input, expected) in test_data {
        let got = replace_invalid_chars_in_filename(input);
        assert_eq!(expected, got);
    }
}

#[test]
fn test_extract_filename_from_url() {
    let test_data = vec![(
        "with filename",
        "https://dl.humble.com/grokkingalgorithms.mobi?gamekey=xxxxxx&ttl=1655031034&t=yyyyyyyyyy",
        Some("grokkingalgorithms.mobi".to_string()),
    ), (
        "no filename",
        "https://www.google.com/",
        None
    )];

    for (name, url, expected) in test_data {
        assert_eq!(
            extract_filename_from_url(url),
            expected,
            "test case '{}'",
            name
        );
    }
}

#[test]
fn test_humanize_bytes() {
    let test_data = vec![(1, "1 B"), (3 * 1024, "3.00 KiB")];

    for (input, want) in test_data {
        assert_eq!(humanize_bytes(input), want.to_string());
    }
}

#[test]
fn test_vectors_intersect() {
    let test_data = vec![
        (vec!["FOO", "bar"], vec!["foo"], true),
        (vec!["foo", "bar"], vec!["baz"], false),
        (vec!["foo"], vec![], false),
        (vec![], vec!["baz"], false),
    ];

    for (first, second, result) in test_data {
        let msg = format!(
            "intersect of {:?} and {:?}, expected: {}",
            first, second, result
        );
        assert_eq!(str_vectors_intersect(&first, &second), result, "{}", msg);
    }
}

#[test]
fn test_parse_usize_range() {
    const MAX_VAL: usize = 50;

    let test_data = vec![
        ("empty string", "", None),
        ("invalid string", "abcd", None),
        ("single value", "42", Some(vec![42])),
        (
            "range with start and end",
            "5-10",
            Some(vec![5, 6, 7, 8, 9, 10]),
        ),
        ("range with no start", "-5", Some(vec![1, 2, 3, 4, 5])),
        (
            "range with no end",
            "45-",
            Some(vec![45, 46, 47, 48, 49, 50]),
        ), // 50 is MAX_VAL
        ("invalid start", "abc-", None),
        ("invalid end", "-abc", None),
        ("invalid start and end", "abc-def", None),
    ];

    for (name, input, expected) in test_data {
        let msg = format!(
            "'{}' failed: input = {}, expected = {:?}",
            name, input, &expected
        );
        assert_eq!(parse_usize_range(input, MAX_VAL), expected, "{}", msg);
    }
}

#[test]
fn test_union_valid_usize_ranges() {
    const MAX_VAL: usize = 10;
    let test_data = vec![
        ("simple values", vec!["5", "10"], vec![5, 10]),
        ("simple value and range", vec!["8", "7-"], vec![7, 8, 9, 10]),
        ("two ranges", vec!["-3", "7-"], vec![1, 2, 3, 7, 8, 9, 10]),
    ];

    for (name, input, expected) in test_data {
        let output = union_usize_ranges(&input, MAX_VAL);

        let msg = format!(
            "'{}' failed: input = {:?}, expected = {:?}",
            name, &input, &expected
        );

        assert!(output.is_ok(), "{}", msg);
        assert_eq!(output.unwrap(), expected, "{}", msg);
    }
}

#[test]
fn test_union_invalid_usize_ranges() {
    const MAX_VAL: usize = 10;
    let test_data = vec![
        ("invalid simple values", vec!["a", "b"]),
        ("invalid ranges", vec!["a-", "-b"]),
    ];

    for (name, input) in test_data {
        // expected error message
        let expected_err_msg = input
            .iter()
            .map(|v| format!("'{}'", v))
            .collect::<Vec<_>>()
            .join(", ");

        let output = union_usize_ranges(&input, MAX_VAL);

        let assert_msg = format!(
            "'{}' failed: input = {:?}, expected = {:?}",
            name, &input, &expected_err_msg
        );

        assert!(output.is_err(), "{}", assert_msg);
        let output_err_msg: String = output.unwrap_err();
        assert_eq!(output_err_msg, expected_err_msg, "{}", assert_msg);
    }
}

#[test]
fn byte_string_to_number_reads_units() {
    assert_eq!(byte_string_to_number("10MB"), Some(10_000_000));
    assert_eq!(byte_string_to_number("4GiB"), Some(4 * 1024 * 1024 * 1024));
    assert_eq!(byte_string_to_number("12"), Some(12));
    assert_eq!(byte_string_to_number("lots"), None);
}
