use mandelbrot::bounds::{parse_bounds, split_bounds, BoundsError};

fn number(field: &str) -> Option<f32> {
    field.parse::<f32>().ok()
}

#[test]
fn default_viewport_text_is_read() {
    assert_eq!(parse_bounds("-2.0;2.0;-1.5;1.5", number), Ok((-2.0, 2.0, -1.5, 1.5)));
    assert_eq!(parse_bounds("1;2;3;4", number), Ok((1.0, 2.0, 3.0, 4.0)));
    assert_eq!(parse_bounds("-0.75;-0.5;1e-2;.25", number), Ok((-0.75, -0.5, 0.01, 0.25)));
}

#[test]
fn three_fields_are_refused() {
    assert_eq!(parse_bounds("1;2;3", number), Err(BoundsError::Format));
}

#[test]
fn non_numeric_field_is_refused() {
    assert_eq!(parse_bounds("a;2;3;4", number), Err(BoundsError::Xmin));
}

#[test]
fn each_field_has_its_own_error() {
    assert_eq!(parse_bounds("x;2;3;4", number), Err(BoundsError::Xmin));
    assert_eq!(parse_bounds("1;x;3;4", number), Err(BoundsError::Xmax));
    assert_eq!(parse_bounds("1;2;x;4", number), Err(BoundsError::Ymin));
    assert_eq!(parse_bounds("1;2;3;x", number), Err(BoundsError::Ymax));
}

#[test]
fn first_unreadable_field_decides() {
    assert_eq!(parse_bounds("x;y;z;w", number), Err(BoundsError::Xmin));
    assert_eq!(parse_bounds("1;y;z;w", number), Err(BoundsError::Xmax));
    assert_eq!(parse_bounds("1;2;z;w", number), Err(BoundsError::Ymin));
}

#[test]
fn wrong_field_counts_are_refused() {
    for text in ["", "1", "1;2", "1;2;3", "1;2;3;4;5", ";;;;", "1;2;3;4;", ";1;2;3;4", "x;y"] {
        assert_eq!(parse_bounds(text, number), Err(BoundsError::Format), "{:?}", text);
    }
}

#[test]
fn fields_are_not_trimmed() {
    assert_eq!(parse_bounds(" 1;2;3;4", number), Err(BoundsError::Xmin));
    assert_eq!(parse_bounds("1;2;3;4\n", number), Err(BoundsError::Ymax));
    assert_eq!(parse_bounds(";;;", number), Err(BoundsError::Xmin));
    assert_eq!(parse_bounds("1;;3;4", number), Err(BoundsError::Xmax));
}

#[test]
fn split_gives_the_four_fields() {
    let fields = split_bounds("-2.0;2.0;-1.5;1.5").ok().unwrap();
    assert_eq!((fields.xmin, fields.xmax, fields.ymin, fields.ymax), ("-2.0", "2.0", "-1.5", "1.5"));
    let empty = split_bounds(";;;").ok().unwrap();
    assert_eq!((empty.xmin, empty.xmax, empty.ymin, empty.ymax), ("", "", "", ""));
    let mixed = split_bounds("a;;b c;").ok().unwrap();
    assert_eq!((mixed.xmin, mixed.xmax, mixed.ymin, mixed.ymax), ("a", "", "b c", ""));
}

#[test]
fn split_counts_characters_not_bytes() {
    let fields = split_bounds("\u{e9}t\u{e9};\u{4e16}\u{754c};\u{1f600};z").ok().unwrap();
    assert_eq!(fields.xmin, "\u{e9}t\u{e9}");
    assert_eq!(fields.xmax, "\u{4e16}\u{754c}");
    assert_eq!(fields.ymin, "\u{1f600}");
    assert_eq!(fields.ymax, "z");
    assert_eq!(parse_bounds("\u{e9};1;2;3", number), Err(BoundsError::Xmin));
}

#[test]
fn split_refuses_other_counts() {
    assert!(matches!(split_bounds(""), Err(BoundsError::Format)));
    assert!(matches!(split_bounds("1;2;3"), Err(BoundsError::Format)));
    assert!(matches!(split_bounds("1;2;3;4;5"), Err(BoundsError::Format)));
}

#[test]
fn reader_is_the_callers() {
    let integer = |field: &str| field.parse::<i64>().ok();
    assert_eq!(parse_bounds("1;-2;3;4", integer), Ok((1, -2, 3, 4)));
    assert_eq!(parse_bounds("1;2.5;3;4", integer), Err(BoundsError::Xmax));
    let length = |field: &str| Some(field.len());
    assert_eq!(parse_bounds("a;bb;;dddd", length), Ok((1, 2, 0, 4)));
}

#[test]
fn bounds_errors_have_messages() {
    assert_eq!(BoundsError::Format.message(), "Input must be in the format xmin;xmax;ymin;ymax");
    assert_eq!(BoundsError::Xmin.message(), "Error parsing xmin");
    assert_eq!(BoundsError::Xmax.message(), "Error parsing xmax");
    assert_eq!(BoundsError::Ymin.message(), "Error parsing ymin");
    assert_eq!(BoundsError::Ymax.message(), "Error parsing ymax");
}
