use gtav_coordinate_lookup::coords::{
    extract_numbers, json_coordinates_text, looks_like_coordinate_token, parse_coordinates,
    parse_key_value_coordinates, parse_numeric_coordinates, set_coordinate_value,
    strip_vector_wrapper, CoordinateError, CoordinateInput, CoordinateText,
};

fn words(list: &[&str]) -> Vec<String> {
    list.iter().map(|w| w.to_string()).collect()
}

fn text_point(list: &[&str]) -> CoordinateText {
    match parse_coordinates(&words(list)) {
        Ok(CoordinateInput::Text(t)) => t,
        Ok(CoordinateInput::Json(j)) => panic!("unexpected JSON: {j}"),
        Err(_) => panic!("coordinates refused"),
    }
}

fn value(t: &str) -> f64 {
    t.parse::<f64>().unwrap()
}

fn assert_point(t: &CoordinateText, x: f64, y: f64, z: f64) {
    assert_eq!(value(&t.x), x);
    assert_eq!(value(&t.y), y);
    assert_eq!(value(&t.z), z);
}

#[test]
fn parses_comma_separated_coordinates() {
    let point = text_point(&["-1037.5,-2737.8,20.2"]);

    assert_eq!(value(&point.x), -1037.5);
    assert_eq!(value(&point.y), -2737.8);
    assert_eq!(value(&point.z), 20.2);
}

#[test]
fn parses_spaced_comma_coordinates() {
    let point = text_point(&["-1037.5,", "-2737.8,", "20.2"]);

    assert_eq!(value(&point.x), -1037.5);
    assert_eq!(value(&point.y), -2737.8);
    assert_eq!(value(&point.z), 20.2);
}

#[test]
fn parses_vector_coordinates() {
    let point = text_point(&["vec3(-1037.5, -2737.8, 20.2)"]);

    assert_eq!(value(&point.x), -1037.5);
    assert_eq!(value(&point.y), -2737.8);
    assert_eq!(value(&point.z), 20.2);
}

#[test]
fn parses_vec4_coordinates_and_ignores_w() {
    let point = text_point(&["vec4(-1037.5, -2737.8, 20.2, 999.0)"]);

    assert_eq!(value(&point.x), -1037.5);
    assert_eq!(value(&point.y), -2737.8);
    assert_eq!(value(&point.z), 20.2);
}

#[test]
fn parses_vec_coordinates_with_w_and_ignores_w() {
    let point = text_point(&["vec(-1037.5, -2737.8, 20.2, 999.0)"]);

    assert_eq!(value(&point.x), -1037.5);
    assert_eq!(value(&point.y), -2737.8);
    assert_eq!(value(&point.z), 20.2);
}

#[test]
fn parses_key_value_coordinates() {
    let point = text_point(&["x=-1037.5", "y=-2737.8", "z=20.2"]);

    assert_eq!(value(&point.x), -1037.5);
    assert_eq!(value(&point.y), -2737.8);
    assert_eq!(value(&point.z), 20.2);
}

#[test]
fn plain_words_give_their_number_text() {
    let point = text_point(&["-1037.5", "-2737.8", "20.2"]);
    assert_eq!(point.x, "-1037.5");
    assert_eq!(point.y, "-2737.8");
    assert_eq!(point.z, "20.2");
}

#[test]
fn vector_prefixes_in_any_case() {
    assert_point(&text_point(&["VECTOR3(1, 2, 3)"]), 1.0, 2.0, 3.0);
    assert_point(&text_point(&["vector4(1, 2, 3, 4)"]), 1.0, 2.0, 3.0);
    assert_point(&text_point(&["Vec3", "(1,", "2,", "3)"]), 1.0, 2.0, 3.0);
}

#[test]
fn four_plain_numbers_are_refused() {
    assert!(matches!(
        parse_coordinates(&words(&["1", "2", "3", "4"])),
        Err(CoordinateError::Unrecognized)
    ));
}

#[test]
fn two_numbers_are_refused() {
    assert!(matches!(
        parse_coordinates(&words(&["1", "2"])),
        Err(CoordinateError::Unrecognized)
    ));
}

#[test]
fn no_words_are_refused() {
    assert!(matches!(
        parse_coordinates(&[]),
        Err(CoordinateError::Missing)
    ));
}

#[test]
fn runs_that_are_not_numbers_are_skipped() {
    // "1e" and "--" do not read as numbers.
    assert_point(&text_point(&["a1e", "--", "5", "6.5", "+7"]), 5.0, 6.5, 7.0);
}

#[test]
fn key_value_with_spaced_equals() {
    assert_point(&text_point(&["x", "=", "1", "Y", "=", "2", "z=3"]), 1.0, 2.0, 3.0);
}

#[test]
fn key_value_with_value_in_next_word() {
    assert_point(&text_point(&["x=", "4", "y=5", "z=6"]), 4.0, 5.0, 6.0);
}

#[test]
fn key_value_uppercase_keys_and_parentheses() {
    assert_point(&text_point(&["(X=1,", "Y=2,", "Z=3)"]), 1.0, 2.0, 3.0);
}

#[test]
fn key_value_bad_number_is_reported_with_its_key() {
    match parse_coordinates(&words(&["x=1", "w=abc", "y=2", "z=3"])) {
        Err(CoordinateError::InvalidValue { key, value }) => {
            assert_eq!(key, "w");
            assert_eq!(value, "abc");
        }
        _ => panic!("expected an invalid value"),
    }
}

#[test]
fn key_value_missing_axis_is_incomplete() {
    assert!(matches!(
        parse_coordinates(&words(&["x=1", "y=2"])),
        Err(CoordinateError::IncompleteKeyValue)
    ));
}

#[test]
fn json_text_is_handed_on_trimmed() {
    match parse_coordinates(&words(&["  {\"x\":-1037.5,", "\"y\":-2737.8,\"z\":20.2}  "])) {
        Ok(CoordinateInput::Json(t)) => assert_eq!(t, "{\"x\":-1037.5, \"y\":-2737.8,\"z\":20.2}"),
        _ => panic!("expected JSON"),
    }
    match parse_coordinates(&words(&["[-1037.5,-2737.8,20.2,0.0]"])) {
        Ok(CoordinateInput::Json(t)) => assert_eq!(t, "[-1037.5,-2737.8,20.2,0.0]"),
        _ => panic!("expected JSON"),
    }
}

#[test]
fn coordinate_like_tokens() {
    assert!(looks_like_coordinate_token("-1.5"));
    assert!(looks_like_coordinate_token("-.5"));
    assert!(looks_like_coordinate_token("(-3,"));
    assert!(looks_like_coordinate_token("[[-3"));
    assert!(!looks_like_coordinate_token("--output"));
    assert!(!looks_like_coordinate_token("-x"));
    assert!(!looks_like_coordinate_token("-"));
    assert!(!looks_like_coordinate_token("5"));
}

#[test]
fn vector_wrapper_is_stripped() {
    assert_eq!(strip_vector_wrapper("  vec4 (1, 2, 3, 4) "), ("1, 2, 3, 4".to_string(), true));
    assert_eq!(strip_vector_wrapper("VEC(1,2,3"), ("(1,2,3".to_string(), true));
    assert_eq!(strip_vector_wrapper("vector3()"), ("".to_string(), true));
    assert_eq!(strip_vector_wrapper("  1 2 3 "), ("1 2 3".to_string(), false));
}

#[test]
fn numbers_are_extracted() {
    assert_eq!(
        extract_numbers("1e5,-2.5e-3 x +4 e -"),
        vec!["1e5".to_string(), "-2.5e-3".to_string(), "+4".to_string()]
    );
    assert!(extract_numbers("no digits").is_empty());
}

#[test]
fn key_value_only_with_equals() {
    assert!(parse_key_value_coordinates("1 2 3").is_none());
    assert!(matches!(
        parse_key_value_coordinates("x=1 y=2 z=3"),
        Some(Ok(CoordinateText { .. }))
    ));
    assert!(matches!(
        parse_numeric_coordinates("vec(1, 2)"),
        Err(CoordinateError::Unrecognized)
    ));
}

#[test]
fn json_text_detection() {
    assert_eq!(json_coordinates_text(" [1,2,3] "), Some("[1,2,3]".to_string()));
    assert_eq!(json_coordinates_text("1,2,3"), None);
}

#[test]
fn coordinate_values_are_checked_whatever_the_key() {
    let (mut x, mut y, mut z) = (None, None, None);
    assert!(set_coordinate_value("x", "1.5", &mut x, &mut y, &mut z).is_ok());
    assert!(set_coordinate_value("w", "2", &mut x, &mut y, &mut z).is_ok());
    assert!(set_coordinate_value("w", "two", &mut x, &mut y, &mut z).is_err());
    assert_eq!(x, Some("1.5".to_string()));
    assert_eq!(y, None);
    assert_eq!(z, None);
}

#[test]
fn invalid_coordinate_value_changes_nothing() {
    let (mut x, mut y, mut z) = (Some("1".to_string()), Some("2".to_string()), None);
    for key in ["x", "y", "z", "w"] {
        assert!(set_coordinate_value(key, "1e", &mut x, &mut y, &mut z).is_err());
    }
    assert_eq!(x, Some("1".to_string()));
    assert_eq!(y, Some("2".to_string()));
    assert_eq!(z, None);
}
