use gtav_coordinate_lookup::cli::{
    output_field_key, parse_args, parse_output_selection, ArgError, Command, Config,
    OutputError, OutputField, OutputSelection,
};
use gtav_coordinate_lookup::coords::{CoordinateError, CoordinateInput};

fn args(list: &[&str]) -> Vec<String> {
    list.iter().map(|w| w.to_string()).collect()
}

/// Whether each word reads as a number below zero, as the program works it out.
fn below_zero(list: &[String]) -> Vec<bool> {
    list.iter()
        .map(|w| w.parse::<f64>().map_or(false, |v| v < 0.0))
        .collect()
}

fn run(list: &[&str]) -> Result<Command, ArgError> {
    let a = args(list);
    let b = below_zero(&a);
    parse_args(a, b)
}

fn lookup(list: &[&str]) -> Config {
    match run(list) {
        Ok(Command::Lookup(config)) => config,
        Ok(Command::Help) => panic!("unexpected help"),
        Err(e) => panic!("refused: {}", e.message()),
    }
}

fn error(list: &[&str]) -> ArgError {
    match run(list) {
        Err(e) => e,
        Ok(_) => panic!("expected an error"),
    }
}

#[test]
fn defaults_to_full_json_output() {
    let config = lookup(&["-1037.5", "-2737.8", "20.2"]);

    assert_eq!(config.output, OutputSelection::AllJson);
}

#[test]
fn parses_output_field_parameter() {
    let config = lookup(&["--output", "road,intersection", "-1037.5", "-2737.8", "20.2"]);

    assert_eq!(
        config.output,
        OutputSelection::Fields(vec![OutputField::Road, OutputField::Intersection])
    );
}

#[test]
fn negative_numbers_are_coordinates_not_options() {
    let config = lookup(&["-1037.5", "-2737.8", "20.2"]);
    match config.coordinates {
        CoordinateInput::Text(t) => {
            assert_eq!(t.x, "-1037.5");
            assert_eq!(t.y, "-2737.8");
            assert_eq!(t.z, "20.2");
        }
        _ => panic!("expected text coordinates"),
    }
    assert!(config.street_radius.is_none());
}

#[test]
fn help_anywhere_wins() {
    assert!(matches!(run(&["1", "2", "3", "-h"]), Ok(Command::Help)));
    assert!(matches!(run(&["--bogus", "--help"]), Ok(Command::Help)));
}

#[test]
fn street_radius_is_kept_as_number_text() {
    let config = lookup(&["--street-radius", "30", "-o", "road", "1", "2", "3"]);
    assert_eq!(config.street_radius, Some("30".to_string()));
    assert_eq!(config.output, OutputSelection::Fields(vec![OutputField::Road]));
}

#[test]
fn street_radius_errors() {
    assert!(matches!(error(&["1", "2", "3", "--street-radius"]), ArgError::RadiusMissing));
    assert!(matches!(error(&["--street-radius", "far", "1", "2", "3"]), ArgError::RadiusInvalid));
    assert!(matches!(error(&["--street-radius", "-5", "1", "2", "3"]), ArgError::RadiusNegative));
    // A negative radius is refused at once, before later errors.
    assert!(matches!(
        error(&["--street-radius", "-5", "--output", "bogus"]),
        ArgError::RadiusNegative
    ));
    // Negative zero is not below zero.
    let config = lookup(&["--street-radius", "-0.0", "1", "2", "3"]);
    assert_eq!(config.street_radius, Some("-0.0".to_string()));
}

#[test]
fn output_errors() {
    assert!(matches!(error(&["1", "2", "3", "--output"]), ArgError::OutputMissing));
    assert!(matches!(error(&["-o", "road,", "1", "2", "3"]), ArgError::Output(OutputError::EmptyField)));
    match error(&["-o", "road, street", "1", "2", "3"]) {
        ArgError::Output(OutputError::InvalidField(f)) => assert_eq!(f, "street"),
        _ => panic!("expected an invalid field"),
    }
}

#[test]
fn unknown_option() {
    match error(&["--verbose", "1", "2", "3"]) {
        ArgError::UnknownOption(o) => assert_eq!(o, "--verbose"),
        _ => panic!("expected an unknown option"),
    }
}

#[test]
fn coordinate_errors_are_passed_on() {
    assert!(matches!(error(&[]), ArgError::Coordinates(CoordinateError::Missing)));
    assert!(matches!(
        error(&["-o", "road"]),
        ArgError::Coordinates(CoordinateError::Missing)
    ));
}

#[test]
fn output_selection_values() {
    assert_eq!(parse_output_selection("json").ok(), Some(OutputSelection::AllJson));
    assert_eq!(parse_output_selection("all").ok(), Some(OutputSelection::AllJson));
    assert_eq!(
        parse_output_selection(" road ,zone-code,road, zone-name").ok(),
        Some(OutputSelection::Fields(vec![
            OutputField::Road,
            OutputField::ZoneCode,
            OutputField::ZoneName
        ]))
    );
    assert!(matches!(parse_output_selection(""), Err(OutputError::EmptyField)));
    assert!(matches!(parse_output_selection("JSON"), Err(OutputError::InvalidField(_))));
}

#[test]
fn field_keys() {
    assert_eq!(output_field_key(OutputField::ZoneCode), "zoneCode");
    assert_eq!(output_field_key(OutputField::ZoneName), "zoneName");
    assert_eq!(output_field_key(OutputField::Road), "road");
    assert_eq!(output_field_key(OutputField::Intersection), "intersection");
}

#[test]
fn error_messages() {
    assert_eq!(error(&["--verbose"]).message(), "unknown option: --verbose");
    assert_eq!(
        error(&["--street-radius", "-1", "1", "2", "3"]).message(),
        "--street-radius cannot be negative"
    );
    assert_eq!(
        error(&["-o", "x", "1", "2", "3"]).message(),
        "invalid output field: x. Use zone-code, zone-name, road, intersection, or json"
    );
    assert_eq!(error(&["x=1", "y=a", "z=3"]).message(), "invalid y coordinate: a");
    assert_eq!(error(&["x=1"]).message(), "expected x=, y= and z= coordinates");
    assert_eq!(error(&[]).message(), "expected coordinates: x y z");
    assert_eq!(
        error(&["1"]).message(),
        "expected coordinates as x y z, x,y,z, vec(...), vec3(...), vec4(...), x=... y=... z=..., {\"x\":...}, or [x,y,z]"
    );
}
