//! Tests for the tuning-configuration parser.

use drone_controller::config::parse_config;
use drone_controller::config::render_config;
use drone_controller::config::render_fixed;
use drone_controller::config::ConfigError;
use drone_controller::config::PidName;
use drone_controller::config::TuningConfig;

fn bytes(s: &str) -> Vec<u8> {
    s.as_bytes().to_vec()
}

const FULL_CONFIG: &str = "x_pid: (0.05, 0.01, 0.1)\n\
                           z_pid: (0.05, 0.01, 0.1)\n\
                           h_pid: (8.0, 1.0, 1.0)\n\
                           pitch_pid: (0.1, 0.0, 0.1)\n\
                           roll_pid: (0.1, 0.0, 0.1)\n\
                           yaw_pid: (0.02, 0.0, 0.01)\n";

/// A complete file parses, and every gain comes back exactly as written,
/// in fixed-point micro-units.
#[test]
fn round_trip_all_six_names() {
    let cfg = parse_config(&bytes(FULL_CONFIG)).unwrap();
    assert_eq!(
        cfg,
        TuningConfig {
            x_pid: (50_000, 10_000, 100_000),
            z_pid: (50_000, 10_000, 100_000),
            h_pid: (8_000_000, 1_000_000, 1_000_000),
            pitch_pid: (100_000, 0, 100_000),
            roll_pid: (100_000, 0, 100_000),
            yaw_pid: (20_000, 0, 10_000),
        }
    );
}

/// The file is unordered and the final newline is optional.
#[test]
fn order_free_and_no_trailing_newline() {
    let text = "yaw_pid: (0.02, 0.0, 0.01)\n\
                roll_pid: (0.1, 0.0, 0.1)\n\
                pitch_pid: (0.1, 0.0, 0.1)\n\
                h_pid: (8.0, 1.0, 1.0)\n\
                z_pid: (0.05, 0.01, 0.1)\n\
                x_pid: (0.05, 0.01, 0.1)";
    let cfg = parse_config(&bytes(text)).unwrap();
    assert_eq!(cfg.x_pid, (50_000, 10_000, 100_000));
    assert_eq!(cfg.yaw_pid, (20_000, 0, 10_000));
}

/// Windows line endings parse the same as plain newlines.
#[test]
fn crlf_lines_accepted() {
    let text = FULL_CONFIG.replace('\n', "\r\n");
    let cfg = parse_config(&bytes(&text)).unwrap();
    assert_eq!(cfg.h_pid, (8_000_000, 1_000_000, 1_000_000));
}

/// A file missing `yaw_pid` fails construction with a configuration error,
/// not a partially built configuration.
#[test]
fn missing_yaw_pid_rejected() {
    let text = "x_pid: (0.05, 0.01, 0.1)\n\
                z_pid: (0.05, 0.01, 0.1)\n\
                h_pid: (8.0, 1.0, 1.0)\n\
                pitch_pid: (0.1, 0.0, 0.1)\n\
                roll_pid: (0.1, 0.0, 0.1)\n";
    let err = parse_config(&bytes(text)).unwrap_err();
    assert_eq!(err, ConfigError::MissingController { name: PidName::Yaw });
}

/// An empty file misses the first name checked.
#[test]
fn empty_file_rejected() {
    let err = parse_config(&bytes("")).unwrap_err();
    assert_eq!(err, ConfigError::MissingController { name: PidName::X });
}

/// A line without parentheses is a delimiter fault carrying the zero-based
/// line number and the line's content.
#[test]
fn missing_parenthesis_rejected() {
    let text = "x_pid: (0.05, 0.01, 0.1)\nz_pid: 0.05, 0.01, 0.1\n";
    let err = parse_config(&bytes(text)).unwrap_err();
    assert_eq!(
        err,
        ConfigError::MissingDelimiter { line: 1, content: bytes("z_pid: 0.05, 0.01, 0.1") }
    );
}

/// A closing parenthesis before the opening one is a delimiter fault.
#[test]
fn inverted_parentheses_rejected() {
    let err = parse_config(&bytes("x_pid: )0.05, 0.01, 0.1(\n")).unwrap_err();
    assert!(matches!(err, ConfigError::MissingDelimiter { line: 0, .. }));
}

/// A blank line is not tolerated.
#[test]
fn blank_line_rejected() {
    let text = "x_pid: (0.05, 0.01, 0.1)\n\n";
    let err = parse_config(&bytes(text)).unwrap_err();
    assert_eq!(err, ConfigError::MissingDelimiter { line: 1, content: bytes("") });
}

/// An unparsable number is a number fault.
#[test]
fn bad_number_rejected() {
    let err = parse_config(&bytes("x_pid: (0.05, fast, 0.1)\n")).unwrap_err();
    assert!(matches!(err, ConfigError::BadNumber { line: 0, .. }));
}

/// Exponent notation is not part of the format.
#[test]
fn exponent_rejected() {
    let err = parse_config(&bytes("x_pid: (1e3, 0.01, 0.1)\n")).unwrap_err();
    assert!(matches!(err, ConfigError::BadNumber { line: 0, .. }));
}

/// A number with two points is rejected.
#[test]
fn double_point_rejected() {
    let err = parse_config(&bytes("x_pid: (1.2.3, 0.01, 0.1)\n")).unwrap_err();
    assert!(matches!(err, ConfigError::BadNumber { line: 0, .. }));
}

/// A bare sign with no digits is rejected.
#[test]
fn sign_without_digits_rejected() {
    let err = parse_config(&bytes("x_pid: (-, 0.01, 0.1)\n")).unwrap_err();
    assert!(matches!(err, ConfigError::BadNumber { line: 0, .. }));
    let err = parse_config(&bytes("x_pid: (., 0.01, 0.1)\n")).unwrap_err();
    assert!(matches!(err, ConfigError::BadNumber { line: 0, .. }));
}

/// An integer part of a trillion units or more does not fit the
/// fixed-point range and is rejected.
#[test]
fn oversized_number_rejected() {
    let err = parse_config(&bytes("x_pid: (1000000000000, 0, 0)\n")).unwrap_err();
    assert!(matches!(err, ConfigError::BadNumber { line: 0, .. }));
}

/// Too few or too many parameters is a count fault.
#[test]
fn wrong_parameter_count_rejected() {
    let err = parse_config(&bytes("x_pid: (0.05, 0.01)\n")).unwrap_err();
    assert!(matches!(err, ConfigError::WrongParamCount { line: 0, .. }));
    let err = parse_config(&bytes("x_pid: (1, 2, 3, 4)\n")).unwrap_err();
    assert!(matches!(err, ConfigError::WrongParamCount { line: 0, .. }));
}

/// A name outside the six controller names is rejected.
#[test]
fn unknown_name_rejected() {
    let err = parse_config(&bytes("w_pid: (0.05, 0.01, 0.1)\n")).unwrap_err();
    assert_eq!(
        err,
        ConfigError::UnknownName { line: 0, content: bytes("w_pid: (0.05, 0.01, 0.1)") }
    );
}

/// A repeated name keeps the last triple.
#[test]
fn duplicate_name_last_write_wins() {
    let text = format!("{}x_pid: (9.5, 0.0, 0.0)\n", FULL_CONFIG);
    let cfg = parse_config(&bytes(&text)).unwrap();
    assert_eq!(cfg.x_pid, (9_500_000, 0, 0));
}

/// Number shapes: leading point, trailing point, explicit plus, leading
/// zeros, and fraction digits beyond the sixth (which are truncated).
#[test]
fn number_shapes() {
    let text = "x_pid: (.5, 1., +2)\n\
                z_pid: (0007, -0.25, -3.5)\n\
                h_pid: (1.2345678, 0.000001, 0.0000009)\n\
                pitch_pid: (0, 0, 0)\n\
                roll_pid: (999999999999, 0, 0)\n\
                yaw_pid: (-999999999999.999999, 0, 0)\n";
    let cfg = parse_config(&bytes(text)).unwrap();
    assert_eq!(cfg.x_pid, (500_000, 1_000_000, 2_000_000));
    assert_eq!(cfg.z_pid, (7_000_000, -250_000, -3_500_000));
    assert_eq!(cfg.h_pid, (1_234_567, 1, 0));
    assert_eq!(cfg.pitch_pid, (0, 0, 0));
    assert_eq!(cfg.roll_pid, (999_999_999_999_000_000, 0, 0));
    assert_eq!(cfg.yaw_pid, (-999_999_999_999_999_999, 0, 0));
}

/// A tuning file generated from arbitrary gain triples parses back to
/// exactly those triples, bit for bit.
#[test]
fn generated_file_round_trips() {
    let source = TuningConfig {
        x_pid: (50_000, 10_000, 100_000),
        z_pid: (-123_456_789, 0, 1),
        h_pid: (8_000_000, 1_000_000, 1_000_000),
        pitch_pid: (999_999_999_999_999_999, -999_999_999_999_999_999, 7),
        roll_pid: (0, -1, 333_333),
        yaw_pid: (20_000, 0, 10_000),
    };
    let mut file: Vec<u8> = Vec::new();
    let names: [(&str, (i64, i64, i64)); 6] = [
        ("x_pid", source.x_pid),
        ("z_pid", source.z_pid),
        ("h_pid", source.h_pid),
        ("pitch_pid", source.pitch_pid),
        ("roll_pid", source.roll_pid),
        ("yaw_pid", source.yaw_pid),
    ];
    for (name, (kp, ki, kd)) in names {
        file.extend_from_slice(name.as_bytes());
        file.extend_from_slice(b": (");
        file.extend_from_slice(&render_fixed(kp));
        file.extend_from_slice(b", ");
        file.extend_from_slice(&render_fixed(ki));
        file.extend_from_slice(b", ");
        file.extend_from_slice(&render_fixed(kd));
        file.extend_from_slice(b")\n");
    }
    let parsed = parse_config(&file).unwrap();
    assert_eq!(parsed, source);
}

/// Rendering a configuration and parsing it back is the identity.
#[test]
fn render_config_round_trips() {
    let source = TuningConfig {
        x_pid: (1, -1, 0),
        z_pid: (999_999_999_999_999_999, -999_999_999_999_999_999, 42),
        h_pid: (8_000_000, 1_000_000, 1_000_000),
        pitch_pid: (-7, 123_456_789_012_345, 100_000),
        roll_pid: (0, 0, 0),
        yaw_pid: (20_000, -10, 10_000),
    };
    let file = render_config(&source);
    assert_eq!(parse_config(&file).unwrap(), source);
}

/// The renderer writes a fixed-width decimal token.
#[test]
fn render_fixed_format() {
    assert_eq!(render_fixed(50_000), b"000000000000.050000".to_vec());
    assert_eq!(render_fixed(-1), b"-000000000000.000001".to_vec());
    assert_eq!(render_fixed(8_000_000), b"000000000008.000000".to_vec());
}

/// Whitespace around names and numbers is trimmed; text between the name
/// and the opening parenthesis is ignored.
#[test]
fn whitespace_tolerated() {
    let text = "  x_pid  : ignored ( 0.05 ,\t0.01 , 0.1 )\n\
                z_pid: (0.05, 0.01, 0.1)\n\
                h_pid: (8.0, 1.0, 1.0)\n\
                pitch_pid: (0.1, 0.0, 0.1)\n\
                roll_pid: (0.1, 0.0, 0.1)\n\
                yaw_pid: (0.02, 0.0, 0.01)\n";
    let cfg = parse_config(&bytes(text)).unwrap();
    assert_eq!(cfg.x_pid, (50_000, 10_000, 100_000));
}
