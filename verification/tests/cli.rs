use ergogen::cli::{find_bundle_config, parse_hex_color, should_insert_render};
use ergogen::cli_error::{CliError, ErrorCode};

fn args(v: &[&str]) -> Vec<String> {
    v.iter().map(|s| s.to_string()).collect()
}

#[test]
fn error_codes_map_to_exit_statuses() {
    assert_eq!(ErrorCode::Usage.exit_status(), 1);
    assert_eq!(ErrorCode::Input.exit_status(), 2);
    assert_eq!(ErrorCode::Processing.exit_status(), 3);
}

#[test]
fn error_constructors_keep_code_and_message() {
    let e = CliError::usage("bad flag".to_string());
    assert_eq!(e.code, ErrorCode::Usage);
    assert_eq!(e.to_string(), "bad flag");
    let e = CliError::input("no file".to_string());
    assert_eq!(e.code, ErrorCode::Input);
    assert_eq!(e.message, "no file");
    let e = CliError::processing("boom".to_string());
    assert_eq!(e.code, ErrorCode::Processing);
}

#[test]
fn render_is_inserted_before_a_bare_input() {
    assert!(should_insert_render(&args(&["ergogen", "config.yaml"])));
    assert!(should_insert_render(&args(&["ergogen", "-d", "config.yaml"])));
    assert!(should_insert_render(&args(&["ergogen", "--", "-weird.yaml"])));
}

#[test]
fn render_is_not_inserted_when_a_subcommand_is_given() {
    assert!(!should_insert_render(&args(&["ergogen", "render", "x.yaml"])));
    assert!(!should_insert_render(&args(&["ergogen", "dxf2png", "x.dxf"])));
    assert!(!should_insert_render(&args(&["ergogen", "--help"])));
    assert!(!should_insert_render(&args(&["ergogen"])));
    assert!(!should_insert_render(&args(&[])));
}

#[test]
fn bundle_config_choice() {
    assert_eq!(find_bundle_config(true, false), Ok("config.yaml".to_string()));
    assert_eq!(find_bundle_config(false, true), Ok("config.yml".to_string()));
    assert_eq!(
        find_bundle_config(true, true),
        Err("Ambiguous config in bundle!".to_string())
    );
    assert_eq!(
        find_bundle_config(false, false),
        Err("Missing config in bundle (expected config.yaml or config.yml)".to_string())
    );
}

#[test]
fn hex_colors() {
    assert_eq!(parse_hex_color("ffffff"), Ok([255, 255, 255, 255]));
    assert_eq!(parse_hex_color("#000000"), Ok([0, 0, 0, 255]));
    assert_eq!(parse_hex_color("##102030"), Ok([16, 32, 48, 255]));
    assert_eq!(parse_hex_color("10203040"), Ok([16, 32, 48, 64]));
    assert_eq!(parse_hex_color("+f+f+f"), Ok([15, 15, 15, 255]));
    assert_eq!(parse_hex_color("AbCdEf"), Ok([171, 205, 239, 255]));
}

#[test]
fn hex_color_errors() {
    assert_eq!(
        parse_hex_color("fff"),
        Err("expected 6 or 8 hex digits".to_string())
    );
    assert_eq!(parse_hex_color("zz0000"), Err("invalid red component".to_string()));
    assert_eq!(parse_hex_color("00zz00"), Err("invalid green component".to_string()));
    assert_eq!(parse_hex_color("0000zz"), Err("invalid blue component".to_string()));
    assert_eq!(
        parse_hex_color("000000zz"),
        Err("invalid alpha component".to_string())
    );
}
