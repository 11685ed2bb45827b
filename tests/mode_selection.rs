use optimize_examples::mode::USAGE;
use optimize_examples::ModeParser;

fn args(items: &[&str]) -> Vec<String> {
    items.iter().map(|s| s.to_string()).collect()
}

#[test]
fn no_extra_arguments_select_no_mode() {
    assert_eq!(ModeParser::parse(&args(&["bench"])), Ok(None));
}

#[test]
fn mode_flag_selects_the_given_name() {
    assert_eq!(
        ModeParser::parse(&args(&["bench", "--mode", "padded"])),
        Ok(Some("padded".to_string()))
    );
    assert_eq!(
        ModeParser::parse(&args(&["bench", "--mode", "reuse"])),
        Ok(Some("reuse".to_string()))
    );
}

#[test]
fn mode_flag_accepts_any_string() {
    for name in ["", "x", "--mode", "not a known mode", "ünïcödé"] {
        assert_eq!(
            ModeParser::parse(&args(&["bench", "--mode", name])),
            Ok(Some(name.to_string()))
        );
    }
}

#[test]
fn other_shapes_are_usage_errors() {
    let expected = Err("invalid usage, example: <bin_name> --mode <mode_name>".to_string());
    assert_eq!(ModeParser::parse(&args(&[])), expected);
    assert_eq!(ModeParser::parse(&args(&["bench", "--mode"])), expected);
    assert_eq!(ModeParser::parse(&args(&["bench", "padded"])), expected);
    assert_eq!(ModeParser::parse(&args(&["bench", "--mod", "padded"])), expected);
    assert_eq!(ModeParser::parse(&args(&["bench", "-m", "padded"])), expected);
    assert_eq!(
        ModeParser::parse(&args(&["bench", "--mode", "padded", "extra"])),
        expected
    );
    assert_eq!(USAGE, "invalid usage, example: <bin_name> --mode <mode_name>");
}
