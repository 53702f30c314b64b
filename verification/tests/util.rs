use rift_wm::common::util::{flag_value_is_false, parse_command, split_command};

fn strings(parts: &[&str]) -> Vec<String> {
    parts.iter().map(|s| s.to_string()).collect()
}

#[test]
fn parse_command_splits_on_blanks() {
    assert_eq!(parse_command("open -a  Safari"), strings(&["open", "-a", "Safari"]));
    assert_eq!(parse_command("\tone\ttwo "), strings(&["one", "two"]));
    assert_eq!(parse_command(""), Vec::<String>::new());
    assert_eq!(parse_command("   \t "), Vec::<String>::new());
}

#[test]
fn parse_command_groups_quoted_text() {
    assert_eq!(
        parse_command("open -a 'Google Chrome'"),
        strings(&["open", "-a", "Google Chrome"])
    );
    assert_eq!(parse_command("echo \"a b\"c"), strings(&["echo", "a bc"]));
    // Either quote character closes quoting.
    assert_eq!(parse_command("say 'mixed\" quotes"), strings(&["say", "mixed", "quotes"]));
    // An empty quoted string does not make a part.
    assert_eq!(parse_command("x '' y"), strings(&["x", "y"]));
}

#[test]
fn parse_command_escapes_inside_quotes() {
    assert_eq!(parse_command("echo 'a\\nb'"), strings(&["echo", "a\nb"]));
    assert_eq!(parse_command("echo '\\t\\r\\\\'"), strings(&["echo", "\t\r\\"]));
    assert_eq!(parse_command("echo \"it\\'s\""), strings(&["echo", "it's"]));
    assert_eq!(parse_command("echo '\\\"'"), strings(&["echo", "\""]));
    // Unknown escapes keep their backslash.
    assert_eq!(parse_command("echo '\\x'"), strings(&["echo", "\\x"]));
    // A trailing backslash inside quotes is kept.
    assert_eq!(parse_command("echo '\\"), strings(&["echo", "\\"]));
    // Outside quotes a backslash is an ordinary character.
    assert_eq!(parse_command("a\\ b"), strings(&["a\\", "b"]));
}

#[test]
fn parse_command_keeps_non_ascii_text() {
    assert_eq!(parse_command("écho '日本 語'"), strings(&["écho", "日本 語"]));
}

#[test]
fn split_command_separates_program_and_arguments() {
    let (program, args) = split_command("borders active_color=0xffe1e3e4 width=5.0").unwrap();
    assert_eq!(program, "borders");
    assert_eq!(args, strings(&["active_color=0xffe1e3e4", "width=5.0"]));
    let (program, args) = split_command("  sketchybar ").unwrap();
    assert_eq!(program, "sketchybar");
    assert!(args.is_empty());
    assert_eq!(split_command(" \t "), None);
    assert_eq!(split_command("''"), None);
}

#[test]
fn flag_values_that_turn_a_setting_off() {
    for v in ["0", "false", "no", "off", " FALSE ", "Off", "\tNo\n", "fAlSe"] {
        assert!(flag_value_is_false(v), "{v:?} should be false");
    }
    for v in ["", "1", "true", "yes", "on", "nope", "f alse", "offf", "0 0"] {
        assert!(!flag_value_is_false(v), "{v:?} should not be false");
    }
    // Unicode white space around the value is ignored too.
    assert!(flag_value_is_false("\u{3000}off\u{a0}"));
}
