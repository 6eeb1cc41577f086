use swan_kernel::terminal::{decimal_string, parse, split_whitespace, Command, Key, KeyDecoder, ScancodeAnswer, Terminal};

#[test]
fn split_on_runs_of_ascii_whitespace() {
    assert_eq!(split_whitespace("  test   a\tb\n"), vec!["test", "a", "b"]);
    assert_eq!(split_whitespace("one"), vec!["one"]);
}

#[test]
fn split_empty_and_blank_lines() {
    assert!(split_whitespace("").is_empty());
    assert!(split_whitespace(" \t\r\n\u{b}\u{c}").is_empty());
}

#[test]
fn split_on_unicode_whitespace() {
    assert_eq!(split_whitespace("\u{3000}x\u{a0}y\u{2028}z\u{85}"), vec!["x", "y", "z"]);
}

#[test]
fn zero_width_space_is_not_whitespace() {
    assert_eq!(split_whitespace("a\u{200b}b c"), vec!["a\u{200b}b", "c"]);
}

#[test]
fn decimal_strings() {
    assert_eq!(decimal_string(0), "0");
    assert_eq!(decimal_string(7), "7");
    assert_eq!(decimal_string(10), "10");
    assert_eq!(decimal_string(12345), "12345");
    assert_eq!(decimal_string(usize::MAX), usize::MAX.to_string());
}

#[test]
fn build_binds_arguments() {
    let mut cmd = Command::new("test");
    cmd.arg("test_arg");
    let args = cmd.build("test hello".to_string()).unwrap();
    assert_eq!(args.len(), 1);
    assert_eq!(args.get("test_arg"), Some("hello".to_string()));
    assert_eq!(args.get("hello"), None);
}

#[test]
fn build_binds_several_arguments_in_order() {
    let mut cmd = Command::new("copy");
    cmd.arg("from");
    cmd.arg("to");
    let args = cmd.build("  copy   a.txt\tb.txt ".to_string()).unwrap();
    assert_eq!(args.len(), 2);
    assert_eq!(args.get("from"), Some("a.txt".to_string()));
    assert_eq!(args.get("to"), Some("b.txt".to_string()));
}

#[test]
fn build_later_argument_of_same_name_wins() {
    let mut cmd = Command::new("set");
    cmd.arg("x");
    cmd.arg("x");
    let args = cmd.build("set 1 2".to_string()).unwrap();
    assert_eq!(args.len(), 1);
    assert_eq!(args.get("x"), Some("2".to_string()));
}

#[test]
fn build_without_arguments() {
    let cmd = Command::new("help");
    let args = cmd.build("help".to_string()).unwrap();
    assert_eq!(args.len(), 0);
}

#[test]
fn build_wrong_number_of_arguments() {
    let mut cmd = Command::new("test");
    cmd.arg("test_arg");
    match cmd.build("test".to_string()) {
        Err(e) => assert_eq!(e, "args != 1"),
        Ok(_) => panic!("expected an error"),
    }
    match cmd.build("test a b".to_string()) {
        Err(e) => assert_eq!(e, "args != 1"),
        Ok(_) => panic!("expected an error"),
    }
    let help = Command::new("help");
    match help.build("help me".to_string()) {
        Err(e) => assert_eq!(e, "args != 0"),
        Ok(_) => panic!("expected an error"),
    }
}

#[test]
fn build_other_command() {
    let cmd = Command::new("help");
    match cmd.build("foo  bar".to_string()) {
        Err(e) => assert_eq!(e, "not found 'foo  bar' command"),
        Ok(_) => panic!("expected an error"),
    }
}

#[test]
fn parse_known_commands() {
    assert_eq!(parse("test value".to_string()), vec!["value"]);
    assert_eq!(parse(" help ".to_string()), vec!["help"]);
    assert!(parse("help me".to_string()).is_empty());
    assert!(parse("test".to_string()).is_empty());
    assert!(parse("unknown".to_string()).is_empty());
}

fn type_text(t: &mut Terminal, text: &str) {
    for c in text.chars() {
        let r = t.handle_key(Key::Unicode(c));
        assert_eq!(r.echo, Some(c));
        assert!(r.lines.is_empty());
        assert!(!r.prompt && !r.erase && r.raw_key.is_none());
    }
}

#[test]
fn typing_then_enter_runs_the_line() {
    let mut t = Terminal::new();
    type_text(&mut t, "help");
    assert_eq!(t.line_text(), "help");
    let r = t.handle_key(Key::Unicode('\n'));
    assert_eq!(r.echo, Some('\n'));
    assert_eq!(r.lines, vec!["help"]);
    assert!(r.prompt);
    assert!(!r.erase && r.raw_key.is_none());
    assert_eq!(t.line_text(), "");
}

#[test]
fn enter_on_empty_line_only_prompts() {
    let mut t = Terminal::new();
    let r = t.handle_key(Key::Unicode('\n'));
    assert_eq!(r.echo, Some('\n'));
    assert!(r.lines.is_empty());
    assert!(r.prompt);
    assert_eq!(t.line_text(), "");
}

#[test]
fn backspace_undoes_typing() {
    let mut t = Terminal::new();
    type_text(&mut t, "te");
    type_text(&mut t, "x");
    let r = t.handle_key(Key::Unicode('\u{8}'));
    assert!(r.erase);
    assert_eq!(r.echo, None);
    assert!(!r.prompt);
    assert_eq!(t.line_text(), "te");
}

#[test]
fn backspace_on_empty_line_does_nothing() {
    let mut t = Terminal::new();
    let r = t.handle_key(Key::Unicode('\u{8}'));
    assert!(!r.erase);
    assert_eq!(r.echo, None);
    assert_eq!(t.line_text(), "");
}

#[test]
fn raw_key_is_named_and_line_kept() {
    let mut t = Terminal::new();
    type_text(&mut t, "ab");
    let r = t.handle_key(Key::RawKey("F1".to_string()));
    assert_eq!(r.raw_key, Some("F1".to_string()));
    assert_eq!(r.echo, None);
    assert_eq!(t.line_text(), "ab");
}

#[test]
fn test_command_through_keys() {
    let mut t = Terminal::new();
    type_text(&mut t, "test wörld");
    let r = t.handle_key(Key::Unicode('\n'));
    assert_eq!(r.lines, vec!["wörld"]);
}

#[test]
fn decoder_turns_scancodes_into_keys() {
    let mut d = KeyDecoder::new();
    assert_eq!(d.decode(0x1E), Some(Key::Unicode('a')));
    assert_eq!(d.decode(0x9E), None);
    assert_eq!(d.decode(0x2A), None);
    assert_eq!(d.decode(0x1E), Some(Key::Unicode('A')));
    assert_eq!(d.decode(0xAA), None);
    assert_eq!(d.decode(0x1C), Some(Key::Unicode('\n')));
    assert_eq!(d.decode(0x0E), Some(Key::Unicode('\u{8}')));
    assert_eq!(d.decode(0x3B), Some(Key::RawKey("F1".to_string())));
}

#[test]
fn scancodes_drive_the_terminal() {
    let mut d = KeyDecoder::new();
    let mut t = Terminal::new();
    // h, e, l, p, each pressed and released
    for code in [0x23u8, 0x12, 0x26, 0x19] {
        let r = t.handle_scancode(&mut d, code).unwrap();
        assert!(r.echo.is_some());
        assert_eq!(t.handle_scancode(&mut d, code | 0x80).map(|r| r.echo), None);
    }
    assert_eq!(t.line_text(), "help");
    let r = t.handle_scancode(&mut d, 0x1C).unwrap();
    assert_eq!(r.lines, vec!["help"]);
    assert!(r.prompt);
    assert_eq!(t.line_text(), "");
    let r = t.handle_scancode(&mut d, 0x3B).unwrap();
    assert_eq!(r.raw_key, Some("F1".to_string()));
}

#[test]
fn newline_on_blank_line_is_refused() {
    let mut d = KeyDecoder::new();
    let mut t = Terminal::new();
    match t.answer_scancode(&mut d, 0x39) {
        ScancodeAnswer::Answer(r) => assert_eq!(r.echo, Some(' ')),
        _ => panic!("expected an answer"),
    }
    match t.answer_scancode(&mut d, 0x1C) {
        ScancodeAnswer::BlankLineEntered => {}
        _ => panic!("expected a refusal"),
    }
    assert_eq!(t.line_text(), " ");
    match t.answer_scancode(&mut d, 0xB9) {
        ScancodeAnswer::NoKey => {}
        _ => panic!("expected no key"),
    }
    assert!(t.can_answer(&Key::Unicode('x')));
    assert!(!t.can_answer(&Key::Unicode('\n')));
}
