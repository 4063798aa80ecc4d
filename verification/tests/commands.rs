use deet::debugger_command::{text_equals, DebuggerCommand, Rejection};
use deet::parse::{parse_address, parse_unsigned};

fn parse(line: &str) -> Result<DebuggerCommand, Rejection> {
    let tokens: Vec<&str> = line.split_whitespace().collect();
    DebuggerCommand::parse(&tokens)
}

fn from_line(line: &str) -> Option<DebuggerCommand> {
    let tokens: Vec<&str> = line.split_whitespace().collect();
    DebuggerCommand::from_tokens(&tokens)
}

#[test]
fn every_spelling_of_every_command() {
    for word in ["q", "quit"] {
        assert_eq!(from_line(word), Some(DebuggerCommand::Quit));
    }
    for word in ["r", "run"] {
        assert_eq!(from_line(word), Some(DebuggerCommand::Run(Vec::new())));
    }
    for word in ["c", "cont", "continue"] {
        assert_eq!(from_line(word), Some(DebuggerCommand::Continue));
    }
    for word in ["bt", "back", "backtrace"] {
        assert_eq!(from_line(word), Some(DebuggerCommand::Backtrace));
    }
    for word in ["b", "break", "breakpoint"] {
        let line = format!("{} main", word);
        assert_eq!(from_line(&line), Some(DebuggerCommand::BreakPoint("main".to_string())));
    }
    for word in ["s", "step"] {
        assert_eq!(from_line(word), Some(DebuggerCommand::Step(1)));
    }
}

#[test]
fn run_takes_all_further_tokens() {
    assert_eq!(
        from_line("run  a -b  --c=1"),
        Some(DebuggerCommand::Run(vec!["a".to_string(), "-b".to_string(), "--c=1".to_string()]))
    );
    assert_eq!(from_line("r quit"), Some(DebuggerCommand::Run(vec!["quit".to_string()])));
}

#[test]
fn extra_tokens_are_ignored_where_none_are_taken() {
    assert_eq!(from_line("quit now"), Some(DebuggerCommand::Quit));
    assert_eq!(from_line("c 5"), Some(DebuggerCommand::Continue));
    assert_eq!(from_line("bt full"), Some(DebuggerCommand::Backtrace));
    assert_eq!(from_line("b 12 13"), Some(DebuggerCommand::BreakPoint("12".to_string())));
    assert_eq!(from_line("s 2 x"), Some(DebuggerCommand::Step(2)));
}

#[test]
fn break_keeps_its_target_as_typed() {
    assert_eq!(from_line("b *0x401000"), Some(DebuggerCommand::BreakPoint("*0x401000".to_string())));
    assert_eq!(from_line("break 17"), Some(DebuggerCommand::BreakPoint("17".to_string())));
    assert_eq!(from_line("breakpoint f\u{fc}r"), Some(DebuggerCommand::BreakPoint("f\u{fc}r".to_string())));
}

#[test]
fn step_counts() {
    assert_eq!(from_line("s 0"), Some(DebuggerCommand::Step(0)));
    assert_eq!(from_line("step 12"), Some(DebuggerCommand::Step(12)));
    assert_eq!(from_line("step +3"), Some(DebuggerCommand::Step(3)));
    assert_eq!(from_line("step 007"), Some(DebuggerCommand::Step(7)));
    assert_eq!(
        from_line("step 18446744073709551615"),
        Some(DebuggerCommand::Step(u64::MAX))
    );
}

#[test]
fn rejections_say_why() {
    assert_eq!(parse("b"), Err(Rejection::NoBreakpointLocation));
    assert_eq!(parse("breakpoint"), Err(Rejection::NoBreakpointLocation));
    assert_eq!(parse("s x"), Err(Rejection::InvalidStepCount("x".to_string())));
    assert_eq!(parse("step -1"), Err(Rejection::InvalidStepCount("-1".to_string())));
    assert_eq!(
        parse("step 18446744073709551616"),
        Err(Rejection::InvalidStepCount("18446744073709551616".to_string()))
    );
    assert_eq!(parse("step 1.5"), Err(Rejection::InvalidStepCount("1.5".to_string())));
    assert_eq!(parse("frobnicate"), Err(Rejection::Unrecognized));
    assert_eq!(parse("Quit"), Err(Rejection::Unrecognized));
    assert_eq!(parse("qu"), Err(Rejection::Unrecognized));
    assert_eq!(parse("quitx"), Err(Rejection::Unrecognized));
    assert_eq!(parse(""), Err(Rejection::Unrecognized));
    assert_eq!(parse("quit"), Ok(DebuggerCommand::Quit));
}

#[test]
fn from_tokens_is_none_exactly_where_parse_rejects() {
    for line in ["b", "s x", "frobnicate", "", "step +", "bt", "r 1 2", "cont", "s 4"] {
        assert_eq!(from_line(line), parse(line).ok());
    }
    assert_eq!(from_line("b"), None);
    assert_eq!(from_line("s x"), None);
    assert_eq!(from_line("frobnicate"), None);
    assert_eq!(from_line(""), None);
}

#[test]
fn text_equality() {
    assert!(text_equals("", ""));
    assert!(text_equals("main", "main"));
    assert!(!text_equals("main", "mainly"));
    assert!(!text_equals("main", "mail"));
    assert!(!text_equals("main", ""));
    assert!(text_equals("gr\u{fc}n", "gr\u{fc}n"));
    assert!(!text_equals("gr\u{fc}n", "grun"));
}

#[test]
fn addresses_in_hexadecimal() {
    assert_eq!(parse_address("0x401000"), Some(0x401000));
    assert_eq!(parse_address("401000"), Some(0x401000));
    assert_eq!(parse_address("0X4010aB"), Some(0x4010ab));
    assert_eq!(parse_address("DEADbeef"), Some(0xdead_beef));
    assert_eq!(parse_address("0"), Some(0));
    assert_eq!(parse_address("0x0"), Some(0));
    assert_eq!(parse_address("+1f"), Some(0x1f));
    assert_eq!(parse_address("0x+1f"), Some(0x1f));
    assert_eq!(parse_address("ffffffffffffffff"), Some(u64::MAX));
    assert_eq!(parse_address("0x0000000000000000000001"), Some(1));
}

#[test]
fn addresses_that_are_none() {
    for text in [
        "", "0x", "0X", "+", "0x+", "x10", "0x0x10", "+0x10", "-1", "12g", "1 2", " 12", "12 ",
        "1_000", "10000000000000000", "0x10000000000000000", "\u{665}",
    ] {
        assert_eq!(parse_address(text), None, "{:?}", text);
    }
}

#[test]
fn addresses_agree_with_the_standard_library() {
    let samples = [
        "0", "1", "a", "A", "g", "z", "+", "-", "++1", "+-1", "0x", "0x1", "0xg", "00x1", "x",
        "7fffffffffffffff", "8000000000000000", "ffffffffffffffff", "10000000000000000",
        "fffffffffffffffff", "0xffffffffffffffff", "401000", "0X401000", "\u{e9}", "1\u{e9}",
    ];
    for text in samples {
        let lowered = text.to_lowercase();
        let digits = if lowered.starts_with("0x") { &text[2..] } else { text };
        assert_eq!(parse_address(text), u64::from_str_radix(digits, 16).ok(), "{:?}", text);
    }
}

#[test]
fn numbers_agree_with_the_standard_library() {
    let samples = [
        "0", "1", "9", "10", "+10", "-10", "", "+", "a", "1a", "18446744073709551615",
        "18446744073709551616", "99999999999999999999", "000000000000000000000000001", "1 ", " 1",
        "\u{661}", "1_0", "f", "Z", "z", "zz", "10", "777", "8",
    ];
    for radix in [2u64, 8, 10, 16, 36] {
        for text in samples {
            assert_eq!(
                parse_unsigned(text, radix),
                u64::from_str_radix(text, radix as u32).ok(),
                "{:?} in radix {}",
                text,
                radix
            );
        }
    }
    assert_eq!(parse_unsigned("42", 10), Some(42));
    assert_eq!(parse_unsigned("101", 2), Some(5));
    assert_eq!(parse_unsigned("zz", 36), Some(35 * 36 + 35));
}
