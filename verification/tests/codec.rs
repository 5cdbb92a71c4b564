use session_log::LogEvent;

fn text(s: &str) -> String {
    s.to_string()
}

fn unknown(identifier: &str) -> LogEvent {
    LogEvent::Unknown(text(identifier))
}

#[test]
fn synth_start_carries_three_numbers() {
    assert_eq!(
        LogEvent::from_str("synth.start.1.5.3", ""),
        LogEvent::SynthStart { index: 1, line_no: 5, example_count: 3 }
    );
}

#[test]
fn synth_start_ignores_payload() {
    assert_eq!(
        LogEvent::from_str("synth.start.12.340.0", "anything, at all"),
        LogEvent::SynthStart { index: 12, line_no: 340, example_count: 0 }
    );
}

#[test]
fn synth_start_round_trips_chosen_numbers() {
    let cases: Vec<(usize, u32, u32)> = vec![
        (0, 0, 0),
        (1, 5, 3),
        (9, 10, 11),
        (100, 99, 1000),
        (usize::MAX, u32::MAX, u32::MAX),
        (4_294_967_296, 4_294_967_295, 7),
    ];
    for (index, line_no, example_count) in cases {
        let identifier = format!("synth.start.{}.{}.{}", index, line_no, example_count);
        assert_eq!(
            LogEvent::from_str(&identifier, "payload"),
            LogEvent::SynthStart { index, line_no, example_count }
        );
    }
}

#[test]
fn synth_start_accepts_plus_sign_and_leading_zeros() {
    assert_eq!(
        LogEvent::from_str("synth.start.+7.007.+0", ""),
        LogEvent::SynthStart { index: 7, line_no: 7, example_count: 0 }
    );
}

#[test]
fn synth_start_ignores_further_pieces() {
    assert_eq!(
        LogEvent::from_str("synth.start.1.2.3.4.five", ""),
        LogEvent::SynthStart { index: 1, line_no: 2, example_count: 3 }
    );
}

#[test]
fn synth_start_with_missing_number_is_unknown() {
    assert_eq!(LogEvent::from_str("synth.start.1.5", ""), unknown("synth.start.1.5"));
    assert_eq!(LogEvent::from_str("synth.start", ""), unknown("synth.start"));
    assert_eq!(LogEvent::from_str("synth.start.", ""), unknown("synth.start."));
    assert_eq!(LogEvent::from_str("synth.start.1..3", ""), unknown("synth.start.1..3"));
}

#[test]
fn synth_start_with_bad_number_is_unknown() {
    assert_eq!(LogEvent::from_str("synth.start.a.5.3", ""), unknown("synth.start.a.5.3"));
    assert_eq!(LogEvent::from_str("synth.start.1.-5.3", ""), unknown("synth.start.1.-5.3"));
    assert_eq!(LogEvent::from_str("synth.start.1.5.3x", ""), unknown("synth.start.1.5.3x"));
    assert_eq!(LogEvent::from_str("synth.start.1.5. 3", ""), unknown("synth.start.1.5. 3"));
    assert_eq!(LogEvent::from_str("synth.start.+.5.3", ""), unknown("synth.start.+.5.3"));
    assert_eq!(LogEvent::from_str("synth.start.1_0.5.3", ""), unknown("synth.start.1_0.5.3"));
    assert_eq!(
        LogEvent::from_str("synth.start.\u{0663}.5.3", ""),
        unknown("synth.start.\u{0663}.5.3")
    );
}

#[test]
fn synth_start_with_number_out_of_range_is_unknown() {
    assert_eq!(
        LogEvent::from_str("synth.start.1.4294967296.3", ""),
        unknown("synth.start.1.4294967296.3")
    );
    assert_eq!(
        LogEvent::from_str("synth.start.1.5.99999999999999999999999999999999999999999", ""),
        unknown("synth.start.1.5.99999999999999999999999999999999999999999")
    );
    let beyond = format!("synth.start.{}0.5.3", usize::MAX);
    assert_eq!(LogEvent::from_str(&beyond, ""), unknown(&beyond));
}

#[test]
fn synth_end_carries_exit_code_and_result() {
    assert_eq!(
        LogEvent::from_str("synth.end.4.0", "x = 1"),
        LogEvent::SynthEnd { index: 4, exit_code: 0, result: text("x = 1") }
    );
    assert_eq!(
        LogEvent::from_str("synth.end.4.-11", ""),
        LogEvent::SynthEnd { index: 4, exit_code: -11, result: text("") }
    );
    assert_eq!(
        LogEvent::from_str("synth.end.0.+2147483647", "r"),
        LogEvent::SynthEnd { index: 0, exit_code: i32::MAX, result: text("r") }
    );
    assert_eq!(
        LogEvent::from_str("synth.end.0.-2147483648", "r"),
        LogEvent::SynthEnd { index: 0, exit_code: i32::MIN, result: text("r") }
    );
}

#[test]
fn synth_end_with_bad_pieces_is_unknown() {
    assert_eq!(LogEvent::from_str("synth.end.4", "r"), unknown("synth.end.4"));
    assert_eq!(LogEvent::from_str("synth.end.-4.0", "r"), unknown("synth.end.-4.0"));
    assert_eq!(
        LogEvent::from_str("synth.end.4.2147483648", "r"),
        unknown("synth.end.4.2147483648")
    );
    assert_eq!(
        LogEvent::from_str("synth.end.4.-2147483649", "r"),
        unknown("synth.end.4.-2147483649")
    );
    assert_eq!(LogEvent::from_str("synth.end.4.-", "r"), unknown("synth.end.4.-"));
    assert_eq!(LogEvent::from_str("synth.end.4.--1", "r"), unknown("synth.end.4.--1"));
}

#[test]
fn synth_output_passes_payload_through() {
    assert_eq!(LogEvent::from_str("synth.stdout", "a,b.c"), LogEvent::SynthOut(text("a,b.c")));
    assert_eq!(LogEvent::from_str("synth.stderr", "oops"), LogEvent::SynthErr(text("oops")));
    assert_eq!(LogEvent::from_str("synth.stdout.more", ""), LogEvent::SynthOut(text("")));
}

#[test]
fn synth_with_other_second_piece_is_unknown() {
    assert_eq!(LogEvent::from_str("synth", "p"), unknown("synth"));
    assert_eq!(LogEvent::from_str("synth.", "p"), unknown("synth."));
    assert_eq!(LogEvent::from_str("synth.sterr", "p"), unknown("synth.sterr"));
    assert_eq!(LogEvent::from_str("synth.START.1.2.3", "p"), unknown("synth.START.1.2.3"));
    assert_eq!(LogEvent::from_str("synth.started.1.2.3", "p"), unknown("synth.started.1.2.3"));
}

#[test]
fn projection_box_focus_events() {
    assert_eq!(
        LogEvent::from_str("focus.projectionBox.focus.custom", "v"),
        LogEvent::PBFocusCustom(text("v"))
    );
    assert_eq!(
        LogEvent::from_str("focus.projectionBox.focus.default", "w"),
        LogEvent::PBFocusDefault(text("w"))
    );
    assert_eq!(LogEvent::from_str("focus.projectionBox.exit", "ignored"), LogEvent::PBExit);
}

#[test]
fn projection_box_with_other_pieces_is_unknown() {
    assert_eq!(
        LogEvent::from_str("focus.projectionBox.focus", "v"),
        unknown("focus.projectionBox.focus")
    );
    assert_eq!(
        LogEvent::from_str("focus.projectionBox.focus.other", "v"),
        unknown("focus.projectionBox.focus.other")
    );
    assert_eq!(LogEvent::from_str("focus.projectionBox", "v"), unknown("focus.projectionBox"));
    assert_eq!(
        LogEvent::from_str("focus.projectionbox.exit", "v"),
        unknown("focus.projectionbox.exit")
    );
    assert_eq!(LogEvent::from_str("focus", "v"), unknown("focus"));
    assert_eq!(LogEvent::from_str("focus.window", "v"), unknown("focus.window"));
}

#[test]
fn example_focus_events() {
    assert_eq!(
        LogEvent::from_str("focus.example.3.blur", "1 -> 2"),
        LogEvent::ExampleBlur { index: 3, content: text("1 -> 2") }
    );
    assert_eq!(
        LogEvent::from_str("focus.example.0.focus", ""),
        LogEvent::ExampleFocus { index: 0, content: text("") }
    );
}

#[test]
fn example_focus_with_bad_pieces_is_unknown() {
    assert_eq!(LogEvent::from_str("focus.example.x.blur", "c"), unknown("focus.example.x.blur"));
    assert_eq!(LogEvent::from_str("focus.example.3", "c"), unknown("focus.example.3"));
    assert_eq!(LogEvent::from_str("focus.example.3.exit", "c"), unknown("focus.example.3.exit"));
    assert_eq!(LogEvent::from_str("focus.example", "c"), unknown("focus.example"));
}

#[test]
fn example_changed_splits_payload_into_before_and_after() {
    assert_eq!(
        LogEvent::from_str("example.7.change", "foo,bar"),
        LogEvent::ExampleChanged { index: 7, before: text("foo"), after: text("bar") }
    );
}

#[test]
fn example_changed_takes_first_two_pieces_of_payload() {
    assert_eq!(
        LogEvent::from_str("example.7.change", "a,b,c,d"),
        LogEvent::ExampleChanged { index: 7, before: text("a"), after: text("b") }
    );
    assert_eq!(
        LogEvent::from_str("example.7.change", ","),
        LogEvent::ExampleChanged { index: 7, before: text(""), after: text("") }
    );
    assert_eq!(
        LogEvent::from_str("example.7.change", ",after"),
        LogEvent::ExampleChanged { index: 7, before: text(""), after: text("after") }
    );
    assert_eq!(
        LogEvent::from_str("example.7.change", "before,"),
        LogEvent::ExampleChanged { index: 7, before: text("before"), after: text("") }
    );
    assert_eq!(
        LogEvent::from_str("example.7.change", "h\u{e9}llo,w\u{f6}rld,x"),
        LogEvent::ExampleChanged {
            index: 7,
            before: text("h\u{e9}llo"),
            after: text("w\u{f6}rld")
        }
    );
}

#[test]
fn example_changed_without_comma_is_unknown() {
    assert_eq!(LogEvent::from_str("example.7.change", "foo"), unknown("example.7.change"));
    assert_eq!(LogEvent::from_str("example.7.change", ""), unknown("example.7.change"));
}

#[test]
fn example_include_and_exclude() {
    assert_eq!(
        LogEvent::from_str("example.2.include", "a,b"),
        LogEvent::ExampleInclude { index: 2, content: text("a,b") }
    );
    assert_eq!(
        LogEvent::from_str("example.2.exclude", ""),
        LogEvent::ExampleExclude { index: 2, content: text("") }
    );
}

#[test]
fn example_all_reset() {
    assert_eq!(LogEvent::from_str("example.all.reset", "ignored"), LogEvent::ExampleReset);
    assert_eq!(LogEvent::from_str("example.all.reset.now", ""), LogEvent::ExampleReset);
}

#[test]
fn example_with_other_pieces_is_unknown() {
    assert_eq!(LogEvent::from_str("example", "c"), unknown("example"));
    assert_eq!(LogEvent::from_str("example.all", "c"), unknown("example.all"));
    assert_eq!(LogEvent::from_str("example.all.change", "a,b"), unknown("example.all.change"));
    assert_eq!(LogEvent::from_str("example.7", "c"), unknown("example.7"));
    assert_eq!(LogEvent::from_str("example.7.reset", "c"), unknown("example.7.reset"));
    assert_eq!(LogEvent::from_str("example.x.include", "c"), unknown("example.x.include"));
    assert_eq!(LogEvent::from_str("example..include", "c"), unknown("example..include"));
}

#[test]
fn anything_else_is_unknown_with_identifier_unchanged() {
    let identifiers = vec![
        "",
        ".",
        "..",
        "noise",
        "Synth.start.1.2.3",
        " synth.start.1.2.3",
        ".synth.start.1.2.3",
        "synthx.stdout",
        "window.resize.800.600",
        "\u{1f600}.\u{1f600}",
    ];
    for identifier in identifiers {
        assert_eq!(LogEvent::from_str(identifier, "payload"), unknown(identifier));
    }
}

#[test]
fn index_is_present_for_calls_and_single_examples() {
    let with_index = vec![
        LogEvent::SynthStart { index: 1, line_no: 2, example_count: 3 },
        LogEvent::SynthEnd { index: 1, exit_code: 0, result: text("") },
        LogEvent::ExampleBlur { index: 1, content: text("") },
        LogEvent::ExampleFocus { index: 1, content: text("") },
        LogEvent::ExampleChanged { index: 1, before: text(""), after: text("") },
        LogEvent::ExampleInclude { index: 1, content: text("") },
        LogEvent::ExampleExclude { index: 1, content: text("") },
    ];
    for event in with_index {
        assert_eq!(event.index(), Some(1));
    }
    let without_index = vec![
        LogEvent::SynthOut(text("1")),
        LogEvent::SynthErr(text("1")),
        LogEvent::PBFocusDefault(text("1")),
        LogEvent::PBFocusCustom(text("1")),
        LogEvent::PBExit,
        LogEvent::ExampleReset,
        LogEvent::Unknown(text("synth.start.1")),
    ];
    for event in without_index {
        assert_eq!(event.index(), None);
    }
}

#[test]
fn lineno_is_present_only_for_synth_start() {
    assert_eq!(LogEvent::SynthStart { index: 1, line_no: 42, example_count: 3 }.lineno(), Some(42));
    let others = vec![
        LogEvent::SynthEnd { index: 1, exit_code: 42, result: text("42") },
        LogEvent::SynthOut(text("42")),
        LogEvent::PBExit,
        LogEvent::ExampleChanged { index: 42, before: text(""), after: text("") },
        LogEvent::ExampleReset,
        LogEvent::Unknown(text("42")),
    ];
    for event in others {
        assert_eq!(event.lineno(), None);
    }
}

#[test]
fn decoded_synth_start_answers_index_and_lineno() {
    let event = LogEvent::from_str("synth.start.8.17.2", "");
    assert_eq!(event.index(), Some(8));
    assert_eq!(event.lineno(), Some(17));
}
