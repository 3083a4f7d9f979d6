//! The scenario harness: scripts parse into steps (or name the line that is
//! wrong), and steps reach the game through the same input path a player's
//! would.

use terminarium::app::{Key, Phase, FRAME_INTERVAL_MS};
use terminarium::harness::{
    parse, Capture, Expectation, Field, Op, Outcome, ParseError, Runner, Scenario, Step,
};

/// Run a scenario against a fresh game; a capture is recorded at the size the
/// pane had then (drawing it is the renderer's, so its text stays empty here).
fn run(scenario: &Scenario) -> Outcome {
    let mut runner = Runner::new();
    let mut captures = Vec::new();
    for step in &scenario.steps {
        assert!(runner.fits(step), "the scenario's waits fit the clock");
        runner.take(step);
        if let Step::Capture { label } = step {
            captures.push(Capture {
                label: label.clone(),
                width: runner.width,
                height: runner.height,
                ansi: String::new(),
            });
        }
    }
    runner.finish(captures)
}

fn parsed(text: &str) -> Scenario {
    parse(text).expect("scenario parses")
}

fn error(text: &str) -> ParseError {
    parse(text).expect_err("scenario is rejected")
}

#[test]
fn every_command_parses_into_its_step() {
    let scenario = parsed("resize 100x30\nkey enter\nkey s\nwait 1000\nphase dawn\ncapture full\nexpect score >= 1\n");
    assert_eq!(
        scenario.steps,
        vec![
            Step::Resize {
                width: 100,
                height: 30
            },
            Step::Key(Key::Enter),
            Step::Key(Key::Char('s')),
            Step::Wait { ms: 1_000 },
            Step::Phase(Phase::Dawn),
            Step::Capture {
                label: "full".to_string()
            },
            Step::Expect(Expectation {
                line: 7,
                source: "expect score >= 1".to_string(),
                field: Field::Score,
                op: Op::AtLeast,
                value: 1,
            }),
        ]
    );
}

#[test]
fn comments_and_blank_lines_carry_no_steps() {
    let scenario = parsed("# the opening pane\n\nresize 80x20   # the smallest playable size\n   \nwait 200\n");
    assert_eq!(
        scenario.steps,
        vec![
            Step::Resize {
                width: 80,
                height: 20
            },
            Step::Wait { ms: 200 },
        ]
    );
}

#[test]
fn a_comment_is_stripped_from_an_expectations_source() {
    let scenario = parsed("resize 80x20\nexpect reefs == 2  # both reefs landed\n");
    let Step::Expect(expectation) = &scenario.steps[1] else {
        panic!("expected an expectation");
    };
    assert_eq!(expectation.source, "expect reefs == 2");
}

#[test]
fn a_scenario_must_begin_with_a_resize() {
    // The frame size is the whole point of a capture, so an implicit size is
    // never assumed: the first step has to name one.
    let err = error("key s\nresize 80x20\n");
    assert_eq!(err.line, Some(1));
    assert!(err.message.contains("resize"), "{}", err.message);

    // A scenario with no steps at all has no line to point at.
    let err = error("# nothing but a comment\n");
    assert_eq!(err.line, None);
    assert!(err.message.contains("resize"), "{}", err.message);
}

#[test]
fn an_unknown_command_names_its_line() {
    let err = error("resize 80x20\nwait 100\nsprint 3\n");
    assert_eq!(err.line, Some(3));
    assert!(err.message.contains("sprint"), "{}", err.message);
}

#[test]
fn a_malformed_size_names_its_line() {
    assert_eq!(error("resize 80\n").line, Some(1));
    assert_eq!(error("resize eightyx20\n").line, Some(1));
    assert_eq!(error("resize 80x20x3\n").line, Some(1));
    // A zero-column pane draws nothing; that is a mistake, not a picture.
    assert_eq!(error("resize 0x20\n").line, Some(1));
    assert_eq!(error("resize 80x0\n").line, Some(1));
}

#[test]
fn key_tokens_are_a_single_character_or_a_name() {
    let scenario = parsed("resize 80x20\nkey n\nkey 1\nkey space\nkey enter\nkey esc\nkey left\nkey right\nkey up\nkey down\nkey backspace\n");
    assert_eq!(
        scenario.steps[1..],
        [
            Step::Key(Key::Char('n')),
            Step::Key(Key::Char('1')),
            Step::Key(Key::Char(' ')),
            Step::Key(Key::Enter),
            Step::Key(Key::Esc),
            Step::Key(Key::Left),
            Step::Key(Key::Right),
            Step::Key(Key::Up),
            Step::Key(Key::Down),
            Step::Key(Key::Backspace),
        ]
    );
}

#[test]
fn an_unnamed_multi_character_key_is_rejected() {
    let err = error("resize 80x20\nkey ctrl\n");
    assert_eq!(err.line, Some(2));
    assert!(err.message.contains("ctrl"), "{}", err.message);
    assert_eq!(error("resize 80x20\nkey\n").line, Some(2));
}

#[test]
fn a_bad_wait_or_phase_names_its_line() {
    assert_eq!(error("resize 80x20\nwait soon\n").line, Some(2));
    assert_eq!(error("resize 80x20\nwait\n").line, Some(2));
    assert_eq!(error("resize 80x20\nphase noon\n").line, Some(2));
    assert_eq!(error("resize 80x20\ncapture\n").line, Some(2));
}

#[test]
fn every_phase_has_a_token() {
    let scenario = parsed("resize 80x20\nphase dawn\nphase day\nphase dusk\nphase night\n");
    assert_eq!(
        scenario.steps[1..],
        [
            Step::Phase(Phase::Dawn),
            Step::Phase(Phase::Day),
            Step::Phase(Phase::Dusk),
            Step::Phase(Phase::Night),
        ]
    );
}

#[test]
fn every_expect_field_and_operator_parses() {
    let scenario = parsed("resize 80x20\nexpect score == 0\nexpect currency >= 1\nexpect collectable <= 2\nexpect reefs == 3\nexpect started true\nexpect started false\n");
    let fields: Vec<(Field, Op, u128)> = scenario.steps[1..]
        .iter()
        .map(|step| {
            let Step::Expect(e) = step else {
                panic!("expected an expectation");
            };
            (e.field, e.op, e.value)
        })
        .collect();
    assert_eq!(
        fields,
        vec![
            (Field::Score, Op::Eq, 0),
            (Field::Currency, Op::AtLeast, 1),
            (Field::Collectable, Op::AtMost, 2),
            (Field::Reefs, Op::Eq, 3),
            // `started` is read as 0/1, so one comparison rule fits every
            // field; its own token stays true/false.
            (Field::Started, Op::Eq, 1),
            (Field::Started, Op::Eq, 0),
        ]
    );
}

#[test]
fn a_bad_expectation_names_its_line() {
    assert_eq!(error("resize 80x20\nexpect biomass >= 1\n").line, Some(2));
    assert_eq!(error("resize 80x20\nexpect score > 1\n").line, Some(2));
    assert_eq!(error("resize 80x20\nexpect score >= lots\n").line, Some(2));
    assert_eq!(error("resize 80x20\nexpect score >= 1 2\n").line, Some(2));
    // A boolean field takes a boolean, and a numeric field a number —
    // mixing them is a mistake worth surfacing, not a silent coercion.
    assert_eq!(error("resize 80x20\nexpect started 1\n").line, Some(2));
    assert_eq!(error("resize 80x20\nexpect score >= true\n").line, Some(2));
}

#[test]
fn trailing_tokens_are_rejected() {
    assert_eq!(error("resize 80x20 tall\n").line, Some(1));
    assert_eq!(error("resize 80x20\nwait 100 200\n").line, Some(2));
    assert_eq!(error("resize 80x20\ncapture full wide\n").line, Some(2));
}

#[test]
fn keys_reach_the_app_through_the_real_input_path() {
    let outcome = run(&parsed("resize 100x30\nkey enter\nkey s\n"));
    assert!(outcome.app.state.run_started(), "enter placed, s started");
    assert_eq!(outcome.app.state.reefs.len(), 1);
}

#[test]
fn a_wait_advances_the_economy_and_the_animation_together() {
    // One wait is both kinds of time: engine ticks (1 s each) and animation
    // frames at the binary's frame length, so a captured frame sits where the
    // real loop would have put it.
    let outcome = run(&parsed("resize 100x30\nkey enter\nkey s\nwait 1000\n"));
    assert_eq!(outcome.app.state.tick_count, 1, "1000ms is one engine tick");
    assert_eq!(
        outcome.app.frame,
        1_000 / FRAME_INTERVAL_MS,
        "and five animation frames"
    );
}

#[test]
fn the_frame_remainder_carries_into_the_next_wait() {
    // Frames are whole: what a wait leaves over stays with the runner, so
    // many short waits animate at the same rate as one long one.
    let outcome = run(&parsed("resize 100x30\nkey enter\nkey s\nwait 500\n"));
    assert_eq!(outcome.app.frame, 2, "500ms is two whole frames, 100 left");

    let outcome = run(&parsed(
        "resize 100x30\nkey enter\nkey s\nwait 500\nwait 100\n",
    ));
    assert_eq!(outcome.app.frame, 3, "the carried 100ms completes a third");
}

#[test]
fn phase_sets_the_renders_time_of_day() {
    let outcome = run(&parsed("resize 100x30\nphase dawn\n"));
    assert_eq!(outcome.app.phase, Phase::Dawn);
}

#[test]
fn expectations_are_judged_against_the_state_they_read() {
    let outcome = run(&parsed("resize 100x30\nexpect started false\nexpect reefs == 0\nkey enter\nkey s\nexpect started true\nexpect reefs == 1\nexpect currency >= 1\nexpect collectable == 0\n"));
    assert!(outcome.all_passed(), "checks: {:?}", outcome.checks);
    assert_eq!(outcome.checks.len(), 6);
}

#[test]
fn a_failed_expectation_reports_the_actual_value_and_the_run_goes_on() {
    // A capture is wanted even from a run that missed its goal — that frame
    // is how a human sees *why* it missed. So a failure is recorded, not
    // fatal, and every later step still happens.
    let outcome = run(&parsed("resize 100x30\nexpect reefs == 1\ncapture after-the-failure\nexpect started false\n"));
    assert!(!outcome.all_passed());
    assert_eq!(outcome.checks.len(), 2);
    assert!(!outcome.checks[0].passed);
    assert_eq!(outcome.checks[0].actual, 0, "no reef was ever placed");
    assert_eq!(outcome.checks[0].expectation.line, 2);
    assert_eq!(outcome.checks[0].expectation.source, "expect reefs == 1");
    assert!(
        outcome.checks[1].passed,
        "the run carried on past the failure"
    );
    assert_eq!(outcome.captures.len(), 1, "and still captured its frame");
}


#[test]
fn a_capture_is_taken_at_the_size_the_pane_has_then() {
    let outcome = run(&parsed(
        "resize 100x30\ncapture full\nresize 40x12\ncapture pane\n",
    ));
    let sizes: Vec<(&str, u16, u16)> = outcome
        .captures
        .iter()
        .map(|c| (c.label.as_str(), c.width, c.height))
        .collect();
    assert_eq!(sizes, vec![("full", 100, 30), ("pane", 40, 12)]);
}

#[test]
fn an_error_reads_with_its_line() {
    let err = error("resize 80x20\nsprint 3\n");
    assert_eq!(err.to_text(), "line 2: unknown command: sprint");
    let err = error("");
    assert_eq!(
        err.to_text(),
        "a scenario needs at least one step, beginning with `resize <W>x<H>`"
    );
    assert_eq!(
        err,
        ParseError {
            line: None,
            message: "a scenario needs at least one step, beginning with `resize <W>x<H>`"
                .to_string()
        }
    );
}

#[test]
fn messages_name_the_token_that_is_wrong() {
    assert_eq!(
        error("resize 80x20x3\n").message,
        "resize needs a size like 100x30: 80x20x3"
    );
    assert_eq!(error("resize 0x20\n").message, "resize needs a pane with area: 0x20");
    assert_eq!(
        error("resize 80x20 tall\n").message,
        "resize: unexpected extra token: tall"
    );
    assert_eq!(
        error("resize 80x20\nphase noon\n").message,
        "phase: unknown phase: noon (dawn, day, dusk or night)"
    );
    assert_eq!(
        error("resize 80x20\nexpect score > 1\n").message,
        "expect: unknown operator: > (==, >= or <=)"
    );
    assert_eq!(error("resize 80x20\nwait soon\n").message, "wait: not a number: soon");
}

#[test]
fn unicode_whitespace_separates_words_and_crlf_ends_lines() {
    // An ideographic space splits words the way `split_whitespace` does, and a
    // CRLF file reads as its LF twin.
    let scenario = parsed("resize\u{3000}80x20\r\nwait 200\r\n");
    assert_eq!(
        scenario.steps,
        vec![Step::Resize { width: 80, height: 20 }, Step::Wait { ms: 200 }]
    );
}

#[test]
fn a_waits_frames_follow_the_frame_interval() {
    let outcome = run(&parsed("resize 40x12\nwait 1000\n"));
    assert_eq!(outcome.app.frame, 1_000 / FRAME_INTERVAL_MS);
    assert_eq!(outcome.app.state.tick_count, 0, "no run, no ticks");
}

#[test]
fn op_holds_as_its_symbol_reads() {
    assert!(Op::Eq.holds(3, 3) && !Op::Eq.holds(3, 4));
    assert!(Op::AtLeast.holds(4, 3) && !Op::AtLeast.holds(2, 3));
    assert!(Op::AtMost.holds(3, 3) && !Op::AtMost.holds(4, 3));
    let e = Expectation {
        line: 1,
        source: "expect score == 0".to_string(),
        field: Field::Score,
        op: Op::Eq,
        value: 0,
    };
    assert_eq!(e.copied(), e);
    let _ = Phase::Night;
}

#[test]
fn a_runner_starts_a_fresh_default_game() {
    let r = Runner::new();
    assert_eq!(r.app.params, terminarium::engine::Params::default());
    assert_eq!(r.app.state, terminarium::engine::State::new());
    assert_eq!(r.app.state.score, 0);
    assert_eq!(r.app.phase, Phase::Night);
    assert_eq!(r.app.placement_cursor, terminarium::engine::SLOTS / 2);
    assert_eq!(r.app.placement_kind, 0);
    assert!(r.app.flash.is_none() && !r.app.new_sea_pending && !r.app.anchor_mode && !r.app.should_quit);
    assert_eq!((r.width, r.height, r.frame_debt_ms), (0, 0, 0));
}
