use focusmini::{
    countdown, gate_decision, next_phase, run, GateDecision, Notifier, Phase, ScriptedTerminal,
    TimerError,
};

const PROMPT: &str = "\r \x1b[1m Enter\x1b[0m to continue (\x1b[1mq\x1b[0m to quit): ";
const CLEAR: &str = "\x1b[1A\x1b[2K";
const WORK_LABEL: &str = "\x1b[32m [Work] \x1b[0m";
const BREAK_LABEL: &str = "\x1b[34m [Break] \x1b[0m";

fn terminal(lines: &[&str]) -> ScriptedTerminal {
    ScriptedTerminal::new(lines.iter().map(|l| l.to_string()).collect())
}

struct OkNotifier;

impl Notifier for OkNotifier {
    fn run(&self) -> Result<(), TimerError> {
        Ok(())
    }
}

struct ErrorNotifier;

impl Notifier for ErrorNotifier {
    fn run(&self) -> Result<(), TimerError> {
        Err(TimerError::new("not ready"))
    }
}

#[test]
fn tests_countdown_zero_seconds_runs_quickly() {
    let mut term = terminal(&[]);
    assert!(countdown("test", 0, &mut term).is_ok());
}

#[test]
fn tests_countdown_one_second() {
    let mut term = terminal(&[]);
    assert!(countdown("test", 1, &mut term).is_ok());
}

#[test]
fn lib_tests_countdown_zero_seconds_runs_quickly() {
    let mut term = terminal(&[]);
    assert!(countdown("test", 0, &mut term).is_ok());
}

#[test]
fn lib_tests_countdown_one_second() {
    let mut term = terminal(&[]);
    assert!(countdown("test", 1, &mut term).is_ok());
}

#[test]
fn countdown_zero_minutes_is_ok() {
    let mut term = terminal(&[]);
    assert!(countdown("[Test]", 0, &mut term).is_ok());
}

#[test]
fn countdown_zero_renders_single_final_frame() {
    let mut term = terminal(&[]);
    countdown("test", 0, &mut term).unwrap();
    assert_eq!(term.log, vec!["\rtest 00:00".to_string()]);
}

#[test]
fn countdown_one_renders_two_frames() {
    let mut term = terminal(&[]);
    countdown("test", 1, &mut term).unwrap();
    assert_eq!(
        term.log,
        vec!["\rtest 00:01".to_string(), "\rtest 00:00".to_string()]
    );
}

#[test]
fn countdown_formats_minutes_and_seconds() {
    let mut term = terminal(&[]);
    countdown("x", 61, &mut term).unwrap();
    assert_eq!(term.log[0], "\rx 01:01");
    assert_eq!(term.log[1], "\rx 01:00");
    assert_eq!(term.log[2], "\rx 00:59");
    assert_eq!(term.log[61], "\rx 00:00");
}

#[test]
fn countdown_keeps_wide_minute_values() {
    let mut term = terminal(&[]);
    countdown("x", 6000, &mut term).unwrap();
    assert_eq!(term.log[0], "\rx 100:00");
    assert_eq!(term.log[1], "\rx 99:59");
}

#[test]
fn tests_run_propagates_notifier_error() {
    let mut term = terminal(&[]);
    let err = run(0, 0, &ErrorNotifier, &mut term).unwrap_err();
    assert_eq!(err.message, "not ready");
}

#[test]
fn tests_run_stops_on_q_input() {
    let mut term = terminal(&["q\n"]);
    assert!(run(0, 0, &OkNotifier, &mut term).is_ok());
}

#[test]
fn tests_run_continues_after_enter_before_quit() {
    let mut term = terminal(&["\n", "q\n"]);
    assert!(run(0, 0, &OkNotifier, &mut term).is_ok());
}

#[test]
fn tests_run_one_second_work_triggers_clear_line() {
    let mut term = terminal(&["\n", "q\n"]);
    assert!(run(1, 0, &OkNotifier, &mut term).is_ok());
}

#[test]
fn lib_tests_run_propagates_notifier_error() {
    let mut term = terminal(&[]);
    let err = run(0, 0, &ErrorNotifier, &mut term).unwrap_err();
    assert_eq!(err.message, "not ready");
}

#[test]
fn lib_tests_run_stops_on_q_input() {
    let mut term = terminal(&["q\n"]);
    assert!(run(0, 0, &OkNotifier, &mut term).is_ok());
}

#[test]
fn lib_tests_run_continues_after_enter_before_quit() {
    let mut term = terminal(&["\n", "q\n"]);
    assert!(run(0, 0, &OkNotifier, &mut term).is_ok());
}

#[test]
fn lib_tests_run_one_second_work_triggers_clear_line() {
    let mut term = terminal(&["\n", "q\n"]);
    assert!(run(1, 0, &OkNotifier, &mut term).is_ok());
}

#[test]
fn run_quit_on_first_phase_writes_one_prompt() {
    let mut term = terminal(&["q\n"]);
    run(0, 0, &OkNotifier, &mut term).unwrap();
    let work_frame = format!("\r{WORK_LABEL} 00:00");
    assert_eq!(term.log, vec![work_frame, PROMPT.to_string()]);
    assert!(term.lines.is_empty());
}

#[test]
fn run_continue_then_quit_runs_two_phases() {
    let mut term = terminal(&["\n", "q\n"]);
    run(0, 0, &OkNotifier, &mut term).unwrap();
    let work_frame = format!("\r{WORK_LABEL} 00:00");
    let break_frame = format!("\r{BREAK_LABEL} 00:00");
    assert_eq!(
        term.log,
        vec![
            work_frame,
            PROMPT.to_string(),
            CLEAR.to_string(),
            break_frame,
            PROMPT.to_string(),
        ]
    );
    assert!(term.lines.is_empty());
}

#[test]
fn run_notifier_error_skips_the_gate() {
    let mut term = terminal(&["q\n"]);
    let err = run(0, 0, &ErrorNotifier, &mut term).unwrap_err();
    assert_eq!(err.message, "not ready");
    let work_frame = format!("\r{WORK_LABEL} 00:00");
    assert_eq!(term.log, vec![work_frame]);
    assert_eq!(term.lines, vec!["q\n".to_string()]);
}

#[test]
fn run_stops_when_input_is_exhausted() {
    let mut term = terminal(&[]);
    assert!(run(0, 0, &OkNotifier, &mut term).is_ok());
    let work_frame = format!("\r{WORK_LABEL} 00:00");
    assert_eq!(term.log, vec![work_frame, PROMPT.to_string()]);
}

#[test]
fn run_stops_on_empty_scripted_line() {
    let mut term = terminal(&[""]);
    assert!(run(0, 0, &OkNotifier, &mut term).is_ok());
    assert!(term.lines.is_empty());
}

#[test]
fn run_quit_needs_exact_q_line() {
    let mut term = terminal(&[" q\n", "quit\n", "q\r\n"]);
    run(0, 0, &OkNotifier, &mut term).unwrap();
    assert!(term.lines.is_empty());
    let prompts = term.log.iter().filter(|t| t.as_str() == PROMPT).count();
    assert_eq!(prompts, 3);
}

#[test]
fn gate_decision_quits_on_q_variants() {
    assert_eq!(gate_decision("q"), GateDecision::Quit);
    assert_eq!(gate_decision("q\n"), GateDecision::Quit);
    assert_eq!(gate_decision("q\r\n"), GateDecision::Quit);
    assert_eq!(gate_decision("q\n\r\n"), GateDecision::Quit);
}

#[test]
fn gate_decision_continues_on_anything_else() {
    assert_eq!(gate_decision(""), GateDecision::Continue);
    assert_eq!(gate_decision("\n"), GateDecision::Continue);
    assert_eq!(gate_decision(" q\n"), GateDecision::Continue);
    assert_eq!(gate_decision("qq\n"), GateDecision::Continue);
    assert_eq!(gate_decision("quit\n"), GateDecision::Continue);
    assert_eq!(gate_decision("Q\n"), GateDecision::Continue);
}

#[test]
fn phases_alternate() {
    assert_eq!(next_phase(Phase::Work), Phase::Break);
    assert_eq!(next_phase(Phase::Break), Phase::Work);
}
