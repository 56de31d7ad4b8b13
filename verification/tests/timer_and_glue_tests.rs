use cube_timer::config::{CompleteConfig, CursorType, FrontendConfig, TerminalConfig};
use cube_timer::system_command::{CommandOutput, SystemCommand};
use cube_timer::text::{millis_text, tenths_text};
use cube_timer::timer::CubeTimer;

#[test]
fn stopwatch_toggles_and_measures() {
    let mut t = CubeTimer::default();
    assert!(!t.on);
    assert_eq!(t.lasttime, 0);
    assert_eq!(t.space_press(1_000), None);
    assert!(t.on);
    assert_eq!(t.starttime, Some(1_000));
    let rec = t.space_press(13_500).expect("stopping yields a record");
    assert!(!t.on);
    assert_eq!(t.starttime, None);
    assert_eq!(t.lasttime, 12_500);
    assert_eq!(rec.time, 12_500);
    assert_eq!(rec.ao5, None);
    assert_eq!(rec.ao12, None);
}

#[test]
fn stopwatch_text_precision() {
    let mut t = CubeTimer::default();
    assert_eq!(t.text(0), "0.000");
    t.space_press(1_000);
    // Running: one-decimal precision, truncated.
    assert_eq!(t.text(14_080), "13.0");
    t.space_press(13_456);
    // Idle: the last duration at three decimals.
    assert_eq!(t.text(99_999), "12.456");
}

#[test]
fn duration_text_forms() {
    assert_eq!(millis_text(12_500), "12.500");
    assert_eq!(millis_text(0), "0.000");
    assert_eq!(millis_text(45), "0.045");
    assert_eq!(tenths_text(600), "0.6");
    assert_eq!(tenths_text(12_999), "12.9");
}

#[test]
fn config_defaults() {
    let c = CompleteConfig::default();
    assert_eq!(c.terminal.tick_delay, 3);
    assert_eq!(c.frontend.margin, 2);
    assert_eq!(c.frontend.cursor_shape, CursorType::User);
    assert!(c.frontend.blinking_cursor);
    assert_eq!(
        c.frontend.default_message,
        "> defaults:\n> margin=2\n> Cursor::Type=User\n> blinking_cursor=true"
    );
    assert_eq!(TerminalConfig::default().tick_delay, 3);
    assert_eq!(FrontendConfig::default().margin, 2);
    assert_eq!(CursorType::default(), CursorType::User);
}

#[test]
fn cursor_type_words() {
    assert_eq!(CursorType::from_str("line"), CursorType::Line);
    assert_eq!(CursorType::from_str("underscore"), CursorType::UnderScore);
    assert_eq!(CursorType::from_str("block"), CursorType::Block);
    assert_eq!(CursorType::from_str("anything"), CursorType::Block);
    assert_eq!(CursorType::from_str(""), CursorType::Block);
}

#[test]
fn command_builder_collects_arguments() {
    let mut ls = SystemCommand::new("ls");
    ls.arg("-l").arg("-a");
    assert_eq!(ls.command, "ls");
    assert_eq!(ls.args, vec!["-l".to_string(), "-a".to_string()]);

    let mut grep = SystemCommand::new("grep");
    grep.args(&["-i", "test"]);
    assert_eq!(grep.args, vec!["-i".to_string(), "test".to_string()]);
}

fn outcome(success: bool, stdout: &str, stderr: &str) -> CommandOutput {
    CommandOutput {
        success,
        status_text: if success { "exit status: 0".to_string() } else { "exit status: 1".to_string() },
        stdout_text: stdout.to_string(),
        stderr_text: stderr.to_string(),
    }
}

// The classification trims the stream it hands back; an untrimmed result
// would fail here.
#[test]
fn command_stdout_classification() {
    let cmd = SystemCommand::new("ls");
    let ok = cmd.execute_and_get_stdout(&outcome(true, "  hello world \n", ""));
    assert_eq!(ok.unwrap(), "hello world");

    let err = cmd
        .execute_and_get_stdout(&outcome(false, "", "  boom \n"))
        .unwrap_err();
    assert_eq!(err.status_text, "exit status: 1");
    assert_eq!(err.stderr_text, "boom");
}

#[test]
fn command_stderr_classification() {
    let cmd = SystemCommand::new("ls");
    let ok = cmd.execute_and_get_stderr(&outcome(true, "", " warn \n"));
    assert_eq!(ok.unwrap(), "warn");
    assert!(cmd.execute_and_get_stderr(&outcome(false, "", "x")).is_err());
}

#[test]
fn command_status_classification() {
    let cmd = SystemCommand::new("false");
    assert!(!cmd.execute_and_check_status(&outcome(false, "", "")));
    assert!(cmd.execute_and_check_status(&outcome(true, "", "")));
}
