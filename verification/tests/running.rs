use miniconsole::console::{App, AppAction};
use miniconsole::keys::{InputEvent, Key, Modifier};
use miniconsole::resolver::FsView;
use miniconsole::runner::{capture_output, RunError};

fn press(key: Key) -> InputEvent {
    InputEvent::KeyDown { key, modifier: Modifier::Plain }
}

fn echo_hi() -> App {
    let mut app = App::new();
    let keys = [Key::E, Key::C, Key::H, Key::O, Key::Space, Key::H, Key::I];
    let events: Vec<InputEvent> = keys.iter().map(|k| press(*k)).collect();
    assert_eq!(app.input(&events), vec![AppAction::Nothing]);
    assert_eq!(app.command_line(), "echo hi");
    app
}

fn disk_with_echo() -> FsView {
    let mut files = FsView::new();
    files.add_directory("/bin".to_string());
    files.add_entry("/bin/echo".to_string());
    files
}

fn strings(items: &[&str]) -> Vec<String> {
    items.iter().map(|s| s.to_string()).collect()
}

#[test]
fn an_empty_line_is_an_empty_command() {
    let files = disk_with_echo();
    let r = App::run_command("", "/bin", &files);
    assert_eq!(r.err(), Some(RunError::EmptyCommand));
}

#[test]
fn a_blank_line_is_an_empty_command() {
    let files = disk_with_echo();
    for line in [" ", "   ", "\t", " \t\r\n\x0C "] {
        let r = App::run_command(line, "/bin", &files);
        assert_eq!(r.err(), Some(RunError::EmptyCommand));
    }
}

#[test]
fn a_program_that_is_not_found_is_no_error() {
    let files = disk_with_echo();
    let r = App::run_command("missing arg", "/bin", &files);
    assert!(matches!(r, Ok(None)));
    let r = App::run_command("echo hi", "", &files);
    assert!(matches!(r, Ok(None)));
}

#[test]
fn the_program_name_is_also_the_first_argument() {
    let files = disk_with_echo();
    let command = App::run_command("echo hi", "/usr/bin:/bin", &files).unwrap().unwrap();
    assert_eq!(command.program, "/bin/echo");
    assert_eq!(command.args, strings(&["echo", "hi"]));
}

#[test]
fn a_lone_program_name_is_its_own_argument() {
    let files = disk_with_echo();
    let command = App::run_command("  echo  ", "/bin", &files).unwrap().unwrap();
    assert_eq!(command.program, "/bin/echo");
    assert_eq!(command.args, strings(&["echo"]));
}

#[test]
fn arguments_are_the_words_of_the_line() {
    let files = disk_with_echo();
    let command = App::run_command("echo  a\tb   c.d /e ", "/bin", &files).unwrap().unwrap();
    assert_eq!(command.args, strings(&["echo", "a", "b", "c.d", "/e"]));
}

#[test]
fn output_that_is_text_is_captured() {
    assert_eq!(capture_output(Some(b"hi\n".to_vec())), Ok("hi\n".to_string()));
    assert_eq!(capture_output(Some(Vec::new())), Ok(String::new()));
    assert_eq!(
        capture_output(Some("gr\u{fc}\u{df}e \u{2603}".as_bytes().to_vec())),
        Ok("gr\u{fc}\u{df}e \u{2603}".to_string())
    );
}

#[test]
fn a_program_that_did_not_start_is_a_spawn_failure() {
    assert_eq!(capture_output(None), Err(RunError::SpawnFailed));
}

#[test]
fn output_that_is_not_utf8_is_an_encoding_error() {
    assert_eq!(capture_output(Some(vec![0xff])), Err(RunError::InvalidOutputEncoding));
    assert_eq!(capture_output(Some(vec![b'h', b'i', 0xc3])), Err(RunError::InvalidOutputEncoding));
    assert_eq!(
        capture_output(Some(vec![0xed, 0xa0, 0x80])),
        Err(RunError::InvalidOutputEncoding)
    );
}

#[test]
fn every_error_has_a_message() {
    assert_eq!(RunError::EmptyCommand.message(), "Running empty command");
    assert_eq!(RunError::SpawnFailed.message(), "Failed to start command");
    assert_eq!(RunError::InvalidOutputEncoding.message(), "Command output is not valid UTF-8");
}

#[test]
fn submitting_a_blank_line_changes_nothing_and_runs_nothing() {
    let files = disk_with_echo();
    let app = App::new();
    assert!(app.submit("/bin", &files).is_none());
    assert_eq!(app.command_line(), "");
    assert_eq!(app.transcript(), "");

    let mut app = App::new();
    let events = vec![press(Key::Space), press(Key::Space), press(Key::Return)];
    assert_eq!(app.input(&events), vec![AppAction::RunCommand]);
    assert!(app.submit("/bin", &files).is_none());
    assert_eq!(app.command_line(), "  ");
    assert_eq!(app.transcript(), "");
}

#[test]
fn a_failed_resolution_leaves_the_session_unchanged() {
    let app = echo_hi();
    let files = FsView::new();
    assert!(app.submit("/bin", &files).is_none());
    assert_eq!(app.command_line(), "echo hi");
    assert_eq!(app.transcript(), "");
}

#[test]
fn submit_returns_the_command_to_execute() {
    let app = echo_hi();
    let command = app.submit("/bin", &disk_with_echo()).unwrap();
    assert_eq!(command.program, "/bin/echo");
    assert_eq!(command.args, strings(&["echo", "hi"]));
    assert_eq!(app.command_line(), "echo hi");
}

#[test]
fn a_successful_run_appends_the_output_and_clears_the_line() {
    let mut app = echo_hi();
    assert!(app.submit("/bin", &disk_with_echo()).is_some());
    assert_eq!(app.complete(Some(b"hi\n".to_vec())), Ok(()));
    assert_eq!(app.transcript(), "hi\n");
    assert_eq!(app.command_line(), "");
    assert_eq!(app.frame_text(), "hi\n\n> ");
}

#[test]
fn the_transcript_only_grows() {
    let mut app = echo_hi();
    assert_eq!(app.complete(Some(b"one\n".to_vec())), Ok(()));
    assert_eq!(app.complete(Some(b"two\n".to_vec())), Ok(()));
    assert_eq!(app.transcript(), "one\ntwo\n");
    assert_eq!(app.complete(Some(Vec::new())), Ok(()));
    assert_eq!(app.transcript(), "one\ntwo\n");
    assert_eq!(app.complete(None), Err(RunError::SpawnFailed));
    assert_eq!(app.transcript(), "one\ntwo\nFailed to start command\n");
}

#[test]
fn a_run_with_empty_output_still_clears_the_line() {
    let mut app = echo_hi();
    assert_eq!(app.complete(Some(Vec::new())), Ok(()));
    assert_eq!(app.transcript(), "");
    assert_eq!(app.command_line(), "");
}

#[test]
fn a_spawn_failure_is_shown_and_keeps_the_line() {
    let mut app = echo_hi();
    assert_eq!(app.complete(None), Err(RunError::SpawnFailed));
    assert_eq!(app.transcript(), "Failed to start command\n");
    assert_eq!(app.command_line(), "echo hi");
    assert_eq!(app.frame_text(), "Failed to start command\n\n> echo hi");
}

#[test]
fn an_encoding_error_is_shown_and_keeps_the_line() {
    let mut app = echo_hi();
    assert_eq!(app.complete(Some(vec![0xff, 0xfe])), Err(RunError::InvalidOutputEncoding));
    assert_eq!(app.transcript(), "Command output is not valid UTF-8\n");
    assert_eq!(app.command_line(), "echo hi");
}

#[test]
fn typing_goes_on_after_a_run() {
    let mut app = echo_hi();
    assert_eq!(app.complete(Some(b"hi\n".to_vec())), Ok(()));
    assert_eq!(app.input(&vec![press(Key::L), press(Key::S)]), vec![AppAction::Nothing]);
    assert_eq!(app.command_line(), "ls");
    assert_eq!(app.frame_text(), "hi\n\n> ls");
}
