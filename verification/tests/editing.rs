use miniconsole::console::{App, AppAction, Step};
use miniconsole::keys::{Edit, InputEvent, Key, Modifier};
use miniconsole::words::{is_blank_text, is_whitespace_char, join_words, split_words};

fn key_for(c: char) -> Key {
    match c {
        'a' => Key::A,
        'b' => Key::B,
        'c' => Key::C,
        'd' => Key::D,
        'e' => Key::E,
        'f' => Key::F,
        'g' => Key::G,
        'h' => Key::H,
        'i' => Key::I,
        'j' => Key::J,
        'k' => Key::K,
        'l' => Key::L,
        'm' => Key::M,
        'n' => Key::N,
        'o' => Key::O,
        'p' => Key::P,
        'q' => Key::Q,
        'r' => Key::R,
        's' => Key::S,
        't' => Key::T,
        'u' => Key::U,
        'v' => Key::V,
        'w' => Key::W,
        'x' => Key::X,
        'y' => Key::Y,
        'z' => Key::Z,
        ' ' => Key::Space,
        '/' => Key::Slash,
        '.' => Key::Period,
        _ => panic!("no key types {:?}", c),
    }
}

fn press(key: Key) -> InputEvent {
    InputEvent::KeyDown { key, modifier: Modifier::Plain }
}

fn typed(text: &str) -> App {
    let mut app = App::new();
    let events: Vec<InputEvent> = text.chars().map(|c| press(key_for(c))).collect();
    let actions = app.input(&events);
    assert_eq!(actions, vec![AppAction::Nothing]);
    app
}

fn strings(items: &[&str]) -> Vec<String> {
    items.iter().map(|s| s.to_string()).collect()
}

#[test]
fn new_session_is_empty() {
    let app = App::new();
    assert_eq!(app.transcript(), "");
    assert_eq!(app.command_line(), "");
}

#[test]
fn typing_l_then_s_gives_ls() {
    let mut app = App::new();
    assert_eq!(app.input(&vec![press(Key::L)]), vec![AppAction::Nothing]);
    assert_eq!(app.command_line(), "l");
    assert_eq!(app.input(&vec![press(Key::S)]), vec![AppAction::Nothing]);
    assert_eq!(app.command_line(), "ls");
    assert_eq!(app.transcript(), "");
}

#[test]
fn typing_in_one_frame_keeps_the_order() {
    let mut app = App::new();
    let events = vec![press(Key::L), press(Key::S), press(Key::Space), press(Key::Slash)];
    assert_eq!(app.input(&events), vec![AppAction::Nothing]);
    assert_eq!(app.command_line(), "ls /");
}

#[test]
fn every_key_of_the_table_types_its_character() {
    let alphabet = "abcdefghijklmnopqrstuvwxyz /.";
    for c in alphabet.chars() {
        let key = key_for(c);
        assert_eq!(key.character(), Some(c));
        assert_eq!(key.typed(Modifier::Plain), Some(c));
        assert_eq!(press(key).edit(), Edit::InsertChar(c));
    }
    assert_eq!(typed(alphabet).command_line(), alphabet);
}

#[test]
fn keys_without_a_character_type_nothing() {
    for key in [Key::Backspace, Key::Return, Key::Escape, Key::Other] {
        assert_eq!(key.character(), None);
        for modifier in [Modifier::Plain, Modifier::LeftShift, Modifier::Other] {
            assert_eq!(key.typed(modifier), None);
        }
    }
}

#[test]
fn letters_are_ignored_under_a_modifier() {
    for modifier in [Modifier::LeftShift, Modifier::Other] {
        assert_eq!(Key::A.typed(modifier), None);
        assert_eq!(Key::Z.typed(modifier), None);
        let event = InputEvent::KeyDown { key: Key::Q, modifier };
        assert_eq!(event.edit(), Edit::Ignore);
        let mut app = typed("ab");
        assert_eq!(app.input(&vec![event]), vec![AppAction::Nothing]);
        assert_eq!(app.command_line(), "ab");
    }
}

#[test]
fn punctuation_is_typed_under_any_modifier() {
    for modifier in [Modifier::Plain, Modifier::LeftShift, Modifier::Other] {
        assert_eq!(Key::Space.typed(modifier), Some(' '));
        assert_eq!(Key::Slash.typed(modifier), Some('/'));
        assert_eq!(Key::Period.typed(modifier), Some('.'));
        let mut app = typed("a");
        let events = vec![
            InputEvent::KeyDown { key: Key::Space, modifier },
            InputEvent::KeyDown { key: Key::Period, modifier },
            InputEvent::KeyDown { key: Key::Slash, modifier },
        ];
        app.input(&events);
        assert_eq!(app.command_line(), "a ./");
    }
}

#[test]
fn unknown_keys_and_other_events_change_nothing() {
    let mut app = typed("ls");
    let events = vec![press(Key::Other), InputEvent::Other];
    assert_eq!(app.input(&events), vec![AppAction::Nothing]);
    assert_eq!(app.command_line(), "ls");
    assert_eq!(InputEvent::Other.edit(), Edit::Ignore);
    assert_eq!(press(Key::Other).edit(), Edit::Ignore);
}

#[test]
fn insert_char_refuses_what_no_key_types() {
    let mut app = typed("ls");
    for c in ['A', 'Z', '0', '\n', '\t', '\u{7f}', '-', 'é', '~', '`', '{'] {
        app.insert_char(c);
        assert_eq!(app.command_line(), "ls");
    }
    app.insert_char('a');
    app.insert_char('z');
    app.insert_char(' ');
    app.insert_char('/');
    app.insert_char('.');
    assert_eq!(app.command_line(), "lsaz /.");
}

#[test]
fn delete_char_on_empty_line_leaves_it_empty() {
    let mut app = App::new();
    app.delete_char();
    assert_eq!(app.command_line(), "");
    let events = vec![press(Key::Backspace), press(Key::Backspace)];
    assert_eq!(app.input(&events), vec![AppAction::Nothing]);
    assert_eq!(app.command_line(), "");
}

#[test]
fn delete_char_removes_the_last_character() {
    let mut app = typed("ls /");
    app.delete_char();
    assert_eq!(app.command_line(), "ls ");
    assert_eq!(app.input(&vec![press(Key::Backspace)]), vec![AppAction::Nothing]);
    assert_eq!(app.command_line(), "ls");
}

#[test]
fn backspace_under_another_modifier_is_ignored() {
    let event = InputEvent::KeyDown { key: Key::Backspace, modifier: Modifier::Other };
    assert_eq!(event.edit(), Edit::Ignore);
    let mut app = typed("ls");
    app.input(&vec![event]);
    assert_eq!(app.command_line(), "ls");
}

#[test]
fn delete_word_on_three_words() {
    let mut app = typed("build the thing");
    app.delete_word();
    assert_eq!(app.command_line(), "build the");
}

#[test]
fn delete_word_on_a_single_word() {
    let mut app = typed("build");
    app.delete_word();
    assert_eq!(app.command_line(), "");
}

#[test]
fn delete_word_on_empty_and_blank_lines() {
    let mut app = App::new();
    app.delete_word();
    assert_eq!(app.command_line(), "");
    let mut app = typed("   ");
    app.delete_word();
    assert_eq!(app.command_line(), "");
}

#[test]
fn delete_word_joins_the_rest_with_single_spaces() {
    let mut app = typed("  build   the    thing  ");
    app.delete_word();
    assert_eq!(app.command_line(), "build the");
    app.delete_word();
    assert_eq!(app.command_line(), "build");
    app.delete_word();
    assert_eq!(app.command_line(), "");
}

#[test]
fn shift_backspace_deletes_a_word() {
    let event = InputEvent::KeyDown { key: Key::Backspace, modifier: Modifier::LeftShift };
    assert_eq!(event.edit(), Edit::DeleteWord);
    assert_eq!(press(Key::Backspace).edit(), Edit::DeleteChar);
    let mut app = typed("build the thing");
    assert_eq!(app.input(&vec![event]), vec![AppAction::Nothing]);
    assert_eq!(app.command_line(), "build the");
}

#[test]
fn return_asks_to_run_and_keeps_the_line() {
    for modifier in [Modifier::Plain, Modifier::LeftShift, Modifier::Other] {
        let event = InputEvent::KeyDown { key: Key::Return, modifier };
        assert_eq!(event.edit(), Edit::Submit);
        let mut app = typed("ls");
        assert_eq!(app.input(&vec![event]), vec![AppAction::RunCommand]);
        assert_eq!(app.command_line(), "ls");
    }
}

#[test]
fn escape_and_quit_ask_to_leave() {
    for modifier in [Modifier::Plain, Modifier::LeftShift, Modifier::Other] {
        let event = InputEvent::KeyDown { key: Key::Escape, modifier };
        assert_eq!(event.edit(), Edit::Cancel);
        let mut app = typed("ls");
        assert_eq!(app.input(&vec![event]), vec![AppAction::Exit]);
        assert_eq!(app.command_line(), "ls");
    }
    assert_eq!(InputEvent::Quit.edit(), Edit::Cancel);
    let mut app = App::new();
    assert_eq!(app.input(&vec![InputEvent::Quit]), vec![AppAction::Exit]);
}

#[test]
fn a_frame_without_events_has_the_one_action_nothing() {
    let mut app = typed("ls");
    assert_eq!(app.input(&Vec::new()), vec![AppAction::Nothing]);
    assert_eq!(app.command_line(), "ls");
}

#[test]
fn requests_come_in_the_order_of_the_events() {
    let mut app = App::new();
    let events = vec![
        press(Key::L),
        press(Key::Return),
        press(Key::S),
        InputEvent::Quit,
        press(Key::Return),
        press(Key::Backspace),
    ];
    let actions = app.input(&events);
    assert_eq!(actions, vec![AppAction::RunCommand, AppAction::Exit, AppAction::RunCommand]);
    assert_eq!(app.command_line(), "l");
}

#[test]
fn apply_reports_the_request_of_an_edit() {
    let mut app = typed("ls");
    assert_eq!(app.apply(Edit::Submit), Some(AppAction::RunCommand));
    assert_eq!(app.apply(Edit::Cancel), Some(AppAction::Exit));
    assert_eq!(app.apply(Edit::Ignore), None);
    assert_eq!(app.command_line(), "ls");
    assert_eq!(app.apply(Edit::InsertChar('.')), None);
    assert_eq!(app.command_line(), "ls.");
    assert_eq!(app.apply(Edit::DeleteChar), None);
    assert_eq!(app.command_line(), "ls");
    assert_eq!(app.apply(Edit::DeleteWord), None);
    assert_eq!(app.command_line(), "");
}

#[test]
fn run_says_what_the_frame_comes_to() {
    let mut app = App::new();
    assert_eq!(app.run(&Vec::new()), Step { run_command: false, exit: false });
    assert_eq!(app.run(&vec![press(Key::L)]), Step { run_command: false, exit: false });
    assert_eq!(app.command_line(), "l");
    assert_eq!(app.run(&vec![press(Key::Return)]), Step { run_command: true, exit: false });
    assert_eq!(app.run(&vec![press(Key::Escape)]), Step { run_command: false, exit: true });
    assert_eq!(
        app.run(&vec![press(Key::Return), press(Key::Escape)]),
        Step { run_command: true, exit: true }
    );
    assert_eq!(
        app.run(&vec![press(Key::Escape), press(Key::Return)]),
        Step { run_command: false, exit: true }
    );
    assert_eq!(
        app.run(&vec![press(Key::Return), press(Key::S), press(Key::Return)]),
        Step { run_command: true, exit: false }
    );
    assert_eq!(app.command_line(), "ls");
}

#[test]
fn a_blank_line_is_never_run() {
    let mut app = App::new();
    assert_eq!(app.run(&vec![press(Key::Return)]), Step { run_command: false, exit: false });
    assert_eq!(
        app.run(&vec![press(Key::Space), press(Key::Space), press(Key::Return)]),
        Step { run_command: false, exit: false }
    );
    assert_eq!(app.command_line(), "  ");
    assert_eq!(
        app.run(&vec![press(Key::Return), press(Key::Escape)]),
        Step { run_command: false, exit: true }
    );
    assert_eq!(
        app.run(&vec![press(Key::Return), press(Key::L)]),
        Step { run_command: true, exit: false }
    );
    let wipe = InputEvent::KeyDown { key: Key::Backspace, modifier: Modifier::LeftShift };
    assert_eq!(app.run(&vec![press(Key::Return), wipe]), Step { run_command: false, exit: false });
    assert_eq!(app.command_line(), "");
}

#[test]
fn frame_text_is_transcript_prompt_and_line() {
    let app = App::new();
    assert_eq!(app.frame_text(), "\n> ");
    let app = typed("ls /");
    assert_eq!(app.frame_text(), "\n> ls /");
}

#[test]
fn words_are_split_on_ascii_whitespace() {
    assert_eq!(split_words(""), Vec::<String>::new());
    assert_eq!(split_words(" \t\r\n\x0C"), Vec::<String>::new());
    assert_eq!(split_words("echo hi"), strings(&["echo", "hi"]));
    assert_eq!(split_words("  echo \t hi\n"), strings(&["echo", "hi"]));
    assert_eq!(split_words("a"), strings(&["a"]));
    assert_eq!(split_words("a\u{a0}b c"), strings(&["a\u{a0}b", "c"]));
    assert_eq!(split_words("a\x0Bb"), strings(&["a\x0Bb"]));
    let text = "one two  three\tfour\nfive";
    let expected: Vec<String> = text.split_ascii_whitespace().map(|s| s.to_string()).collect();
    assert_eq!(split_words(text), expected);
}

#[test]
fn whitespace_is_the_five_ascii_characters() {
    for c in [' ', '\t', '\n', '\x0C', '\r'] {
        assert!(is_whitespace_char(c));
    }
    for c in ['a', '\x0B', '\u{a0}', '\0', '/', '.'] {
        assert!(!is_whitespace_char(c));
    }
}

#[test]
fn blank_texts_are_those_without_a_word() {
    for text in ["", " ", "\t", " \t\r\n\x0C "] {
        assert!(is_blank_text(text));
        assert!(split_words(text).is_empty());
    }
    for text in ["a", " a ", "\x0B", "\u{a0}", "  .", "/ "] {
        assert!(!is_blank_text(text));
        assert!(!split_words(text).is_empty());
    }
}

#[test]
fn words_are_joined_with_single_spaces() {
    assert_eq!(join_words(&Vec::new()), "");
    assert_eq!(join_words(&strings(&["build"])), "build");
    assert_eq!(join_words(&strings(&["build", "the", "thing"])), "build the thing");
    let words = split_words("  build   the thing ");
    assert_eq!(split_words(&join_words(&words)), words);
}

#[test]
fn keys_are_told_apart_by_their_codes() {
    for c in "abcdefghijklmnopqrstuvwxyz /.".chars() {
        assert_eq!(Key::from_code(c as i32), key_for(c));
        assert_eq!(Key::from_code(c as i32).character(), Some(c));
    }
    assert_eq!(Key::from_code(8), Key::Backspace);
    assert_eq!(Key::from_code(13), Key::Return);
    assert_eq!(Key::from_code(27), Key::Escape);
}

#[test]
fn codes_of_no_key_of_the_console_are_other() {
    for code in [0, -1, 9, 10, 31, 33, 45, 48, 57, 65, 90, 96, 123, 127, 1073741882, i32::MAX, i32::MIN] {
        assert_eq!(Key::from_code(code), Key::Other);
    }
}

#[test]
fn modifiers_are_told_apart_by_their_bits() {
    assert_eq!(Modifier::from_bits(0), Modifier::Plain);
    assert_eq!(Modifier::from_bits(1), Modifier::LeftShift);
    for bits in [2, 3, 0x40, 0x41, 0x100, 0x1000, 0x1001, 0x2000, u16::MAX] {
        assert_eq!(Modifier::from_bits(bits), Modifier::Other);
    }
}

#[test]
fn a_reported_key_press_edits_the_line() {
    let mut app = App::new();
    let pressed = |code: i32, bits: u16| InputEvent::KeyDown {
        key: Key::from_code(code),
        modifier: Modifier::from_bits(bits),
    };
    let events = vec![pressed(108, 0), pressed(115, 0), pressed(32, 2), pressed(97, 1)];
    assert_eq!(app.input(&events), vec![AppAction::Nothing]);
    assert_eq!(app.command_line(), "ls ");
    assert_eq!(app.input(&vec![pressed(8, 1)]), vec![AppAction::Nothing]);
    assert_eq!(app.command_line(), "");
    assert_eq!(app.input(&vec![pressed(13, 0x1000)]), vec![AppAction::RunCommand]);
    assert_eq!(app.input(&vec![pressed(27, 0)]), vec![AppAction::Exit]);
}
