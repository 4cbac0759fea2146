//! The key table: which key, under which modifiers, does what to the
//! command line.

use vstd::prelude::*;

verus! {

/// A key of the keyboard, as far as the console tells keys apart.
#[derive(Clone, Copy, Debug, PartialEq, Eq, Structural)]
pub enum Key {
    A,
    B,
    C,
    D,
    E,
    F,
    G,
    H,
    I,
    J,
    K,
    L,
    M,
    N,
    O,
    P,
    Q,
    R,
    S,
    T,
    U,
    V,
    W,
    X,
    Y,
    Z,
    Space,
    Slash,
    Period,
    Backspace,
    Return,
    Escape,
    /// Any key that the console has no use for.
    Other,
}

/// The modifier keys held down while a key was pressed.
#[derive(Clone, Copy, Debug, PartialEq, Eq, Structural)]
pub enum Modifier {
    /// No modifier at all.
    Plain,
    /// The left shift key and nothing else.
    LeftShift,
    /// Any other combination, left shift together with another modifier
    /// included.
    Other,
}

/// What the window reports to the console.
#[derive(Clone, Copy, Debug, PartialEq, Eq, Structural)]
pub enum InputEvent {
    /// A key went down.
    KeyDown { key: Key, modifier: Modifier },
    /// The window was asked to close.
    Quit,
    /// Anything else: text input, mouse, window changes.
    Other,
}

/// What an input event asks of the command line.
#[derive(Clone, Copy, Debug, PartialEq, Eq, Structural)]
pub enum Edit {
    /// Append this character.
    InsertChar(char),
    /// Remove the last character.
    DeleteChar,
    /// Remove the last word.
    DeleteWord,
    /// Run the line as a command.
    Submit,
    /// End the session.
    Cancel,
    /// Leave everything as it is.
    Ignore,
}

/// The characters that a key can put into the command line: the lower-case
/// letters, the space, `/` and `.`.
pub open spec fn is_accepted(c: char) -> bool {
    ('a' <= c && c <= 'z') || c == ' ' || c == '/' || c == '.'
}

/// The character printed on a key, for the keys that have one.
pub open spec fn key_character(key: Key) -> Option<char> {
    match key {
        Key::A => Some('a'),
        Key::B => Some('b'),
        Key::C => Some('c'),
        Key::D => Some('d'),
        Key::E => Some('e'),
        Key::F => Some('f'),
        Key::G => Some('g'),
        Key::H => Some('h'),
        Key::I => Some('i'),
        Key::J => Some('j'),
        Key::K => Some('k'),
        Key::L => Some('l'),
        Key::M => Some('m'),
        Key::N => Some('n'),
        Key::O => Some('o'),
        Key::P => Some('p'),
        Key::Q => Some('q'),
        Key::R => Some('r'),
        Key::S => Some('s'),
        Key::T => Some('t'),
        Key::U => Some('u'),
        Key::V => Some('v'),
        Key::W => Some('w'),
        Key::X => Some('x'),
        Key::Y => Some('y'),
        Key::Z => Some('z'),
        Key::Space => Some(' '),
        Key::Slash => Some('/'),
        Key::Period => Some('.'),
        Key::Backspace | Key::Return | Key::Escape | Key::Other => None,
    }
}

/// The code under which the window reports `key`: the ASCII code of the
/// character that the key types, and the codes of backspace, carriage
/// return and escape for the keys of those names. The key `Other` stands
/// for every code that is left and has none of its own.
pub open spec fn code_of(key: Key) -> Option<int> {
    match key {
        Key::Backspace => Some(8),
        Key::Return => Some(13),
        Key::Escape => Some(27),
        Key::Other => None,
        _ => match key_character(key) {
            Some(c) => Some(c as int),
            None => None,
        },
    }
}

/// The modifier that the window reports as `bits`, one bit for each
/// modifier key held: no bit is no modifier, the lowest bit alone is the
/// left shift key alone.
pub open spec fn modifier_of(bits: u16) -> Modifier {
    if bits == 0 {
        Modifier::Plain
    } else if bits == 1 {
        Modifier::LeftShift
    } else {
        Modifier::Other
    }
}

/// The keys that type their character whatever modifier is held.
pub open spec fn is_punctuation(key: Key) -> bool {
    key == Key::Space || key == Key::Slash || key == Key::Period
}

/// The character that `key` types under `modifier`, if it types one.
///
/// Without a modifier every key with a character types it. Under any
/// modifier only the space, `/` and `.` still do.
pub open spec fn typed_character(key: Key, modifier: Modifier) -> Option<char> {
    if modifier == Modifier::Plain || is_punctuation(key) {
        key_character(key)
    } else {
        None
    }
}

/// What `event` asks of the command line.
///
/// Escape and a request to close end the session, and Return submits the
/// line, whatever the modifier. Backspace removes the last word under left
/// shift alone and the last character without a modifier; under any other
/// modifier it does nothing. Every other key inserts the character that it
/// types, or is ignored when it types none.
pub open spec fn edit_of(event: InputEvent) -> Edit {
    match event {
        InputEvent::Quit => Edit::Cancel,
        InputEvent::Other => Edit::Ignore,
        InputEvent::KeyDown { key, modifier } => {
            if key == Key::Escape {
                Edit::Cancel
            } else if key == Key::Return {
                Edit::Submit
            } else if key == Key::Backspace {
                match modifier {
                    Modifier::LeftShift => Edit::DeleteWord,
                    Modifier::Plain => Edit::DeleteChar,
                    Modifier::Other => Edit::Ignore,
                }
            } else {
                match typed_character(key, modifier) {
                    Some(c) => Edit::InsertChar(c),
                    None => Edit::Ignore,
                }
            }
        },
    }
}

/// Whether `c` is one of the characters that a key can put into the line.
pub fn is_accepted_char(c: char) -> (r: bool)
    ensures
        r == is_accepted(c),
{
    ('a' <= c && c <= 'z') || c == ' ' || c == '/' || c == '.'
}

impl Modifier {
    /// The modifier that the window reports as `bits`.
    pub fn from_bits(bits: u16) -> (r: Modifier)
        ensures
            r == modifier_of(bits),
    {
        if bits == 0 {
            Modifier::Plain
        } else if bits == 1 {
            Modifier::LeftShift
        } else {
            Modifier::Other
        }
    }
}

impl Key {
    /// The key that the window reports as `code`: the key with that code,
    /// or `Other` when no key of the console has it.
    pub fn from_code(code: i32) -> (key: Key)
        ensures
            key != Key::Other ==> code_of(key) == Some(code as int),
            key == Key::Other ==> forall|other: Key| code_of(other) != Some(code as int),
    {
        match code {
            8 => Key::Backspace,
            13 => Key::Return,
            27 => Key::Escape,
            32 => Key::Space,
            46 => Key::Period,
            47 => Key::Slash,
            97 => Key::A,
            98 => Key::B,
            99 => Key::C,
            100 => Key::D,
            101 => Key::E,
            102 => Key::F,
            103 => Key::G,
            104 => Key::H,
            105 => Key::I,
            106 => Key::J,
            107 => Key::K,
            108 => Key::L,
            109 => Key::M,
            110 => Key::N,
            111 => Key::O,
            112 => Key::P,
            113 => Key::Q,
            114 => Key::R,
            115 => Key::S,
            116 => Key::T,
            117 => Key::U,
            118 => Key::V,
            119 => Key::W,
            120 => Key::X,
            121 => Key::Y,
            122 => Key::Z,
            _ => Key::Other,
        }
    }

    /// The character printed on this key, for the keys that have one.
    pub fn character(self) -> (r: Option<char>)
        ensures
            r == key_character(self),
            r matches Some(c) ==> is_accepted(c),
    {
        match self {
            Key::A => Some('a'),
            Key::B => Some('b'),
            Key::C => Some('c'),
            Key::D => Some('d'),
            Key::E => Some('e'),
            Key::F => Some('f'),
            Key::G => Some('g'),
            Key::H => Some('h'),
            Key::I => Some('i'),
            Key::J => Some('j'),
            Key::K => Some('k'),
            Key::L => Some('l'),
            Key::M => Some('m'),
            Key::N => Some('n'),
            Key::O => Some('o'),
            Key::P => Some('p'),
            Key::Q => Some('q'),
            Key::R => Some('r'),
            Key::S => Some('s'),
            Key::T => Some('t'),
            Key::U => Some('u'),
            Key::V => Some('v'),
            Key::W => Some('w'),
            Key::X => Some('x'),
            Key::Y => Some('y'),
            Key::Z => Some('z'),
            Key::Space => Some(' '),
            Key::Slash => Some('/'),
            Key::Period => Some('.'),
            Key::Backspace | Key::Return | Key::Escape | Key::Other => None,
        }
    }

    /// The character that this key types under `modifier`, if it types one.
    pub fn typed(self, modifier: Modifier) -> (r: Option<char>)
        ensures
            r == typed_character(self, modifier),
            r matches Some(c) ==> is_accepted(c),
    {
        let plain = match modifier {
            Modifier::Plain => true,
            _ => false,
        };
        let punctuation = match self {
            Key::Space | Key::Slash | Key::Period => true,
            _ => false,
        };
        if plain || punctuation {
            self.character()
        } else {
            None
        }
    }
}

impl InputEvent {
    /// What this event asks of the command line.
    pub fn edit(self) -> (r: Edit)
        ensures
            r == edit_of(self),
            r matches Edit::InsertChar(c) ==> is_accepted(c),
    {
        match self {
            InputEvent::Quit => Edit::Cancel,
            InputEvent::Other => Edit::Ignore,
            InputEvent::KeyDown { key, modifier } => match key {
                Key::Escape => Edit::Cancel,
                Key::Return => Edit::Submit,
                Key::Backspace => match modifier {
                    Modifier::LeftShift => Edit::DeleteWord,
                    Modifier::Plain => Edit::DeleteChar,
                    Modifier::Other => Edit::Ignore,
                },
                _ => match key.typed(modifier) {
                    Some(c) => Edit::InsertChar(c),
                    None => Edit::Ignore,
                },
            },
        }
    }
}

/// No event inserts anything but an accepted character, and the accepted
/// characters are printable ASCII: none of them is a control character.
pub proof fn lemma_inserted_is_printable(event: InputEvent)
    ensures
        edit_of(event) matches Edit::InsertChar(c) ==> is_accepted(c) && ' ' <= c && c <= '~',
{
}

} // verus!
