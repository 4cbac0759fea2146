//! The console session: the transcript of everything printed so far and the
//! command line that is being typed.

use crate::keys::{edit_of, is_accepted, is_accepted_char, Edit, InputEvent};
use crate::resolver::{find_command, search_dirs, Files, FsView};
use crate::runner::{
    capture_output, captured, message, planned, Command, ResolvedCommand, RunError,
};
use crate::text::{pop_char, push_char};
use crate::words::{
    is_blank, is_blank_text, is_word, join, join_words, lemma_join_chars, lemma_no_words_iff_blank,
    lemma_words_are_words, lemma_words_come_from_text, lemma_words_of_join, split_words, words,
};
use vstd::prelude::*;

verus! {

/// What a frame's input asks the program to do once the edits are applied.
#[derive(Clone, Copy, Debug, PartialEq, Eq, Structural)]
pub enum AppAction {
    /// Nothing but to draw the next frame.
    Nothing,
    /// Leave the main loop.
    Exit,
    /// Run the command line.
    RunCommand,
}

/// A console session as a pair of texts.
pub struct Console {
    /// Everything printed so far.
    pub transcript: Seq<char>,
    /// The command line that is being typed.
    pub pending: Seq<char>,
}

/// The prompt that stands before the command line.
pub open spec fn prompt() -> Seq<char> {
    seq!['>', ' ']
}

/// Every character of `line` is one that a key can type.
pub open spec fn is_typed(line: Seq<char>) -> bool {
    forall|i: int| 0 <= i < line.len() ==> is_accepted(#[trigger] line[i])
}

/// `line` without its last word, the remaining words one space apart.
pub open spec fn without_last_word(line: Seq<char>) -> Seq<char> {
    if words(line).len() == 0 {
        Seq::empty()
    } else {
        join(words(line).drop_last())
    }
}

/// The command line after `edit`.
pub open spec fn apply_edit(line: Seq<char>, edit: Edit) -> Seq<char> {
    match edit {
        Edit::InsertChar(c) => if is_accepted(c) {
            line.push(c)
        } else {
            line
        },
        Edit::DeleteChar => if line.len() > 0 {
            line.drop_last()
        } else {
            line
        },
        Edit::DeleteWord => without_last_word(line),
        Edit::Submit | Edit::Cancel | Edit::Ignore => line,
    }
}

/// The command line after the edits of `events`, applied in order.
pub open spec fn apply_events(line: Seq<char>, events: Seq<InputEvent>) -> Seq<char>
    decreases events.len(),
{
    if events.len() == 0 {
        line
    } else {
        apply_edit(apply_events(line, events.drop_last()), edit_of(events.last()))
    }
}

/// What `edit` asks of the program, if anything.
pub open spec fn request_of(edit: Edit) -> Option<AppAction> {
    match edit {
        Edit::Submit => Some(AppAction::RunCommand),
        Edit::Cancel => Some(AppAction::Exit),
        _ => None,
    }
}

/// The requests among `events`, in order.
pub open spec fn requests(events: Seq<InputEvent>) -> Seq<AppAction>
    decreases events.len(),
{
    if events.len() == 0 {
        Seq::empty()
    } else {
        match request_of(edit_of(events.last())) {
            Some(action) => requests(events.drop_last()).push(action),
            None => requests(events.drop_last()),
        }
    }
}

/// The actions of a frame: its requests, or the one action `Nothing` when
/// there is none.
pub open spec fn actions(events: Seq<InputEvent>) -> Seq<AppAction> {
    if requests(events).len() == 0 {
        seq![AppAction::Nothing]
    } else {
        requests(events)
    }
}

/// The text of a frame: the transcript, a line break, the prompt and the
/// command line.
pub open spec fn frame_text(console: Console) -> Seq<char> {
    console.transcript + seq!['\n'] + prompt() + console.pending
}

/// What the program does once a frame's input is applied.
#[derive(Clone, Copy, Debug, PartialEq, Eq, Structural)]
pub struct Step {
    /// Run the command line before the next frame is drawn.
    pub run_command: bool,
    /// Leave the main loop instead of drawing the next frame.
    pub exit: bool,
}

/// The frame asks to leave.
pub open spec fn leaves(actions: Seq<AppAction>) -> bool {
    exists|i: int| 0 <= i < actions.len() && actions[i] == AppAction::Exit
}

/// The frame asks to run the command line before it asks to leave, if it
/// asks to leave at all.
pub open spec fn runs(actions: Seq<AppAction>) -> bool {
    exists|i: int|
        0 <= i < actions.len() && actions[i] == AppAction::RunCommand && forall|j: int|
            0 <= j < i ==> actions[j] != AppAction::Exit
}

/// The step that a frame's actions come to, read action by action: a
/// request to leave is kept, and a request to run the command line counts
/// unless the frame has asked to leave before it.
pub open spec fn step_of(actions: Seq<AppAction>) -> Step
    decreases actions.len(),
{
    if actions.len() == 0 {
        Step { run_command: false, exit: false }
    } else {
        let before = step_of(actions.drop_last());
        match actions.last() {
            AppAction::Exit => Step { run_command: before.run_command, exit: true },
            AppAction::RunCommand => Step {
                run_command: before.run_command || !before.exit,
                exit: before.exit,
            },
            AppAction::Nothing => before,
        }
    }
}

/// The step that a frame comes to when its edits leave the command line
/// `line`: as its actions say, but a blank line is never run.
pub open spec fn step_for(actions: Seq<AppAction>, line: Seq<char>) -> Step {
    Step {
        run_command: step_of(actions).run_command && !is_blank(line),
        exit: step_of(actions).exit,
    }
}

/// The command to execute for the command line `line`, if there is one.
pub open spec fn to_execute(line: Seq<char>, dirs: Seq<Seq<char>>, files: Files) -> Option<
    Command,
> {
    match planned(line, dirs, files) {
        Ok(Some(command)) => Some(command),
        _ => None,
    }
}

/// The session after a run, given what came of starting the program.
///
/// Output that is text goes to the end of the transcript, and the command
/// line is cleared. A run that failed puts a line with its message there
/// instead and leaves the command line as it is.
pub open spec fn after_run(console: Console, spawned: Option<Seq<u8>>) -> Console {
    match captured(spawned) {
        Ok(text) => Console { transcript: console.transcript + text, pending: Seq::empty() },
        Err(error) => Console {
            transcript: console.transcript + message(error) + seq!['\n'],
            pending: console.pending,
        },
    }
}

/// The state of a console session.
pub struct App {
    buffer: String,
    command_line: String,
}

impl View for App {
    type V = Console;

    closed spec fn view(&self) -> Console {
        Console { transcript: self.buffer@, pending: self.command_line@ }
    }
}

impl App {
    /// The command line holds typed characters only.
    pub open spec fn wf(&self) -> bool {
        is_typed(self@.pending)
    }

    /// A session with nothing printed and nothing typed.
    pub fn new() -> (r: App)
        ensures
            r.wf(),
            r@.transcript.len() == 0,
            r@.pending.len() == 0,
    {
        App { buffer: String::new(), command_line: String::new() }
    }

    /// Everything printed so far.
    pub fn transcript(&self) -> (r: &str)
        ensures
            r@ == self@.transcript,
    {
        self.buffer.as_str()
    }

    /// The command line that is being typed.
    pub fn command_line(&self) -> (r: &str)
        ensures
            r@ == self@.pending,
    {
        self.command_line.as_str()
    }

    /// Appends `c` to the command line if a key can type it, and does
    /// nothing otherwise.
    pub fn insert_char(&mut self, c: char)
        requires
            old(self).wf(),
        ensures
            final(self).wf(),
            final(self)@.pending == apply_edit(old(self)@.pending, Edit::InsertChar(c)),
            final(self)@.transcript == old(self)@.transcript,
    {
        if is_accepted_char(c) {
            push_char(&mut self.command_line, c);
        }
    }

    /// Removes the last character of the command line. An empty line stays
    /// empty.
    pub fn delete_char(&mut self)
        requires
            old(self).wf(),
        ensures
            final(self).wf(),
            final(self)@.pending == apply_edit(old(self)@.pending, Edit::DeleteChar),
            old(self)@.pending.len() == 0 ==> final(self)@.pending.len() == 0,
            final(self)@.transcript == old(self)@.transcript,
    {
        let _ = pop_char(&mut self.command_line);
    }

    /// Removes the last word of the command line and leaves the words
    /// before it one space apart. A line without words becomes empty.
    pub fn delete_word(&mut self)
        requires
            old(self).wf(),
        ensures
            final(self).wf(),
            final(self)@.pending == apply_edit(old(self)@.pending, Edit::DeleteWord),
            final(self)@.transcript == old(self)@.transcript,
    {
        let mut ws = split_words(self.command_line.as_str());
        proof {
            lemma_without_last_word_is_typed(self@.pending);
        }
        if ws.len() == 0 {
            self.command_line = String::new();
        } else {
            let ghost all = ws.deep_view();
            let _ = ws.pop();
            assert(ws.deep_view() == all.drop_last());
            self.command_line = join_words(&ws);
        }
    }

    /// Applies `edit` to the command line and returns what it asks of the
    /// program, if anything.
    pub fn apply(&mut self, edit: Edit) -> (r: Option<AppAction>)
        requires
            old(self).wf(),
        ensures
            final(self).wf(),
            final(self)@.pending == apply_edit(old(self)@.pending, edit),
            final(self)@.transcript == old(self)@.transcript,
            r == request_of(edit),
    {
        match edit {
            Edit::InsertChar(c) => {
                self.insert_char(c);
                None
            },
            Edit::DeleteChar => {
                self.delete_char();
                None
            },
            Edit::DeleteWord => {
                self.delete_word();
                None
            },
            Edit::Submit => Some(AppAction::RunCommand),
            Edit::Cancel => Some(AppAction::Exit),
            Edit::Ignore => None,
        }
    }

    /// Applies the edits of a frame's `events` in order and returns the
    /// frame's actions: one for each request to run the line or to leave,
    /// in order, or the single action `Nothing` when there is none.
    pub fn input(&mut self, events: &Vec<InputEvent>) -> (r: Vec<AppAction>)
        requires
            old(self).wf(),
        ensures
            final(self).wf(),
            final(self)@.pending == apply_events(old(self)@.pending, events@),
            final(self)@.transcript == old(self)@.transcript,
            r@ == actions(events@),
    {
        let mut found: Vec<AppAction> = Vec::new();
        let mut k: usize = 0;
        assert(events@.take(0) == Seq::<InputEvent>::empty());
        while k < events.len()
            invariant
                0 <= k <= events.len(),
                self.wf(),
                self@.pending == apply_events(old(self)@.pending, events@.take(k as int)),
                self@.transcript == old(self)@.transcript,
                found@ == requests(events@.take(k as int)),
            decreases events.len() - k,
        {
            proof {
                let upto = events@.take(k as int + 1);
                assert(upto.drop_last() == events@.take(k as int));
                assert(upto.last() == events@[k as int]);
            }
            let edit = events[k].edit();
            match self.apply(edit) {
                Some(action) => found.push(action),
                None => {},
            }
            k = k + 1;
        }
        assert(events@.take(events.len() as int) == events@);
        if found.len() == 0 {
            found.push(AppAction::Nothing);
        }
        found
    }

    /// One turn of the main loop: applies the edits of the frame's `events`
    /// and says what the program is to do before the next frame.
    ///
    /// The command line is to be run when the frame asks for it before it
    /// asks to leave, and then once however often it asks; a line that the
    /// edits leave blank is never run. The loop is to be left when the frame
    /// asks for that at all.
    pub fn run(&mut self, events: &Vec<InputEvent>) -> (r: Step)
        requires
            old(self).wf(),
        ensures
            final(self).wf(),
            final(self)@.pending == apply_events(old(self)@.pending, events@),
            final(self)@.transcript == old(self)@.transcript,
            r == step_for(actions(events@), final(self)@.pending),
            is_blank(final(self)@.pending) ==> !r.run_command,
    {
        let found = self.input(events);
        let mut run_command = false;
        let mut exit = false;
        let mut k: usize = 0;
        assert(found@.take(0) == Seq::<AppAction>::empty());
        while k < found.len()
            invariant
                0 <= k <= found.len(),
                step_of(found@.take(k as int)) == (Step { run_command, exit }),
            decreases found.len() - k,
        {
            proof {
                let next = found@.take(k as int + 1);
                assert(next.drop_last() == found@.take(k as int));
                assert(next.last() == found@[k as int]);
            }
            match found[k] {
                AppAction::Exit => {
                    exit = true;
                },
                AppAction::RunCommand => {
                    if !exit {
                        run_command = true;
                    }
                },
                AppAction::Nothing => {},
            }
            k = k + 1;
        }
        assert(found@.take(found.len() as int) == found@);
        if run_command && is_blank_text(self.command_line.as_str()) {
            run_command = false;
        }
        Step { run_command, exit }
    }

    /// Decides what is to be executed for `command_line`, given the search
    /// path and what the disk holds.
    ///
    /// Fails with `EmptyCommand` exactly when the line is blank. A line whose
    /// first word is not found on the search path is no error: there is then
    /// nothing to execute. Otherwise the program found is to be executed,
    /// with all the words of the line as its arguments.
    pub fn run_command(command_line: &str, search_path: &str, files: &FsView) -> (r: Result<
        Option<ResolvedCommand>,
        RunError,
    >)
        ensures
            match r {
                Ok(Some(command)) => planned(command_line@, search_dirs(search_path@), files@)
                    == Ok::<Option<Command>, RunError>(Some(command@)),
                Ok(None) => planned(command_line@, search_dirs(search_path@), files@) == Ok::<
                    Option<Command>,
                    RunError,
                >(None),
                Err(error) => planned(command_line@, search_dirs(search_path@), files@) == Err::<
                    Option<Command>,
                    RunError,
                >(error),
            },
            r is Err <==> is_blank(command_line@),
    {
        proof {
            lemma_no_words_iff_blank(command_line@);
        }
        let args = split_words(command_line);
        if args.len() == 0 {
            return Err(RunError::EmptyCommand);
        }
        match find_command(args[0].as_str(), search_path, files) {
            None => Ok(None),
            Some(program) => Ok(Some(ResolvedCommand { program, args })),
        }
    }

    /// Submits the command line: returns the command to execute for it, if
    /// there is one. The session itself stays as it is.
    ///
    /// There is nothing to execute for a blank line, nor for a line whose
    /// first word is not found on the search path.
    pub fn submit(&self, search_path: &str, files: &FsView) -> (r: Option<ResolvedCommand>)
        ensures
            match r {
                Some(command) => to_execute(self@.pending, search_dirs(search_path@), files@)
                    == Some(command@),
                None => to_execute(self@.pending, search_dirs(search_path@), files@) is None,
            },
            is_blank(self@.pending) ==> r is None,
    {
        match App::run_command(self.command_line.as_str(), search_path, files) {
            Ok(Some(command)) => Some(command),
            _ => None,
        }
    }

    /// Records what came of executing the submitted command. `spawned` is
    /// `None` when the system could not start the program, and otherwise
    /// holds the bytes that the program printed.
    ///
    /// Output that is valid UTF-8 is appended to the transcript as text, and
    /// the command line is cleared. Otherwise a line with the error's
    /// message is appended, the command line stays, and the error is
    /// returned. Nothing is ever taken from the transcript.
    pub fn complete(&mut self, spawned: Option<Vec<u8>>) -> (r: Result<(), RunError>)
        requires
            old(self).wf(),
        ensures
            final(self).wf(),
            final(self)@ == after_run(old(self)@, spawned.deep_view()),
            old(self)@.transcript.is_prefix_of(final(self)@.transcript),
            match r {
                Ok(_) => captured(spawned.deep_view()) is Ok,
                Err(error) => captured(spawned.deep_view()) == Err::<Seq<char>, RunError>(error),
            },
    {
        match capture_output(spawned) {
            Ok(text) => {
                self.buffer.append(text.as_str());
                self.command_line = String::new();
                assert(self@.pending =~= after_run(old(self)@, spawned.deep_view()).pending);
                Ok(())
            },
            Err(error) => {
                let line = error.message();
                self.buffer.append(line.as_str());
                push_char(&mut self.buffer, '\n');
                assert(self@.transcript =~= after_run(
                    old(self)@,
                    spawned.deep_view(),
                ).transcript);
                Err(error)
            },
        }
    }

    /// The text of the next frame: the transcript, a line break, the prompt
    /// and the command line.
    pub fn frame_text(&self) -> (r: String)
        ensures
            r@ == frame_text(self@),
    {
        let mut text = self.buffer.clone();
        push_char(&mut text, '\n');
        push_char(&mut text, '>');
        push_char(&mut text, ' ');
        text.append(self.command_line.as_str());
        assert(text@ == frame_text(self@));
        text
    }
}

/// Taking the last word off a line of typed characters leaves typed
/// characters.
pub proof fn lemma_without_last_word_is_typed(line: Seq<char>)
    requires
        is_typed(line),
    ensures
        is_typed(without_last_word(line)),
{
    let kept = words(line).drop_last();
    if words(line).len() > 0 {
        lemma_words_come_from_text(line);
        lemma_join_chars(kept);
        assert forall|i: int| 0 <= i < join(kept).len() implies is_accepted(
            #[trigger] join(kept)[i],
        ) by {
            let c = join(kept)[i];
            if c != ' ' {
                let (k, j) = choose|k: int, j: int|
                    0 <= k < kept.len() && 0 <= j < kept[k].len() && kept[k][j] == c;
                assert(words(line)[k][j] == c);
                assert(line.contains(words(line)[k][j]));
            }
        }
    }
}

/// Deleting a word takes the last word away and keeps the words before it.
pub proof fn lemma_delete_word_keeps_the_rest(line: Seq<char>)
    ensures
        words(line).len() > 0 ==> words(apply_edit(line, Edit::DeleteWord)) == words(
            line,
        ).drop_last(),
        words(line).len() == 0 ==> apply_edit(line, Edit::DeleteWord).len() == 0,
{
    if words(line).len() > 0 {
        let kept = words(line).drop_last();
        lemma_words_are_words(line);
        assert forall|k: int| 0 <= k < kept.len() implies is_word(#[trigger] kept[k]) by {
            assert(kept[k] == words(line)[k]);
        }
        lemma_words_of_join(kept);
    }
}

/// A line of typed characters stays one under every edit, so it never holds
/// a control character.
pub proof fn lemma_edits_keep_typed(line: Seq<char>, edit: Edit)
    requires
        is_typed(line),
    ensures
        is_typed(apply_edit(line, edit)),
{
    match edit {
        Edit::DeleteWord => {
            lemma_without_last_word_is_typed(line);
        },
        _ => {},
    }
}

/// A frame's step asks to leave exactly when one of its actions does, and
/// to run the command line exactly when an action asks for that with no
/// request to leave before it.
pub proof fn lemma_step_of(actions: Seq<AppAction>)
    ensures
        step_of(actions).exit <==> leaves(actions),
        step_of(actions).run_command <==> runs(actions),
    decreases actions.len(),
{
    if actions.len() > 0 {
        lemma_step_of(actions.drop_last());
        lemma_leaves_grows(actions);
        lemma_runs_grows(actions);
    }
}

/// Whether a frame asks to leave, by its last action and those before it.
proof fn lemma_leaves_grows(actions: Seq<AppAction>)
    requires
        actions.len() > 0,
    ensures
        leaves(actions) <==> leaves(actions.drop_last()) || actions.last() == AppAction::Exit,
{
    let init = actions.drop_last();
    if leaves(init) {
        let i = choose|i: int| 0 <= i < init.len() && init[i] == AppAction::Exit;
        assert(actions[i] == AppAction::Exit);
    }
    if actions.last() == AppAction::Exit {
        assert(actions[actions.len() - 1] == AppAction::Exit);
    }
    if leaves(actions) {
        let i = choose|i: int| 0 <= i < actions.len() && actions[i] == AppAction::Exit;
        if i < init.len() {
            assert(init[i] == AppAction::Exit);
        }
    }
}

/// Whether a frame asks to run the command line, by its last action and
/// those before it.
proof fn lemma_runs_grows(actions: Seq<AppAction>)
    requires
        actions.len() > 0,
    ensures
        runs(actions) <==> runs(actions.drop_last()) || (actions.last() == AppAction::RunCommand
            && !leaves(actions.drop_last())),
{
    let init = actions.drop_last();
    let n = init.len() as int;
    if runs(init) {
        let i = choose|i: int|
            0 <= i < init.len() && init[i] == AppAction::RunCommand && forall|j: int|
                0 <= j < i ==> init[j] != AppAction::Exit;
        assert(actions[i] == AppAction::RunCommand);
        assert forall|j: int| 0 <= j < i implies actions[j] != AppAction::Exit by {
            assert(init[j] == actions[j]);
        }
    }
    if actions.last() == AppAction::RunCommand && !leaves(init) {
        assert(actions[n] == AppAction::RunCommand);
        assert forall|j: int| 0 <= j < n implies actions[j] != AppAction::Exit by {
            assert(init[j] == actions[j]);
        }
    }
    if runs(actions) {
        let i = choose|i: int|
            0 <= i < actions.len() && actions[i] == AppAction::RunCommand && forall|j: int|
                0 <= j < i ==> actions[j] != AppAction::Exit;
        if i < n {
            assert(init[i] == AppAction::RunCommand);
            assert forall|j: int| 0 <= j < i implies init[j] != AppAction::Exit by {
                assert(init[j] == actions[j]);
            }
        } else {
            if leaves(init) {
                let j = choose|j: int| 0 <= j < init.len() && init[j] == AppAction::Exit;
                assert(actions[j] == AppAction::Exit);
            }
        }
    }
}

} // verus!
