//! The shell's dialogue: a line comes in, text and perhaps a task go out.

use vstd::prelude::*;
use vstd::utf8::{
    decode_utf8, encode_utf8, encode_utf8_decode_utf8, encode_utf8_valid_utf8, valid_utf8,
};
use crate::shell::history::{History, with_command};
use crate::text::{
    blank, join_from, joined, law_trimmed, same_text, split_whitespace, text_from_utf8, trim,
    trimmed, views, words,
};

verus! {

/// What lines are taken for.
enum Mode {
    Command,
    /// Instructions, until they are run together.
    Asm(Vec<String>),
    /// Lines of C, until they are compiled together.
    C(Vec<String>),
}

/// The mathematical value of the mode.
#[verifier::ext_equal]
pub enum ModeView {
    Command,
    Asm(Seq<Seq<char>>),
    C(Seq<Seq<char>>),
}

/// The shell.
pub struct Shell {
    history: History,
    mode: Mode,
}

/// The mathematical value of a [`Shell`].
#[verifier::ext_equal]
pub struct ShellState {
    pub history: Seq<Seq<u8>>,
    pub mode: ModeView,
}

impl View for Shell {
    type V = ShellState;

    closed spec fn view(&self) -> ShellState {
        ShellState {
            history: self.history@,
            mode: match self.mode {
                Mode::Command => ModeView::Command,
                Mode::Asm(v) => ModeView::Asm(views(v@)),
                Mode::C(v) => ModeView::C(views(v@)),
            },
        }
    }
}

/// What is to be done once the text has been printed.
pub enum ShellTask {
    Nothing,
    Clear,
    Shutdown,
    /// Assemble and run this.
    Assemble(String),
    /// Compile and run this.
    Compile(String),
}

/// The mathematical value of a [`ShellTask`].
pub enum TaskView {
    Nothing,
    Clear,
    Shutdown,
    Assemble(Seq<char>),
    Compile(Seq<char>),
}

impl View for ShellTask {
    type V = TaskView;

    open spec fn view(&self) -> TaskView {
        match self {
            ShellTask::Nothing => TaskView::Nothing,
            ShellTask::Clear => TaskView::Clear,
            ShellTask::Shutdown => TaskView::Shutdown,
            ShellTask::Assemble(s) => TaskView::Assemble(s@),
            ShellTask::Compile(s) => TaskView::Compile(s@),
        }
    }
}

/// The text that greets the user.
pub open spec fn greeting_text() -> Seq<char> {
    "\n=== Interactive Shell (Fixed Buffer) ===\nType 'help' for commands. Use Arrow Keys for history.\n"@
}

/// The prompt of each mode.
pub open spec fn prompt_text(m: ModeView) -> Seq<char> {
    match m {
        ModeView::Command => "kaguya> "@,
        ModeView::Asm(_) => "asm> "@,
        ModeView::C(_) => "c> "@,
    }
}

// ---------------------------------------------------------------------------
// Commands
// ---------------------------------------------------------------------------

/// The text of `help`.
pub open spec fn help_text() -> Seq<char> {
    "Commands: help, echo, history, clear, shutdown, asm, c\n  asm <instr>          - assemble and run a single instruction\n  asm                  - enter multi-line asm mode\n  Use ';' to separate multiple instructions inline\n  c <code>             - JIT-compile and run a tiny C function\n  c                    - enter multi-line C mode\n  Example: c uint64_t f() { return 42; }\n"@
}

/// The line that shows a remembered command.
pub open spec fn history_line(cmd: Seq<u8>) -> Seq<char> {
    if valid_utf8(cmd) {
        decode_utf8(cmd) + "\n"@
    } else {
        "<invalid utf8>\n"@
    }
}

/// The lines that show the first `n` remembered commands.
pub open spec fn history_lines(h: Seq<Seq<u8>>, n: int) -> Seq<char>
    decreases n,
{
    if n <= 0 {
        Seq::empty()
    } else {
        history_lines(h, n - 1) + history_line(h[n - 1])
    }
}

/// What a line of words prints and does.
pub open spec fn eval_outcome(h: Seq<Seq<u8>>, ws: Seq<Seq<char>>) -> (Seq<char>, TaskView) {
    if ws.len() == 0 {
        (Seq::empty(), TaskView::Nothing)
    } else if ws[0] == "help"@ {
        (help_text(), TaskView::Nothing)
    } else if ws[0] == "echo"@ {
        (joined(ws.skip(1), " "@) + "\n"@, TaskView::Nothing)
    } else if ws[0] == "history"@ {
        if h.len() == 0 {
            ("No history.\n"@, TaskView::Nothing)
        } else {
            (history_lines(h, h.len() as int), TaskView::Nothing)
        }
    } else if ws[0] == "shutdown"@ {
        ("Bye!\n"@, TaskView::Shutdown)
    } else if ws[0] == "clear"@ {
        (Seq::empty(), TaskView::Clear)
    } else {
        (
            "Unknown command: "@ + ws[0] + ". Type 'help' for available commands.\n"@,
            TaskView::Nothing,
        )
    }
}

/// The line is the command `name`, alone or with something behind it.
pub open spec fn is_command(line: Seq<char>, name: Seq<char>) -> bool {
    &&& line.len() >= name.len()
    &&& line.take(name.len() as int) == name
    &&& line.len() == name.len() || line[name.len() as int] == ' ' || line[name.len() as int]
        == '\t'
}

/// Whether the line is the command `name`, alone or with something behind it.
fn has_command(line: &str, name: &str) -> (b: bool)
    ensures
        b == is_command(line@, name@),
{
    let n: usize = name.unicode_len();
    let len: usize = line.unicode_len();
    if len < n {
        return false;
    }
    let head = line.substring_char(0, n);
    assert(head@ =~= line@.take(n as int));
    if !same_text(head, name) {
        return false;
    }
    len == n || line.get_char(n) == ' ' || line.get_char(n) == '\t'
}

/// What is behind the command.
pub open spec fn argument(line: Seq<char>, name: Seq<char>) -> Seq<char> {
    trimmed(line.skip(name.len() as int))
}

fn argument_of<'a>(line: &'a str, name: &str) -> (r: &'a str)
    requires
        is_command(line@, name@),
    ensures
        r@ == argument(line@, name@),
{
    let n: usize = name.unicode_len();
    let len: usize = line.unicode_len();
    let tail = line.substring_char(n, len);
    assert(tail@ =~= line@.skip(n as int));
    trim(tail)
}

// ---------------------------------------------------------------------------
// The dialogue
// ---------------------------------------------------------------------------

/// The text that begins a block of instructions.
pub open spec fn asm_intro() -> Seq<char> {
    "Entering multi-line asm mode. Type instructions line by line.\nType 'done' on its own line to assemble and run.\nType 'cancel' to abort.\n"@
}

/// The text that begins a block of C.
pub open spec fn c_intro() -> Seq<char> {
    "Entering multi-line C mode. Type your function line by line.\nType 'done' on its own line to compile and run.\nType 'cancel' to abort.\n"@
}

/// A line in command mode, without the white space around it.
pub open spec fn command_outcome(s: ShellState, line: Seq<char>) -> (
    ShellState,
    Seq<char>,
    TaskView,
) {
    let h = with_command(s.history, encode_utf8(line));
    if line.len() == 0 {
        (s, Seq::empty(), TaskView::Nothing)
    } else if is_command(line, "asm"@) {
        let rest = argument(line, "asm"@);
        if rest.len() > 0 {
            (ShellState { history: h, ..s }, Seq::empty(), TaskView::Assemble(rest))
        } else {
            (
                ShellState { history: h, mode: ModeView::Asm(Seq::empty()) },
                asm_intro(),
                TaskView::Nothing,
            )
        }
    } else if is_command(line, "c"@) {
        let rest = argument(line, "c"@);
        if rest.len() > 0 {
            (ShellState { history: h, ..s }, Seq::empty(), TaskView::Compile(rest))
        } else {
            (
                ShellState { history: h, mode: ModeView::C(Seq::empty()) },
                c_intro(),
                TaskView::Nothing,
            )
        }
    } else {
        let (text, task) = eval_outcome(h, words(line));
        (ShellState { history: h, ..s }, text, task)
    }
}

/// A line in a block of instructions.
pub open spec fn asm_outcome(s: ShellState, lines: Seq<Seq<char>>, line: Seq<char>) -> (
    ShellState,
    Seq<char>,
    TaskView,
) {
    if line == "done"@ {
        let s1 = ShellState { mode: ModeView::Command, ..s };
        if lines.len() == 0 {
            (s1, "No instructions entered.\n"@, TaskView::Nothing)
        } else {
            (s1, Seq::empty(), TaskView::Assemble(joined(lines, ";"@)))
        }
    } else if line == "cancel"@ {
        (
            ShellState { mode: ModeView::Command, ..s },
            "Asm cancelled.\n"@,
            TaskView::Nothing,
        )
    } else if line.len() == 0 {
        (s, Seq::empty(), TaskView::Nothing)
    } else {
        (
            ShellState { mode: ModeView::Asm(lines.push(line)), ..s },
            Seq::empty(),
            TaskView::Nothing,
        )
    }
}

/// A line in a block of C.
pub open spec fn c_outcome(s: ShellState, lines: Seq<Seq<char>>, line: Seq<char>) -> (
    ShellState,
    Seq<char>,
    TaskView,
) {
    if line == "done"@ {
        let s1 = ShellState { mode: ModeView::Command, ..s };
        if lines.len() == 0 {
            (s1, "No code entered.\n"@, TaskView::Nothing)
        } else {
            (s1, Seq::empty(), TaskView::Compile(joined(lines, " "@)))
        }
    } else if line == "cancel"@ {
        (ShellState { mode: ModeView::Command, ..s }, "C cancelled.\n"@, TaskView::Nothing)
    } else if line.len() == 0 {
        (s, Seq::empty(), TaskView::Nothing)
    } else {
        (
            ShellState { mode: ModeView::C(lines.push(line)), ..s },
            Seq::empty(),
            TaskView::Nothing,
        )
    }
}

/// What a line that was typed leads to: the shell's next state, the text it
/// prints, and what is to be done then.
pub open spec fn line_outcome(s: ShellState, input: Seq<char>) -> (
    ShellState,
    Seq<char>,
    TaskView,
) {
    let line = trimmed(input);
    match s.mode {
        ModeView::Command => command_outcome(s, line),
        ModeView::Asm(lines) => asm_outcome(s, lines, line),
        ModeView::C(lines) => c_outcome(s, lines, line),
    }
}

fn own(s: &str) -> (r: String)
    ensures
        r@ == s@,
{
    String::from_str(s)
}

impl Shell {
    /// The history is in order.
    pub closed spec fn wf(&self) -> bool {
        self.history.wf()
    }

    /// A shell that waits for its first command.
    pub fn new() -> (s: Shell)
        ensures
            s.wf(),
            s@ == (ShellState { history: Seq::empty(), mode: ModeView::Command }),
    {
        Shell { history: History::new(), mode: Mode::Command }
    }

    /// The prompt for the next line.
    pub fn prompt(&self) -> (s: &'static str)
        ensures
            s@ == prompt_text(self@.mode),
    {
        match &self.mode {
            Mode::Command => "kaguya> ",
            Mode::Asm(_) => "asm> ",
            Mode::C(_) => "c> ",
        }
    }

    /// The lines that show the remembered commands, oldest first.
    fn show_history(&self) -> (s: String)
        requires
            self.wf(),
        ensures
            s@ == history_lines(self@.history, self@.history.len() as int),
    {
        let mut s = String::new();
        let n: usize = self.history.len();
        let mut i: usize = 0;
        while i < n
            invariant
                self.wf(),
                i <= n == self@.history.len(),
                s@ == history_lines(self@.history, i as int),
            decreases n - i,
        {
            match self.history.get_history(n - 1 - i) {
                Some(cmd) => {
                    let ghost before = s@;
                    match text_from_utf8(cmd) {
                        Some(text) => {
                            s.append(text);
                            s.append("\n");
                        },
                        None => {
                            s.append("<invalid utf8>\n");
                        },
                    }
                    assert(cmd@ == self@.history[i as int]);
                    assert(s@ =~= before + history_line(cmd@));
                },
                None => {},
            }
            i += 1;
        }
        s
    }

    /// Carries out a command that is neither `asm` nor `c`.
    pub fn eval(&self, line: &str) -> (r: (String, ShellTask))
        requires
            self.wf(),
        ensures
            (r.0@, r.1@) == eval_outcome(self@.history, words(line@)),
    {
        let parts = split_whitespace(line);
        assert(views(parts@).len() == parts@.len());
        if parts.len() == 0 {
            return (String::new(), ShellTask::Nothing);
        }
        assert(views(parts@)[0] == parts@[0]@);
        let cmd = parts[0].as_str();
        if same_text(cmd, "help") {
            (
                own(
                    "Commands: help, echo, history, clear, shutdown, asm, c\n  asm <instr>          - assemble and run a single instruction\n  asm                  - enter multi-line asm mode\n  Use ';' to separate multiple instructions inline\n  c <code>             - JIT-compile and run a tiny C function\n  c                    - enter multi-line C mode\n  Example: c uint64_t f() { return 42; }\n",
                ),
                ShellTask::Nothing,
            )
        } else if same_text(cmd, "echo") {
            let mut s = join_from(&parts, 1, " ");
            s.append("\n");
            (s, ShellTask::Nothing)
        } else if same_text(cmd, "history") {
            if self.history.len() == 0 {
                (own("No history.\n"), ShellTask::Nothing)
            } else {
                (self.show_history(), ShellTask::Nothing)
            }
        } else if same_text(cmd, "shutdown") {
            (own("Bye!\n"), ShellTask::Shutdown)
        } else if same_text(cmd, "clear") {
            (String::new(), ShellTask::Clear)
        } else {
            let mut s = own("Unknown command: ");
            s.append(cmd);
            s.append(". Type 'help' for available commands.\n");
            (s, ShellTask::Nothing)
        }
    }

    fn command_line(&mut self, line: &str) -> (r: (String, ShellTask))
        requires
            old(self).wf(),
            old(self)@.mode is Command,
        ensures
            final(self).wf(),
            (final(self)@, r.0@, r.1@) == command_outcome(old(self)@, line@),
    {
        if line.unicode_len() == 0 {
            return (String::new(), ShellTask::Nothing);
        }
        self.history.add_history(line.as_bytes());
        if has_command(line, "asm") {
            let rest = argument_of(line, "asm");
            if rest.unicode_len() != 0 {
                (String::new(), ShellTask::Assemble(own(rest)))
            } else {
                self.mode = Mode::Asm(Vec::new());
                assert(self@.mode =~= ModeView::Asm(Seq::empty()));
                (
                    own(
                        "Entering multi-line asm mode. Type instructions line by line.\nType 'done' on its own line to assemble and run.\nType 'cancel' to abort.\n",
                    ),
                    ShellTask::Nothing,
                )
            }
        } else if has_command(line, "c") {
            let rest = argument_of(line, "c");
            if rest.unicode_len() != 0 {
                (String::new(), ShellTask::Compile(own(rest)))
            } else {
                self.mode = Mode::C(Vec::new());
                assert(self@.mode =~= ModeView::C(Seq::empty()));
                (
                    own(
                        "Entering multi-line C mode. Type your function line by line.\nType 'done' on its own line to compile and run.\nType 'cancel' to abort.\n",
                    ),
                    ShellTask::Nothing,
                )
            }
        } else {
            self.eval(line)
        }
    }

    /// Takes a line that was typed: prints the text, then does the task.
    pub fn run(&mut self, input: &str) -> (r: (String, ShellTask))
        requires
            old(self).wf(),
        ensures
            final(self).wf(),
            (final(self)@, r.0@, r.1@) == line_outcome(old(self)@, input@),
    {
        let line = trim(input);
        let mut mode = Mode::Command;
        std::mem::swap(&mut mode, &mut self.mode);
        match mode {
            Mode::Command => self.command_line(line),
            Mode::Asm(lines) => self.asm_line(lines, line),
            Mode::C(lines) => self.c_line(lines, line),
        }
    }

    fn asm_line(&mut self, lines: Vec<String>, line: &str) -> (r: (String, ShellTask))
        requires
            old(self).wf(),
            old(self)@.mode is Command,
        ensures
            final(self).wf(),
            (final(self)@, r.0@, r.1@) == asm_outcome(
                ShellState { mode: ModeView::Asm(views(lines@)), ..old(self)@ },
                views(lines@),
                line@,
            ),
    {
        assert(views(lines@).len() == lines@.len());
        if same_text(line, "done") {
            if lines.len() == 0 {
                (own("No instructions entered.\n"), ShellTask::Nothing)
            } else {
                assert(views(lines@).skip(0) =~= views(lines@));
                (String::new(), ShellTask::Assemble(join_from(&lines, 0, ";")))
            }
        } else if same_text(line, "cancel") {
            (own("Asm cancelled.\n"), ShellTask::Nothing)
        } else {
            let mut lines = lines;
            let ghost before = views(lines@);
            if line.unicode_len() != 0 {
                lines.push(own(line));
                assert(views(lines@) =~= before.push(line@));
            }
            self.mode = Mode::Asm(lines);
            (String::new(), ShellTask::Nothing)
        }
    }

    fn c_line(&mut self, lines: Vec<String>, line: &str) -> (r: (String, ShellTask))
        requires
            old(self).wf(),
            old(self)@.mode is Command,
        ensures
            final(self).wf(),
            (final(self)@, r.0@, r.1@) == c_outcome(
                ShellState { mode: ModeView::C(views(lines@)), ..old(self)@ },
                views(lines@),
                line@,
            ),
    {
        assert(views(lines@).len() == lines@.len());
        if same_text(line, "done") {
            if lines.len() == 0 {
                (own("No code entered.\n"), ShellTask::Nothing)
            } else {
                assert(views(lines@).skip(0) =~= views(lines@));
                (String::new(), ShellTask::Compile(join_from(&lines, 0, " ")))
            }
        } else if same_text(line, "cancel") {
            (own("C cancelled.\n"), ShellTask::Nothing)
        } else {
            let mut lines = lines;
            let ghost before = views(lines@);
            if line.unicode_len() != 0 {
                lines.push(own(line));
                assert(views(lines@) =~= before.push(line@));
            }
            self.mode = Mode::C(lines);
            (String::new(), ShellTask::Nothing)
        }
    }
}

/// A new shell, and the text that greets the user.
pub fn shell() -> (r: (Shell, &'static str))
    ensures
        r.0.wf(),
        r.0@ == (ShellState { history: Seq::empty(), mode: ModeView::Command }),
        r.1@ == greeting_text(),
{
    (
        Shell::new(),
        "\n=== Interactive Shell (Fixed Buffer) ===\nType 'help' for commands. Use Arrow Keys for history.\n",
    )
}

/// Lines of a block of instructions go together: whatever is typed but `done`
/// and `cancel` is kept, and `done` runs all of it.
pub proof fn law_asm_block(s: ShellState, lines: Seq<Seq<char>>, line: Seq<char>)
    requires
        s.mode == ModeView::Asm(lines),
        line.len() > 0,
        line != "done"@,
        line != "cancel"@,
    ensures
        ({
            let s1 = asm_outcome(s, lines, line).0;
            let (s2, text, task) = asm_outcome(s1, lines.push(line), "done"@);
            &&& s1.mode == ModeView::Asm(lines.push(line))
            &&& s2 == (ShellState { mode: ModeView::Command, ..s })
            &&& task == TaskView::Assemble(joined(lines.push(line), ";"@))
        }),
{
}

/// Lines of a block of C go together in the same way.
pub proof fn law_c_block(s: ShellState, lines: Seq<Seq<char>>, line: Seq<char>)
    requires
        s.mode == ModeView::C(lines),
        line.len() > 0,
        line != "done"@,
        line != "cancel"@,
    ensures
        ({
            let s1 = c_outcome(s, lines, line).0;
            let (s2, text, task) = c_outcome(s1, lines.push(line), "done"@);
            &&& s1.mode == ModeView::C(lines.push(line))
            &&& s2 == (ShellState { mode: ModeView::Command, ..s })
            &&& task == TaskView::Compile(joined(lines.push(line), " "@))
        }),
{
}

/// A line is a command where it is the command's name, or where that name comes
/// first and a space or a tabulator behind it, and nowhere else.
pub proof fn law_is_command(name: Seq<char>, c: char, rest: Seq<char>, line: Seq<char>)
    ensures
        is_command(name, name),
        is_command(name + seq![c] + rest, name) <==> c == ' ' || c == '\t',
        is_command(line, name) ==> line == name || exists|d: char, behind: Seq<char>|
            (d == ' ' || d == '\t') && line == #[trigger] (name + seq![d] + behind),
{
    let n = name.len() as int;
    let t = name + seq![c] + rest;
    assert(name.take(n) =~= name);
    assert(t.take(n) =~= name);
    assert(t[n] == c);
    if is_command(line, name) {
        if line.len() == n {
            assert(line =~= name);
        } else {
            let d = line[n];
            let behind = line.skip(n + 1);
            assert(line =~= name + seq![d] + behind);
        }
    }
}

/// A line of white space does nothing in any mode: no text, no task, nothing
/// remembered.
pub proof fn law_blank_line(s: ShellState, input: Seq<char>)
    requires
        blank(input),
    ensures
        line_outcome(s, input) == (s, Seq::<char>::empty(), TaskView::Nothing),
{
    let none = Seq::<char>::empty();
    assert(input + none + none =~= input);
    law_trimmed(input, none, none);
    reveal_strlit("done");
    reveal_strlit("cancel");
}

/// `asm` and `c` with something behind them run or compile that, without the
/// white space around it, at once; alone they begin a block. Either way the line
/// is remembered.
pub proof fn law_code_commands(s: ShellState, input: Seq<char>, rest: Seq<char>)
    requires
        s.mode is Command,
    ensures
        ({
            let line = trimmed(input);
            let (s1, text, task) = line_outcome(s, input);
            let h = with_command(s.history, encode_utf8(line));
            &&& line == "asm"@ + rest && is_command(line, "asm"@) && trimmed(rest).len() > 0 ==> s1
                == (ShellState { history: h, mode: ModeView::Command }) && text.len() == 0 && task
                == TaskView::Assemble(trimmed(rest))
            &&& line == "asm"@ ==> s1 == (ShellState {
                history: h,
                mode: ModeView::Asm(Seq::empty()),
            }) && task == TaskView::Nothing
            &&& line == "c"@ + rest && is_command(line, "c"@) && trimmed(rest).len() > 0 ==> s1 == (
            ShellState { history: h, mode: ModeView::Command }) && text.len() == 0 && task
                == TaskView::Compile(trimmed(rest))
            &&& line == "c"@ ==> s1 == (ShellState { history: h, mode: ModeView::C(Seq::empty()) })
                && task == TaskView::Nothing
        }),
{
    let line = trimmed(input);
    reveal_strlit("asm");
    reveal_strlit("c");
    let none = Seq::<char>::empty();
    law_trimmed(none, none, none);
    assert(none + none + none =~= none);
    if line == "asm"@ + rest {
        assert(line.skip(3) =~= rest);
    }
    if line == "asm"@ {
        assert(line.take(3) =~= "asm"@);
        assert(line.skip(3) =~= none);
    }
    if line == "c"@ + rest {
        assert(line.skip(1) =~= rest);
        assert(line[0] == 'c');
        if line.len() >= 3 {
            assert(line.take(3)[0] == 'c');
            assert("asm"@[0] == 'a');
        }
    }
    if line == "c"@ {
        assert(line.take(1) =~= "c"@);
        assert(line.skip(1) =~= none);
    }
}

/// Every other command leaves the shell in command mode and is remembered before
/// it is carried out: `echo` prints its words with one space between them,
/// `history` the remembered commands, itself among them, `clear` and `shutdown`
/// clear the screen and shut down, and an unknown command is named.
pub proof fn law_commands(s: ShellState, input: Seq<char>)
    requires
        s.mode is Command,
        s.history.len() <= 10,
        trimmed(input).len() > 0,
        !is_command(trimmed(input), "asm"@),
        !is_command(trimmed(input), "c"@),
        words(trimmed(input)).len() > 0,
    ensures
        ({
            let line = trimmed(input);
            let ws = words(line);
            let (s1, text, task) = line_outcome(s, input);
            let h = with_command(s.history, encode_utf8(line));
            &&& s1 == (ShellState { history: h, mode: ModeView::Command })
            &&& ws[0] == "echo"@ ==> text == joined(ws.skip(1), " "@) + "\n"@ && task
                == TaskView::Nothing
            &&& ws[0] == "history"@ ==> text == history_lines(h, h.len() as int) && task
                == TaskView::Nothing
            &&& ws[0] == "shutdown"@ ==> text == "Bye!\n"@ && task == TaskView::Shutdown
            &&& ws[0] == "clear"@ ==> text.len() == 0 && task == TaskView::Clear
            &&& ws[0] == "help"@ ==> text
                == "Commands: help, echo, history, clear, shutdown, asm, c\n  asm <instr>          - assemble and run a single instruction\n  asm                  - enter multi-line asm mode\n  Use ';' to separate multiple instructions inline\n  c <code>             - JIT-compile and run a tiny C function\n  c                    - enter multi-line C mode\n  Example: c uint64_t f() { return 42; }\n"@
                && task == TaskView::Nothing
            &&& ws[0] != "help"@ && ws[0] != "echo"@ && ws[0] != "history"@ && ws[0] != "shutdown"@
                && ws[0] != "clear"@ ==> text == "Unknown command: "@ + ws[0]
                + ". Type 'help' for available commands.\n"@ && task == TaskView::Nothing
        }),
{
    reveal_strlit("help");
    reveal_strlit("echo");
    reveal_strlit("history");
    reveal_strlit("shutdown");
    reveal_strlit("clear");
    assert("help"@.len() == 4 && "echo"@.len() == 4 && "history"@.len() == 7 && "shutdown"@.len()
        == 8 && "clear"@.len() == 5);
    assert("help"@[0] == 'h' && "echo"@[0] == 'e');
}

/// Remembered commands are shown oldest first, one to a line, each as its text.
pub proof fn law_history_lines(h: Seq<Seq<u8>>, n: int, t: Seq<char>)
    requires
        0 <= n < h.len(),
        h[n] == encode_utf8(t),
    ensures
        history_lines(h, 0) == Seq::<char>::empty(),
        history_lines(h, n + 1) == history_lines(h, n) + (t + "\n"@),
{
    encode_utf8_valid_utf8(t);
    encode_utf8_decode_utf8(t);
}

/// In a block, `cancel` drops the lines and `done` without lines has nothing to
/// run; both end the block. The lines of a block are not remembered as commands.
pub proof fn law_blocks_end(s: ShellState, lines: Seq<Seq<char>>, input: Seq<char>)
    ensures
        ({
            let (s1, text, task) = line_outcome(s, input);
            let line = trimmed(input);
            let back = ShellState { mode: ModeView::Command, ..s };
            &&& !(s.mode is Command) ==> s1.history == s.history
            &&& !(s.mode is Command) && line == "cancel"@ ==> s1 == back && task
                == TaskView::Nothing
            &&& s.mode == ModeView::Asm(lines) && line == "cancel"@ ==> text
                == "Asm cancelled.\n"@
            &&& s.mode == ModeView::C(lines) && line == "cancel"@ ==> text == "C cancelled.\n"@
            &&& s.mode == ModeView::Asm(Seq::empty()) && line == "done"@ ==> s1 == back && task
                == TaskView::Nothing && text == "No instructions entered.\n"@
            &&& s.mode == ModeView::C(Seq::empty()) && line == "done"@ ==> s1 == back && task
                == TaskView::Nothing && text == "No code entered.\n"@
            &&& s.mode == ModeView::Asm(lines) && lines.len() > 0 && line == "done"@ ==> s1 == back
                && text.len() == 0 && task == TaskView::Assemble(joined(lines, ";"@))
            &&& s.mode == ModeView::C(lines) && lines.len() > 0 && line == "done"@ ==> s1 == back
                && text.len() == 0 && task == TaskView::Compile(joined(lines, " "@))
            &&& s.mode == ModeView::Asm(lines) && line.len() > 0 && line != "done"@ && line
                != "cancel"@ ==> s1.mode == ModeView::Asm(lines.push(line)) && text.len() == 0
                && task == TaskView::Nothing
            &&& s.mode == ModeView::C(lines) && line.len() > 0 && line != "done"@ && line
                != "cancel"@ ==> s1.mode == ModeView::C(lines.push(line)) && text.len() == 0 && task
                == TaskView::Nothing
        }),
{
    reveal_strlit("done");
    reveal_strlit("cancel");
    assert("done"@.len() == 4 && "cancel"@.len() == 6);
}

/// Each mode has a prompt of its own, and a new shell says what it is.
pub proof fn law_prompts(lines: Seq<Seq<char>>)
    ensures
        greeting_text()
            == "\n=== Interactive Shell (Fixed Buffer) ===\nType 'help' for commands. Use Arrow Keys for history.\n"@,
        prompt_text(ModeView::Command) == "kaguya> "@,
        prompt_text(ModeView::Asm(lines)) == "asm> "@,
        prompt_text(ModeView::C(lines)) == "c> "@,
{
}

/// What is said when a block begins: how instructions, or C, are entered, run and
/// dropped.
pub proof fn law_block_intros(s: ShellState, input: Seq<char>)
    requires
        s.mode is Command,
    ensures
        trimmed(input) == "asm"@ ==> line_outcome(s, input).1
            == "Entering multi-line asm mode. Type instructions line by line.\nType 'done' on its own line to assemble and run.\nType 'cancel' to abort.\n"@,
        trimmed(input) == "c"@ ==> line_outcome(s, input).1
            == "Entering multi-line C mode. Type your function line by line.\nType 'done' on its own line to compile and run.\nType 'cancel' to abort.\n"@,
{
    let line = trimmed(input);
    reveal_strlit("asm");
    reveal_strlit("c");
    let none = Seq::<char>::empty();
    law_trimmed(none, none, none);
    assert(none + none + none =~= none);
    if line == "asm"@ {
        assert(line.take(3) =~= "asm"@);
        assert(line.skip(3) =~= none);
    }
    if line == "c"@ {
        assert(line.take(1) =~= "c"@);
        assert(line.skip(1) =~= none);
    }
}

} // verus!
