//! The dispatcher: one command, or one line of input, is run against the
//! session. An error in a command is reported and leaves the session as it
//! was; only `exit`, or the end of the input, ends it.

use vstd::prelude::*;
use crate::help::{display_help, help_lines};
use crate::reader::{command_of, tokens_of, ParsedCommand, ParsedCommandView};
use crate::registry::{find_command, standard_commands, Registry};
use crate::session::GameState;
use crate::text::{lemma_string_views_push, string_views};
use crate::validate::{
    arity_message, parse_message, validate, validated, ArgumentError, ArgumentErrorView, Value,
    ValueView,
};

verus! {

/// Why a command was not run.
#[derive(Debug, PartialEq, Eq)]
pub enum CommandError {
    /// No command has this name.
    Unknown(String),
    /// The command exists, but not with these arguments.
    Arguments(ArgumentError),
}

/// A command error, as contracts see it.
pub enum CommandErrorView {
    Unknown(Seq<char>),
    Arguments(ArgumentErrorView),
}

impl View for CommandError {
    type V = CommandErrorView;

    open spec fn view(&self) -> CommandErrorView {
        match self {
            CommandError::Unknown(name) => CommandErrorView::Unknown(name@),
            CommandError::Arguments(error) => CommandErrorView::Arguments(error@),
        }
    }
}

/// The text that reports a command error.
pub open spec fn error_message(error: CommandErrorView) -> Seq<char> {
    match error {
        CommandErrorView::Unknown(name) => "unknown command: "@ + name,
        CommandErrorView::Arguments(ArgumentErrorView::Arity(error)) => arity_message(error),
        CommandErrorView::Arguments(ArgumentErrorView::Parse(error)) => parse_message(error),
    }
}

impl CommandError {
    /// The text that reports this error.
    pub fn message(&self) -> (text: String)
        ensures
            text@ == error_message(self@),
    {
        match self {
            CommandError::Unknown(name) => {
                let mut text = "unknown command: ".to_owned();
                text.append(name.as_str());
                text
            },
            CommandError::Arguments(ArgumentError::Arity(error)) => error.message(),
            CommandError::Arguments(ArgumentError::Parse(error)) => error.message(),
        }
    }
}

/// What the shell answers to one line of input.
#[derive(Debug, PartialEq, Eq)]
pub enum Reply {
    /// The line held no command.
    NoCommand,
    /// The command was run and has nothing to say.
    Done,
    /// The command was run; these lines are its output.
    Output(Vec<String>),
    /// The command was not run.
    Failed(CommandError),
    /// The session is over.
    Exit,
}

/// A reply, as contracts see it.
pub enum ReplyView {
    NoCommand,
    Done,
    Output(Seq<Seq<char>>),
    Failed(CommandErrorView),
    Exit,
}

impl View for Reply {
    type V = ReplyView;

    open spec fn view(&self) -> ReplyView {
        match self {
            Reply::NoCommand => ReplyView::NoCommand,
            Reply::Done => ReplyView::Done,
            Reply::Output(lines) => ReplyView::Output(string_views(lines@)),
            Reply::Failed(error) => ReplyView::Failed(error@),
            Reply::Exit => ReplyView::Exit,
        }
    }
}

/// The lines that a reply puts on the screen: the output of the command, or
/// the one line that reports its error.
pub open spec fn printed(reply: ReplyView) -> Seq<Seq<char>> {
    match reply {
        ReplyView::Output(lines) => lines,
        ReplyView::Failed(error) => seq![error_message(error)],
        _ => Seq::empty(),
    }
}

impl Reply {
    /// The lines that this reply puts on the screen.
    pub fn lines(&self) -> (lines: Vec<String>)
        ensures
            string_views(lines@) == printed(self@),
    {
        let mut lines: Vec<String> = Vec::new();
        match self {
            Reply::Output(output) => {
                let mut i: usize = 0;
                assert(string_views(lines@) =~= string_views(output@).take(0));
                while i < output.len()
                    invariant
                        i <= output.len(),
                        string_views(lines@) == string_views(output@).take(i as int),
                    decreases output.len() - i,
                {
                    let line = output[i].clone();
                    proof {
                        lemma_string_views_push(lines@, line);
                        assert(string_views(output@).take(i + 1) =~= string_views(output@).take(
                            i as int,
                        ).push(line@));
                    }
                    lines.push(line);
                    i += 1;
                }
                assert(string_views(output@).take(output.len() as int) =~= string_views(output@));
            },
            Reply::Failed(error) => {
                let line = error.message();
                proof {
                    lemma_string_views_push(lines@, line);
                }
                lines.push(line);
                assert(string_views(lines@) =~= seq![error_message(error@)]);
            },
            _ => {
                assert(string_views(lines@) =~= Seq::empty());
            },
        }
        lines
    }
}

/// What a command does once its arguments are converted: the new tax rate
/// and the reply. `help` lists the commands, `exit` ends the session, `tax`
/// shows the rate and `taxset` replaces it by its one argument.
pub open spec fn effect(rate: Seq<char>, name: Seq<char>, values: Seq<ValueView>) -> (
    Seq<char>,
    ReplyView,
) {
    if name == "help"@ {
        (rate, ReplyView::Output(help_lines(standard_commands())))
    } else if name == "exit"@ {
        (rate, ReplyView::Exit)
    } else if name == "tax"@ {
        (rate, ReplyView::Output(seq![rate]))
    } else if name == "taxset"@ && values.len() == 1 && values[0] is Number {
        (values[0]->Number_0, ReplyView::Done)
    } else {
        (rate, ReplyView::Failed(CommandErrorView::Unknown(name)))
    }
}

/// What running `command` at the tax rate `rate` gives: the new tax rate and
/// the reply. A name that the registry does not hold, and arguments that do
/// not pass validation, give an error and the rate as it was.
pub open spec fn executed(rate: Seq<char>, command: ParsedCommandView) -> (Seq<char>, ReplyView) {
    match find_command(standard_commands(), command.name) {
        None => (rate, ReplyView::Failed(CommandErrorView::Unknown(command.name))),
        Some(meta) => match validated(meta.parameters, command.raw_args) {
            Err(error) => (rate, ReplyView::Failed(CommandErrorView::Arguments(error))),
            Ok(values) => effect(rate, meta.name, values),
        },
    }
}

/// Whether the session goes on.
#[derive(Clone, Copy, Debug, PartialEq, Eq, Structural)]
pub enum Status {
    Running,
    Terminated,
}

/// What the input stream delivers.
#[derive(Debug, PartialEq, Eq)]
pub enum Input {
    /// One line of text.
    Line(String),
    /// The stream has ended or failed.
    Closed,
}

/// An input, as contracts see it.
pub enum InputView {
    Line(Seq<char>),
    Closed,
}

impl View for Input {
    type V = InputView;

    open spec fn view(&self) -> InputView {
        match self {
            Input::Line(line) => InputView::Line(line@),
            Input::Closed => InputView::Closed,
        }
    }
}

/// The shell: the registry, the session state, and whether the session goes
/// on.
pub struct Shell {
    registry: Registry,
    state: GameState,
    status: Status,
}

/// The shell, as contracts see it.
pub struct ShellView {
    pub tax_rate: Seq<char>,
    pub status: Status,
}

impl View for Shell {
    type V = ShellView;

    closed spec fn view(&self) -> ShellView {
        ShellView { tax_rate: self.state@.tax_rate, status: self.status }
    }
}

/// What running `command` in `shell` gives: the shell afterwards and the
/// reply. A session that is over stays so and answers `Exit`; a running one
/// ends with the reply `Exit`.
pub open spec fn ran(shell: ShellView, command: ParsedCommandView) -> (ShellView, ReplyView) {
    match shell.status {
        Status::Terminated => (shell, ReplyView::Exit),
        Status::Running => {
            let (rate, reply) = executed(shell.tax_rate, command);
            (
                ShellView {
                    tax_rate: rate,
                    status: if reply is Exit {
                        Status::Terminated
                    } else {
                        Status::Running
                    },
                },
                reply,
            )
        },
    }
}

/// What one input does to `shell`: a line is read and its command run, a
/// line without a word changes nothing, and the end of the input ends the
/// session.
pub open spec fn stepped(shell: ShellView, input: InputView) -> (ShellView, ReplyView) {
    match (shell.status, input) {
        (Status::Terminated, _) => (shell, ReplyView::Exit),
        (Status::Running, InputView::Closed) => (
            ShellView { tax_rate: shell.tax_rate, status: Status::Terminated },
            ReplyView::Exit,
        ),
        (Status::Running, InputView::Line(line)) => match command_of(tokens_of(line)) {
            None => (shell, ReplyView::NoCommand),
            Some(command) => ran(shell, command),
        },
    }
}

/// Whether `name` spells `word`.
fn spells(name: &String, word: &str) -> (same: bool)
    ensures
        same == (name@ == word@),
{
    *name == word.to_owned()
}

impl Shell {
    #[verifier::type_invariant]
    spec fn well_formed(self) -> bool {
        self.registry@ == standard_commands()
    }

    /// A running shell on `state`.
    pub fn new(state: GameState) -> (shell: Shell)
        ensures
            shell@ == (ShellView { tax_rate: state@.tax_rate, status: Status::Running }),
    {
        Shell { registry: Registry::standard(), state, status: Status::Running }
    }

    /// Whether the session goes on.
    pub fn is_running(&self) -> (running: bool)
        ensures
            running == (self@.status is Running),
    {
        match self.status {
            Status::Running => true,
            Status::Terminated => false,
        }
    }

    /// The session state.
    pub fn state(&self) -> (state: &GameState)
        ensures
            state@.tax_rate == self@.tax_rate,
    {
        &self.state
    }

    /// The registry of the shell.
    pub fn registry(&self) -> (registry: &Registry)
        ensures
            registry@ == standard_commands(),
    {
        proof {
            use_type_invariant(self);
        }
        &self.registry
    }

    /// Runs `command`.
    pub fn execute(&mut self, command: &ParsedCommand) -> (reply: Reply)
        ensures
            (final(self)@, reply@) == ran(old(self)@, command@),
    {
        proof {
            use_type_invariant(&*self);
        }
        if !self.is_running() {
            return Reply::Exit;
        }
        let meta = match self.registry.lookup(&command.name) {
            None => {
                return Reply::Failed(CommandError::Unknown(command.name.clone()));
            },
            Some(meta) => meta,
        };
        let mut values = match validate(&meta.parameters, &command.raw_args) {
            Err(error) => {
                return Reply::Failed(CommandError::Arguments(error));
            },
            Ok(values) => values,
        };
        if spells(&meta.name, "help") {
            Reply::Output(display_help(self.registry.all_commands()))
        } else if spells(&meta.name, "exit") {
            self.status = Status::Terminated;
            Reply::Exit
        } else if spells(&meta.name, "tax") {
            let mut lines: Vec<String> = Vec::new();
            lines.push(self.state.tax_rate().to_text());
            assert(string_views(lines@) =~= seq![old(self)@.tax_rate]);
            Reply::Output(lines)
        } else if spells(&meta.name, "taxset") && values.len() == 1 {
            match values.remove(0) {
                Value::Number(rate) => {
                    self.state.set_tax_rate(rate);
                    Reply::Done
                },
                Value::Text(_) => Reply::Failed(CommandError::Unknown(meta.name.clone())),
            }
        } else {
            Reply::Failed(CommandError::Unknown(meta.name.clone()))
        }
    }

    /// Takes one input: reads the line and runs its command, or ends the
    /// session where the input has ended.
    pub fn step(&mut self, input: &Input) -> (reply: Reply)
        ensures
            (final(self)@, reply@) == stepped(old(self)@, input@),
    {
        proof {
            use_type_invariant(&*self);
        }
        if !self.is_running() {
            return Reply::Exit;
        }
        match input {
            Input::Closed => {
                self.status = Status::Terminated;
                Reply::Exit
            },
            Input::Line(line) => match ParsedCommand::parse(line.as_str()) {
                None => Reply::NoCommand,
                Some(command) => self.execute(&command),
            },
        }
    }
}

} // verus!
