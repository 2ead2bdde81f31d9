//! The commands of the interactive mode and the state they act on.

use crate::hex::string_of;
use crate::radare::{chars_of, split, split_chars, views};
use vstd::prelude::*;

verus! {

/// The command that an input line asks for.
#[derive(Debug, Clone, Copy, PartialEq, Eq, Hash, Structural)]
pub enum CommandCode {
    Nothing,
    ExitInteractive,
}

/// What a command has brought about.
#[derive(Debug, Clone, Copy, PartialEq, Eq, Hash, Structural)]
pub enum CommandResults {
    Nothing,
    ExitInteractive,
}

/// Named values that commands set and read. A name set again has its new
/// value.
pub struct ExecutionState {
    pub state: Vec<(String, String)>,
}

/// The value that the pairs give the name `key`: that of the last pair with
/// that name.
pub open spec fn value_of(pairs: Seq<(String, String)>, key: Seq<char>) -> Option<Seq<char>>
    decreases pairs.len(),
{
    if pairs.len() == 0 {
        None
    } else if pairs.last().0@ == key {
        Some(pairs.last().1@)
    } else {
        value_of(pairs.drop_last(), key)
    }
}

impl ExecutionState {
    /// The value of the name `key`, if it has one.
    pub open spec fn get(&self, key: Seq<char>) -> Option<Seq<char>> {
        value_of(self.state@, key)
    }

    /// Whether the state is `before` with `key` set to `value`.
    pub open spec fn is_set_from(&self, before: &ExecutionState, key: Seq<char>, value: Seq<char>) -> bool {
        forall|k: Seq<char>|
            #[trigger] self.get(k) == if k == key {
                Some(value)
            } else {
                before.get(k)
            }
    }

    /// A state without any name.
    pub fn new() -> (s: Self)
        ensures
            forall|k: Seq<char>| #[trigger] s.get(k) is None,
    {
        ExecutionState { state: Vec::new() }
    }

    /// The value of the name `key`.
    pub fn get_state(&self, key: &String) -> (r: Option<String>)
        ensures
            r is Some <==> self.get(key@) is Some,
            r matches Some(v) ==> Some(v@) == self.get(key@),
    {
        let mut i: usize = self.state.len();
        assert(self.state@.subrange(0, i as int) =~= self.state@);
        while i > 0
            invariant
                i <= self.state@.len(),
                value_of(self.state@, key@) == value_of(self.state@.subrange(0, i as int), key@),
            decreases i,
        {
            let ghost upto = self.state@.subrange(0, i as int);
            i -= 1;
            proof {
                assert(upto.drop_last() =~= self.state@.subrange(0, i as int));
                assert(upto.last() == self.state@[i as int]);
            }
            if self.state[i].0 == *key {
                return Some(self.state[i].1.clone());
            }
        }
        None
    }

    /// Sets the name `key` to `value`.
    pub fn set_state(&mut self, key: String, value: String)
        ensures
            final(self).is_set_from(old(self), key@, value@),
    {
        self.state.push((key, value));
        assert(self.state@.drop_last() =~= old(self).state@);
    }
}

/// Whether `word` is `exit`, in upper or lower case or any mix of them.
pub open spec fn is_exit_word(word: Seq<char>) -> bool {
    &&& word.len() == 4
    &&& word[0] == 'e' || word[0] == 'E'
    &&& word[1] == 'x' || word[1] == 'X'
    &&& word[2] == 'i' || word[2] == 'I'
    &&& word[3] == 't' || word[3] == 'T'
}

/// Whether the arguments ask to leave the interactive mode: the first is
/// `exit` in any case, or begins with an `e`.
pub open spec fn asks_exit(args: Seq<String>) -> bool {
    args.len() >= 1 && (is_exit_word(args[0]@) || (args[0]@.len() > 0 && args[0]@[0] == 'e'))
}

/// A command of the interactive mode.
pub trait Command {
    /// The code that the command is registered under.
    spec fn code(&self) -> CommandCode;

    /// Whether the arguments ask for this command.
    spec fn wanted(&self, args: Seq<String>) -> bool;

    /// The name and value that the command sets when it is carried out.
    spec fn sets(&self) -> (Seq<char>, Seq<char>);

    /// What carrying out the command brings about.
    spec fn brings(&self) -> CommandResults;

    /// Carries the command out.
    fn execute(&self, handler: &mut CommandHandler, args: &Vec<String>) -> (r: CommandResults)
        ensures
            r == self.brings(),
            final(handler).commands@ == old(handler).commands@,
            final(handler).state.is_set_from(&old(handler).state, self.sets().0, self.sets().1),
    ;

    /// Tells whether the arguments ask for this command.
    fn check_args(&self, handler: &CommandHandler, args: &Vec<String>) -> (b: bool)
        ensures
            b == self.wanted(args@),
    ;

    /// The code that the command is registered under.
    fn get_code(&self) -> (c: CommandCode)
        ensures
            c == self.code(),
    ;
}

/// The command that leaves the interactive mode.
pub struct ExitCommand {}

impl Command for ExitCommand {
    open spec fn code(&self) -> CommandCode {
        CommandCode::ExitInteractive
    }

    open spec fn wanted(&self, args: Seq<String>) -> bool {
        asks_exit(args)
    }

    open spec fn sets(&self) -> (Seq<char>, Seq<char>) {
        ("exit"@, "true"@)
    }

    open spec fn brings(&self) -> CommandResults {
        CommandResults::ExitInteractive
    }

    fn execute(&self, handler: &mut CommandHandler, args: &Vec<String>) -> (r: CommandResults) {
        handler.set_state("exit".to_string(), "true".to_string());
        CommandResults::ExitInteractive
    }

    fn check_args(&self, handler: &CommandHandler, args: &Vec<String>) -> (b: bool) {
        if args.len() < 1 {
            return false;
        }
        let word = chars_of(args[0].as_str());
        if word.len() == 0 {
            return false;
        }
        if word[0] == 'e' {
            return true;
        }
        word.len() == 4 && word[0] == 'E' && (word[1] == 'x' || word[1] == 'X') && (word[2] == 'i'
            || word[2] == 'I') && (word[3] == 't' || word[3] == 'T')
    }

    fn get_code(&self) -> (c: CommandCode) {
        CommandCode::ExitInteractive
    }
}

/// The commands that are registered, and the state they act on.
pub struct CommandHandler {
    pub commands: Vec<CommandCode>,
    pub state: ExecutionState,
}

impl CommandHandler {
    /// Whether a command is registered under `code`.
    pub open spec fn has_command(&self, code: CommandCode) -> bool {
        self.commands@.contains(code)
    }

    /// A handler without commands and with an empty state.
    pub fn new() -> (h: Self)
        ensures
            h.commands@.len() == 0,
            forall|k: Seq<char>| #[trigger] h.state.get(k) is None,
    {
        CommandHandler { commands: Vec::new(), state: ExecutionState::new() }
    }

    /// Whether leaving was asked for: the name `exit` is set to `true`.
    pub fn should_quit(&self) -> (b: bool)
        ensures
            b == (self.state.get("exit"@) == Some("true"@)),
    {
        match self.get_state("exit".to_string()) {
            Some(v) => v == "true".to_string(),
            None => false,
        }
    }

    /// The value of the name `key`.
    pub fn get_state(&self, key: String) -> (r: Option<String>)
        ensures
            r is Some <==> self.state.get(key@) is Some,
            r matches Some(v) ==> Some(v@) == self.state.get(key@),
    {
        self.state.get_state(&key)
    }

    /// Sets the name `key` to `value`.
    pub fn set_state(&mut self, key: String, value: String) -> (done: bool)
        ensures
            done,
            final(self).commands@ == old(self).commands@,
            final(self).state.is_set_from(&old(self).state, key@, value@),
    {
        self.state.set_state(key, value);
        true
    }

    /// The words of an input line: what stands between its spaces.
    pub fn tokenize_input(&self, input_string: String) -> (res: Vec<String>)
        ensures
            res@.len() == split(input_string@, ' ').len(),
            forall|i: int| 0 <= i < res@.len() ==> (#[trigger] res@[i])@ == split(input_string@, ' ')[i],
    {
        let chars = chars_of(input_string.as_str());
        let pieces = split_chars(&chars, ' ');
        let mut res: Vec<String> = Vec::new();
        let mut i: usize = 0;
        while i < pieces.len()
            invariant
                i <= pieces@.len(),
                views(pieces@) == split(input_string@, ' '),
                res@.len() == i,
                forall|j: int| 0 <= j < i ==> (#[trigger] res@[j])@ == pieces@[j]@,
            decreases pieces@.len() - i,
        {
            res.push(string_of(&pieces[i]));
            i += 1;
        }
        assert forall|j: int| 0 <= j < res@.len() implies (#[trigger] res@[j])@ == split(
            input_string@,
            ' ',
        )[j] by {
            assert(views(pieces@)[j] == pieces@[j]@);
        }
        res
    }

    /// Carries out the command that the input asks for, if it is registered:
    /// to leave is the one command there is.
    pub fn command_dispatch(&mut self, input_vec: Vec<String>) -> (r: CommandResults)
        ensures
            final(self).commands@ == old(self).commands@,
            old(self).has_command(CommandCode::ExitInteractive) && asks_exit(input_vec@) ==> r
                == CommandResults::ExitInteractive,
            old(self).has_command(CommandCode::ExitInteractive) && asks_exit(input_vec@) ==> final(self).state.is_set_from(
                &old(self).state,
                "exit"@,
                "true"@,
            ),
            !(old(self).has_command(CommandCode::ExitInteractive) && asks_exit(input_vec@)) ==> r
                == CommandResults::Nothing,
            !(old(self).has_command(CommandCode::ExitInteractive) && asks_exit(input_vec@)) ==> final(self).state.state@ == old(self).state.state@,
    {
        let mut i: usize = 0;
        while i < self.commands.len()
            invariant
                i <= self.commands@.len(),
                self.commands@ == old(self).commands@,
                self.state.state@ == old(self).state.state@,
                forall|j: int|
                    0 <= j < i ==> !(self.commands@[j] == CommandCode::ExitInteractive && asks_exit(
                        input_vec@,
                    )),
            decreases self.commands@.len() - i,
        {
            match self.commands[i] {
                CommandCode::ExitInteractive => {
                    let cmd = ExitCommand {  };
                    if cmd.check_args(self, &input_vec) {
                        let ghost before = self.state;
                        assert(old(self).commands@[i as int] == CommandCode::ExitInteractive);
                        let r = cmd.execute(self, &input_vec);
                        assert(before.state@ == old(self).state.state@);
                        assert forall|k: Seq<char>| #[trigger]
                            self.state.get(k) == if k == "exit"@ {
                                Some("true"@)
                            } else {
                                old(self).state.get(k)
                            } by {
                            assert(before.get(k) == old(self).state.get(k));
                        }
                        return r;
                    }
                },
                CommandCode::Nothing => {},
            }
            i += 1;
        }
        CommandResults::Nothing
    }

    /// Registers a command under its code, and returns the code; a command
    /// whose code is taken is not registered, and no code is returned.
    pub fn register_command<C: Command>(&mut self, cmd: C) -> (c: CommandCode)
        ensures
            final(self).state.state@ == old(self).state.state@,
            old(self).has_command(cmd.code()) ==> c == CommandCode::Nothing,
            old(self).has_command(cmd.code()) ==> final(self).commands@ == old(self).commands@,
            !old(self).has_command(cmd.code()) ==> c == cmd.code(),
            !old(self).has_command(cmd.code()) ==> final(self).commands@ == old(self).commands@.push(
                cmd.code(),
            ),
    {
        let code = cmd.get_code();
        let mut i: usize = 0;
        while i < self.commands.len()
            invariant
                i <= self.commands@.len(),
                self.commands@ == old(self).commands@,
                self.state.state@ == old(self).state.state@,
                code == cmd.code(),
                forall|j: int| 0 <= j < i ==> self.commands@[j] != code,
            decreases self.commands@.len() - i,
        {
            if self.commands[i] == code {
                return CommandCode::Nothing;
            }
            i += 1;
        }
        self.commands.push(code);
        code
    }
}

} // verus!
