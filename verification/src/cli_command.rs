//! The commands the hub accepts on its command line and between its console
//! windows, and the words that name them.
use vstd::prelude::*;
use vstd::utf8::*;

use crate::text::{ascii_lower, ascii_lowercase, lowercase_of, str_eq, to_lowercase};

verus! {

/// A command given to the hub.
#[derive(Debug, Copy, Clone, PartialEq, Eq, Structural, Hash)]
pub enum CLICommand {
    Run,
    Shutdown,
    Status,
    Reboot,
}

/// A command together with the word that names it.
pub struct CLICommandSynonym {
    pub cli_command: CLICommand,
    pub text: &'static str,
}

/// The commands in the order in which their names are looked up.
pub open spec fn command_order() -> Seq<CLICommand> {
    seq![CLICommand::Run, CLICommand::Shutdown, CLICommand::Status, CLICommand::Reboot]
}

/// The word that names a command.
pub open spec fn command_text(c: CLICommand) -> Seq<char> {
    match c {
        CLICommand::Run => "run"@,
        CLICommand::Shutdown => "shutdown"@,
        CLICommand::Status => "status"@,
        CLICommand::Reboot => "reboot"@,
    }
}

/// The command named by the (already lower-cased) word `l`, looked up in
/// `command_order`.
pub open spec fn command_named(l: Seq<char>) -> Option<CLICommand> {
    if l == command_text(CLICommand::Run) {
        Some(CLICommand::Run)
    } else if l == command_text(CLICommand::Shutdown) {
        Some(CLICommand::Shutdown)
    } else if l == command_text(CLICommand::Status) {
        Some(CLICommand::Status)
    } else if l == command_text(CLICommand::Reboot) {
        Some(CLICommand::Reboot)
    } else {
        None
    }
}

/// The table of commands and their names.
pub fn cli_commands() -> (r: Vec<CLICommandSynonym>)
    ensures
        r@.len() == command_order().len(),
        forall|i: int|
            0 <= i < r@.len() ==> #[trigger] r@[i].cli_command == command_order()[i]
                && r@[i].text@ == command_text(command_order()[i]),
{
    let mut r: Vec<CLICommandSynonym> = Vec::new();
    r.push(CLICommandSynonym { cli_command: CLICommand::Run, text: "run" });
    r.push(CLICommandSynonym { cli_command: CLICommand::Shutdown, text: "shutdown" });
    r.push(CLICommandSynonym { cli_command: CLICommand::Status, text: "status" });
    r.push(CLICommandSynonym { cli_command: CLICommand::Reboot, text: "reboot" });
    r
}

/// The message of the error that `CLICommand::from_str` returns.
pub open spec fn bad_command_message() -> Seq<char> {
    "Bad Action name given"@
}

impl CLICommand {
    /// Whether two commands are the same variant.
    pub fn same_variant(&self, other: &Self) -> (r: bool)
        ensures
            r == (*self == *other),
    {
        match (self, other) {
            (CLICommand::Run, CLICommand::Run) => true,
            (CLICommand::Shutdown, CLICommand::Shutdown) => true,
            (CLICommand::Status, CLICommand::Status) => true,
            (CLICommand::Reboot, CLICommand::Reboot) => true,
            _ => false,
        }
    }

    /// The command that `s` names, whatever its case.
    pub fn from_str(s: &str) -> (r: Result<Self, &'static str>)
        ensures
            match command_named(lowercase_of(s@)) {
                Some(c) => r == Ok::<CLICommand, &'static str>(c),
                None => r matches Err(m) && m@ == bad_command_message(),
            },
            is_ascii_chars(s@) ==> match command_named(ascii_lowercase(s@)) {
                Some(c) => r == Ok::<CLICommand, &'static str>(c),
                None => r is Err,
            },
    {
        let input = to_lowercase(s);
        Self::from_lowercase(input.as_str())
    }

    /// The command that the lower-case word `input` names.
    pub fn from_lowercase(input: &str) -> (r: Result<Self, &'static str>)
        ensures
            match command_named(input@) {
                Some(c) => r == Ok::<CLICommand, &'static str>(c),
                None => r matches Err(m) && m@ == bad_command_message(),
            },
    {
        let table = cli_commands();
        let mut i: usize = 0;
        while i < table.len()
            invariant
                table@.len() == command_order().len(),
                forall|k: int|
                    0 <= k < table@.len() ==> #[trigger] table@[k].cli_command
                        == command_order()[k] && table@[k].text@ == command_text(
                        command_order()[k],
                    ),
                i <= table@.len(),
                forall|k: int| 0 <= k < i ==> input@ != command_text(#[trigger] command_order()[k]),
            decreases table@.len() - i,
        {
            let command = &table[i];
            if str_eq(command.text, input) {
                assert(table@[i as int].cli_command == command_order()[i as int]);
                assert(forall|k: int|
                    0 <= k < i ==> input@ != command_text(#[trigger] command_order()[k]));
                return Ok(command.cli_command);
            }
            i = i + 1;
        }
        assert(input@ != command_text(command_order()[0]));
        assert(input@ != command_text(command_order()[1]));
        assert(input@ != command_text(command_order()[2]));
        assert(input@ != command_text(command_order()[3]));
        Err("Bad Action name given")
    }

    /// The word that names this command.
    pub fn to_str(&self) -> (r: &'static str)
        ensures
            r@ == command_text(*self),
    {
        let table = cli_commands();
        let mut i: usize = 0;
        while i < table.len()
            invariant
                table@.len() == command_order().len(),
                forall|k: int|
                    0 <= k < table@.len() ==> #[trigger] table@[k].cli_command
                        == command_order()[k] && table@[k].text@ == command_text(
                        command_order()[k],
                    ),
                i <= table@.len(),
                forall|k: int| 0 <= k < i ==> command_order()[k] != *self,
            decreases table@.len() - i,
        {
            if self.same_variant(&table[i].cli_command) {
                return table[i].text;
            }
            i = i + 1;
        }
        assert(command_order()[0] != *self);
        assert(command_order()[1] != *self);
        assert(command_order()[2] != *self);
        assert(command_order()[3] != *self);
        ""
    }
}

/// Every command's name is plain ASCII, and reading the name back in any mix
/// of upper and lower case gives the command again: `from_str(to_str(c))` is
/// `Ok(c)`, as is `from_str` of the name with any letters capitalised.
pub proof fn lemma_name_round_trip(c: CLICommand, s: Seq<char>)
    requires
        is_ascii_chars(s),
        ascii_lowercase(s) == command_text(c),
    ensures
        is_ascii_chars(command_text(c)),
        ascii_lowercase(command_text(c)) == command_text(c),
        command_named(ascii_lowercase(s)) == Some(c),
{
    lemma_names_distinct();
    lemma_names_lower_ascii(c);
}

/// The four names are lower-case ASCII.
proof fn lemma_names_lower_ascii(c: CLICommand)
    ensures
        is_ascii_chars(command_text(c)),
        ascii_lowercase(command_text(c)) == command_text(c),
{
    reveal_strlit("run");
    reveal_strlit("shutdown");
    reveal_strlit("status");
    reveal_strlit("reboot");
    let t = command_text(c);
    assert(forall|i: int| 0 <= i < t.len() ==> 'a' <= #[trigger] t[i] <= 'z');
    assert(ascii_lowercase(t) =~= t) by {
        assert forall|i: int| 0 <= i < t.len() implies ascii_lowercase(t)[i] == t[i] by {
            assert('a' <= t[i] <= 'z');
            assert(ascii_lower(t[i]) == t[i]);
        }
    }
}

/// No two commands share a name, so naming a command determines it.
pub proof fn lemma_names_distinct()
    ensures
        forall|c1: CLICommand, c2: CLICommand|
            #[trigger] command_text(c1) == #[trigger] command_text(c2) ==> c1 == c2,
        forall|c: CLICommand| #[trigger] command_named(command_text(c)) == Some(c),
{
    reveal_strlit("run");
    reveal_strlit("shutdown");
    reveal_strlit("status");
    reveal_strlit("reboot");
    assert("run"@.len() != "shutdown"@.len());
    assert("run"@.len() != "status"@.len());
    assert("run"@.len() != "reboot"@.len());
    assert("shutdown"@.len() != "status"@.len());
    assert("shutdown"@.len() != "reboot"@.len());
    assert("status"@[1] != "reboot"@[1]);
}


/// The table of names holds every command exactly once.
pub proof fn lemma_table_covers_every_command(c: CLICommand)
    ensures
        command_order().contains(c),
        forall|i: int, j: int|
            0 <= i < j < command_order().len() ==> command_order()[i] != command_order()[j],
{
    match c {
        CLICommand::Run => assert(command_order()[0] == c),
        CLICommand::Shutdown => assert(command_order()[1] == c),
        CLICommand::Status => assert(command_order()[2] == c),
        CLICommand::Reboot => assert(command_order()[3] == c),
    }
}


/// The commands are named "run", "shutdown", "status" and "reboot".
pub proof fn lemma_command_names()
    ensures
        command_text(CLICommand::Run) == seq!['r', 'u', 'n'],
        command_text(CLICommand::Shutdown) == seq!['s', 'h', 'u', 't', 'd', 'o', 'w', 'n'],
        command_text(CLICommand::Status) == seq!['s', 't', 'a', 't', 'u', 's'],
        command_text(CLICommand::Reboot) == seq!['r', 'e', 'b', 'o', 'o', 't'],
        command_order() == seq![
            CLICommand::Run,
            CLICommand::Shutdown,
            CLICommand::Status,
            CLICommand::Reboot,
        ],
{
    reveal_strlit("run");
    reveal_strlit("shutdown");
    reveal_strlit("status");
    reveal_strlit("reboot");
    assert("run"@ =~= seq!['r', 'u', 'n']);
    assert("shutdown"@ =~= seq!['s', 'h', 'u', 't', 'd', 'o', 'w', 'n']);
    assert("status"@ =~= seq!['s', 't', 'a', 't', 'u', 's']);
    assert("reboot"@ =~= seq!['r', 'e', 'b', 'o', 'o', 't']);
}

} // verus!
