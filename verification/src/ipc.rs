//! Commands from outside.

use crate::text::same_text;
use vstd::prelude::*;

verus! {

/// Where the socket for commands stands.
pub const IPC_SOCK_PATH: &'static str = "/tmp/android-tether.sock";

/// A command from outside.
#[derive(Debug, Clone, Copy, PartialEq, Eq, Structural)]
pub enum IpcCommand {
    Nothing,
    Stop,
    Disable,
    Enable,
    Status,
}

/// The commands that have come in and have not been reported yet.
#[derive(Debug, Clone, Copy, PartialEq, Eq, Structural)]
pub struct IpcServer {
    pub stop_requested: bool,
    pub disable_requested: bool,
    pub enable_requested: bool,
    pub status_requested: bool,
}

/// The command that a word stands for.
pub open spec fn command_of(word: Seq<char>) -> IpcCommand {
    if word == "stop"@ {
        IpcCommand::Stop
    } else if word == "disable"@ {
        IpcCommand::Disable
    } else if word == "enable"@ {
        IpcCommand::Enable
    } else if word == "status"@ {
        IpcCommand::Status
    } else {
        IpcCommand::Nothing
    }
}

impl IpcServer {
    /// Whether a command waits to be reported.
    pub open spec fn pending(self, command: IpcCommand) -> bool {
        match command {
            IpcCommand::Nothing => false,
            IpcCommand::Stop => self.stop_requested,
            IpcCommand::Disable => self.disable_requested,
            IpcCommand::Enable => self.enable_requested,
            IpcCommand::Status => self.status_requested,
        }
    }

    /// The command that is reported next: of those that wait, the weightiest.
    pub open spec fn next_command(self) -> IpcCommand {
        if self.stop_requested {
            IpcCommand::Stop
        } else if self.disable_requested {
            IpcCommand::Disable
        } else if self.enable_requested {
            IpcCommand::Enable
        } else if self.status_requested {
            IpcCommand::Status
        } else {
            IpcCommand::Nothing
        }
    }

    /// The server with a command that waits, or does not.
    pub open spec fn with(self, command: IpcCommand, waits: bool) -> IpcServer {
        match command {
            IpcCommand::Nothing => self,
            IpcCommand::Stop => IpcServer { stop_requested: waits, ..self },
            IpcCommand::Disable => IpcServer { disable_requested: waits, ..self },
            IpcCommand::Enable => IpcServer { enable_requested: waits, ..self },
            IpcCommand::Status => IpcServer { status_requested: waits, ..self },
        }
    }

    /// No command waits.
    pub fn new() -> (r: Self)
        ensures
            r.next_command() == IpcCommand::Nothing,
    {
        IpcServer {
            stop_requested: false,
            disable_requested: false,
            enable_requested: false,
            status_requested: false,
        }
    }

    /// Takes in the word of a command; other words are ignored.
    pub fn submit(&mut self, word: &str)
        ensures
            *final(self) == old(self).with(command_of(word@), true),
    {
        if same_text(word, "stop") {
            self.stop_requested = true;
        } else if same_text(word, "disable") {
            self.disable_requested = true;
        } else if same_text(word, "enable") {
            self.enable_requested = true;
        } else if same_text(word, "status") {
            self.status_requested = true;
        }
    }

    /// Reports a command that waits, once.
    pub fn poll(&mut self) -> (r: IpcCommand)
        ensures
            r == old(self).next_command(),
            *final(self) == old(self).with(r, false),
    {
        if self.stop_requested {
            self.stop_requested = false;
            return IpcCommand::Stop;
        }
        if self.disable_requested {
            self.disable_requested = false;
            return IpcCommand::Disable;
        }
        if self.enable_requested {
            self.enable_requested = false;
            return IpcCommand::Enable;
        }
        if self.status_requested {
            self.status_requested = false;
            return IpcCommand::Status;
        }
        IpcCommand::Nothing
    }
}

/// A command that came in is reported before there is nothing left to report,
/// and reporting one command loses none of the others.
pub proof fn lemma_no_command_is_lost(server: IpcServer, command: IpcCommand)
    requires
        server.pending(command),
    ensures
        server.next_command() != IpcCommand::Nothing,
        server.next_command() != command ==> server.with(server.next_command(), false).pending(
            command,
        ),
        !server.with(server.next_command(), false).pending(server.next_command()),
{
}

/// Each command has its word, and other words stand for none.
pub proof fn lemma_command_words(word: Seq<char>)
    ensures
        command_of("stop"@) == IpcCommand::Stop,
        command_of("disable"@) == IpcCommand::Disable,
        command_of("enable"@) == IpcCommand::Enable,
        command_of("status"@) == IpcCommand::Status,
        word != "stop"@ && word != "disable"@ && word != "enable"@ && word != "status"@
            ==> command_of(word) == IpcCommand::Nothing,
{
    reveal_strlit("stop");
    reveal_strlit("disable");
    reveal_strlit("enable");
    reveal_strlit("status");
    assert("stop"@.len() == 4 && "disable"@.len() == 7 && "enable"@.len() == 6 && "status"@.len()
        == 6);
    assert("enable"@[0] == 'e' && "status"@[0] == 's');
}

/// A command that comes in waits, along with those that waited before, and one
/// that has been reported waits no more, while the others do. Of those that wait,
/// stopping is reported first, then disabling, then enabling, then a question
/// for the status; nothing is reported only if none waits.
pub proof fn lemma_commands_wait(server: IpcServer, command: IpcCommand, other: IpcCommand)
    requires
        command != IpcCommand::Nothing,
    ensures
        server.with(command, true).pending(command),
        !server.with(command, false).pending(command),
        other != command ==> server.with(command, true).pending(other) == server.pending(other),
        other != command ==> server.with(command, false).pending(other) == server.pending(other),
        server.with(IpcCommand::Nothing, true) == server,
        server.pending(IpcCommand::Stop) ==> server.next_command() == IpcCommand::Stop,
        !server.pending(IpcCommand::Stop) && server.pending(IpcCommand::Disable)
            ==> server.next_command() == IpcCommand::Disable,
        !server.pending(IpcCommand::Stop) && !server.pending(IpcCommand::Disable)
            && server.pending(IpcCommand::Enable) ==> server.next_command() == IpcCommand::Enable,
        server.next_command() == IpcCommand::Status ==> server.pending(IpcCommand::Status),
        server.next_command() == IpcCommand::Nothing <==> !server.pending(IpcCommand::Stop)
            && !server.pending(IpcCommand::Disable) && !server.pending(IpcCommand::Enable)
            && !server.pending(IpcCommand::Status),
{
}

} // verus!
