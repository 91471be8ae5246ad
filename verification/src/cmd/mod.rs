//! The commands that a client can send.

pub mod get;
pub mod ping;
pub mod set;

use crate::cmd::get::{get_arguments, get_reply, Get};
use crate::cmd::ping::{ping_arguments, ping_reply, Ping};
use crate::cmd::set::{set_arguments, set_entries, set_leftover, SetCmd, SetView};
use crate::db::{deadline, should_wake, Db, Entries};
use crate::frame::{Frame, FrameView};
use crate::parse::{protocol_error, pull_text, rest, Parse, ParseError, ParseErrorView};
use vstd::prelude::*;

verus! {

/// A command.
#[derive(Debug, PartialEq, Eq)]
pub enum Command {
    Ping(Ping),
    Get(Get),
    SetCmd(SetCmd),
}

/// The mathematical value of a [`Command`].
pub enum CommandView {
    Ping(Option<Seq<u8>>),
    Get(Seq<char>),
    SetCmd(SetView),
}

impl View for Command {
    type V = CommandView;

    open spec fn view(&self) -> CommandView {
        match self {
            Command::Ping(cmd) => CommandView::Ping(cmd@),
            Command::Get(cmd) => CommandView::Get(cmd@),
            Command::SetCmd(cmd) => CommandView::SetCmd(cmd@),
        }
    }
}

/// `s` in lower case, as `str::to_lowercase` returns it.
pub uninterp spec fn lowercase(s: Seq<char>) -> Seq<char>;

/// Puts text in lower case with `str::to_lowercase`.
///
/// Trusted: the result depends on the characters of `s` alone.
#[verifier::external_body]
fn to_lowercase(s: &str) -> (r: String)
    ensures
        r@ == lowercase(s@),
{
    s.to_lowercase()
}

/// The command that a frame holds: an array whose first part is the
/// command's name, in any case of letters, and whose other parts are its
/// arguments.
pub open spec fn command(frame: FrameView) -> Result<CommandView, ParseErrorView> {
    match frame {
        FrameView::Array(parts) => match pull_text(parts) {
            Ok(name) => command_named(lowercase(name), rest(parts)),
            Err(e) => Err(e),
        },
        _ => Err(protocol_error("expected array")),
    }
}

/// The command of the name `name`, which is in lower case, with the
/// arguments `args`.
pub open spec fn command_named(name: Seq<char>, args: Seq<FrameView>) -> Result<
    CommandView,
    ParseErrorView,
> {
    if name == "ping"@ || name == "echo"@ {
        match ping_arguments(args) {
            Ok(message) => Ok(CommandView::Ping(message)),
            Err(e) => Err(e),
        }
    } else if name == "get"@ {
        match get_arguments(args) {
            Ok(key) => Ok(CommandView::Get(key)),
            Err(e) => Err(e),
        }
    } else if name == "set"@ {
        match set_arguments(args) {
            Ok(cmd) => Ok(CommandView::SetCmd(cmd)),
            Err(e) => Err(e),
        }
    } else {
        Err(protocol_error("unknown command"))
    }
}

/// The parts that are left once the command of the name `name` was read.
pub open spec fn command_leftover(name: Seq<char>, args: Seq<FrameView>) -> Seq<FrameView> {
    if name == "ping"@ || name == "echo"@ || name == "get"@ {
        rest(args)
    } else if name == "set"@ {
        set_leftover(args)
    } else {
        args
    }
}

/// The reply to a command applied to `entries`.
pub open spec fn reply(cmd: CommandView, entries: Entries) -> FrameView {
    match cmd {
        CommandView::Ping(message) => ping_reply(message),
        CommandView::Get(key) => get_reply(key, entries),
        CommandView::SetCmd(_) => FrameView::Simple("OK"@),
    }
}

/// The entries once a command is applied to `entries` at `now`.
pub open spec fn effect(cmd: CommandView, entries: Entries, now: u64) -> Entries {
    match cmd {
        CommandView::SetCmd(cmd) => set_entries(cmd, entries, now),
        _ => entries,
    }
}

/// Whether applying a command at `now` brings the nearest expiration
/// forward.
pub open spec fn wakes(cmd: CommandView, entries: Entries, now: u64) -> bool {
    cmd matches CommandView::SetCmd(cmd) && should_wake(entries, deadline(cmd.expire, now))
}

/// Whether a command can be applied at `now`: the instant at which its
/// value expires, if it does, can be written in 64 bits.
pub open spec fn applicable(cmd: CommandView, now: u64) -> bool {
    cmd matches CommandView::SetCmd(cmd) ==> (cmd.expire matches Some(ttl) ==> now + ttl
        <= u64::MAX)
}

/// A reply, and whether whoever waits for the nearest expiration has to be
/// woken.
#[derive(Debug, PartialEq, Eq)]
pub struct Applied {
    pub reply: Frame,
    pub wake: bool,
}

impl Command {
    /// Reads a command from a frame.
    ///
    /// Fails with a protocol error where the frame is no array, a part is
    /// of the wrong kind, the name is not known, or an option is not
    /// known; and with the end of the stream where a part that has to be
    /// there is missing.
    pub fn from_frame(frame: Frame) -> (r: Result<Command, ParseError>)
        ensures
            match r {
                Ok(cmd) => command(frame@) == Ok::<CommandView, ParseErrorView>(cmd@),
                Err(e) => command(frame@) == Err::<CommandView, ParseErrorView>(e@),
            },
    {
        let mut parse = Parse::new(frame)?;
        let name = parse.next_string()?;
        let name = to_lowercase(name.as_str());
        Command::parse_named(&name, &mut parse)
    }

    /// Reads the command of the name `name`, which is in lower case, from
    /// its arguments.
    pub fn parse_named(name: &String, parse: &mut Parse) -> (r: Result<Command, ParseError>)
        ensures
            final(parse).remaining() == command_leftover(name@, old(parse).remaining()),
            match r {
                Ok(cmd) => command_named(name@, old(parse).remaining()) == Ok::<
                    CommandView,
                    ParseErrorView,
                >(cmd@),
                Err(e) => command_named(name@, old(parse).remaining()) == Err::<
                    CommandView,
                    ParseErrorView,
                >(e@),
            },
    {
        if *name == "ping".to_string() || *name == "echo".to_string() {
            match Ping::parse_frames(parse) {
                Ok(cmd) => Ok(Command::Ping(cmd)),
                Err(e) => Err(e),
            }
        } else if *name == "get".to_string() {
            match Get::parse_frames(parse) {
                Ok(cmd) => Ok(Command::Get(cmd)),
                Err(e) => Err(e),
            }
        } else if *name == "set".to_string() {
            match SetCmd::parse_frames(parse) {
                Ok(cmd) => Ok(Command::SetCmd(cmd)),
                Err(e) => Err(e),
            }
        } else {
            Err(ParseError::ProtocolError("unknown command".to_string()))
        }
    }

    /// Applies the command to the store at `now`.
    pub fn apply(self, db: &mut Db, now: u64) -> (r: Applied)
        requires
            old(db).wf(),
            applicable(self@, now),
        ensures
            final(db).wf(),
            final(db).closed() == old(db).closed(),
            final(db)@ == effect(self@, old(db)@, now),
            r.reply@ == reply(self@, old(db)@),
            r.wake == wakes(self@, old(db)@, now),
    {
        match self {
            Command::Ping(cmd) => Applied { reply: cmd.apply(), wake: false },
            Command::Get(cmd) => Applied { reply: cmd.apply(db), wake: false },
            Command::SetCmd(cmd) => {
                let (reply, wake) = cmd.apply(db, now);
                Applied { reply, wake }
            },
        }
    }
}

} // verus!
