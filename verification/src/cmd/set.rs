//! The command that stores a value under a key.

use crate::db::{deadline, should_wake, Db, Entries, EntryView};
use crate::frame::{Frame, FrameView};
use crate::parse::{
    protocol_error, pull_bytes, pull_number, pull_text, rest, Parse, ParseError, ParseErrorView,
};
use vstd::prelude::*;

verus! {

/// Stores a value under a key, for good or for a time to live.
#[derive(Debug, PartialEq, Eq)]
pub struct SetCmd {
    key: String,
    value: Vec<u8>,
    expire: Option<u64>,
}

/// The mathematical value of a [`SetCmd`].
pub struct SetView {
    pub key: Seq<char>,
    pub value: Seq<u8>,
    /// The time to live in milliseconds, if there is one.
    pub expire: Option<u64>,
}

impl View for SetCmd {
    type V = SetView;

    closed spec fn view(&self) -> SetView {
        SetView { key: self.key@, value: self.value@, expire: self.expire }
    }
}

/// `s` in upper case, as `str::to_uppercase` returns it.
pub uninterp spec fn uppercase(s: Seq<char>) -> Seq<char>;

/// Puts text in upper case with `str::to_uppercase`.
///
/// Trusted: the result depends on the characters of `s` alone.
#[verifier::external_body]
fn to_uppercase(s: &str) -> (r: String)
    ensures
        r@ == uppercase(s@),
{
    s.to_uppercase()
}

/// The only option that the command knows.
pub open spec fn px() -> Seq<char> {
    "PX"@
}

/// What the arguments of the command come to: a key, a value, and then
/// nothing more or the option `PX`, in any case of letters, with a time to
/// live in milliseconds.
pub open spec fn set_arguments(args: Seq<FrameView>) -> Result<SetView, ParseErrorView> {
    match pull_text(args) {
        Err(e) => Err(e),
        Ok(key) => match pull_bytes(rest(args)) {
            Err(e) => Err(e),
            Ok(value) => match pull_text(rest(rest(args))) {
                Err(ParseErrorView::EndOfStreamError) => Ok(SetView { key, value, expire: None }),
                Err(e) => Err(e),
                Ok(option) => set_option(key, value, uppercase(option), rest(rest(rest(args)))),
            },
        },
    }
}

/// What the arguments come to from the option on, the option being in
/// upper case.
pub open spec fn set_option(
    key: Seq<char>,
    value: Seq<u8>,
    option: Seq<char>,
    args: Seq<FrameView>,
) -> Result<SetView, ParseErrorView> {
    if option == px() {
        match pull_number(args) {
            Ok(ms) => Ok(SetView { key, value, expire: Some(ms) }),
            Err(e) => Err(e),
        }
    } else {
        Err(protocol_error("currently `SET` only supports the expiration option `PX`"))
    }
}

/// The parts that are left once the arguments were read, with or without
/// success: those behind the last part that was pulled.
pub open spec fn set_leftover(args: Seq<FrameView>) -> Seq<FrameView> {
    if pull_text(args) is Err {
        rest(args)
    } else if pull_bytes(rest(args)) is Err {
        rest(rest(args))
    } else {
        match pull_text(rest(rest(args))) {
            Ok(option) => set_option_leftover(uppercase(option), rest(rest(rest(args)))),
            Err(_) => rest(rest(rest(args))),
        }
    }
}

/// The parts that are left once the arguments were read from the option
/// on.
pub open spec fn set_option_leftover(option: Seq<char>, args: Seq<FrameView>) -> Seq<FrameView> {
    if option == px() {
        rest(args)
    } else {
        args
    }
}

/// The entries once the command is applied at `now`.
pub open spec fn set_entries(cmd: SetView, entries: Entries, now: u64) -> Entries {
    entries.insert(cmd.key, EntryView { data: cmd.value, expires_at: deadline(cmd.expire, now) })
}

impl SetCmd {
    /// The command that stores `value` under `key`, with a time to live in
    /// milliseconds or without.
    pub fn new(key: &str, value: Vec<u8>, expire: Option<u64>) -> (cmd: SetCmd)
        ensures
            cmd@ == (SetView { key: key@, value: value@, expire }),
    {
        SetCmd { key: key.to_owned(), value, expire }
    }

    /// The key.
    pub fn key(&self) -> (key: &str)
        ensures
            key@ == self@.key,
    {
        self.key.as_str()
    }

    /// The value.
    pub fn value(&self) -> (value: &Vec<u8>)
        ensures
            value@ == self@.value,
    {
        &self.value
    }

    /// The time to live in milliseconds, if there is one.
    pub fn expire(&self) -> (expire: Option<u64>)
        ensures
            expire == self@.expire,
    {
        self.expire
    }

    /// Reads the command's arguments.
    pub fn parse_frames(parse: &mut Parse) -> (r: Result<SetCmd, ParseError>)
        ensures
            final(parse).remaining() == set_leftover(old(parse).remaining()),
            match r {
                Ok(cmd) => set_arguments(old(parse).remaining()) == Ok::<SetView, ParseErrorView>(
                    cmd@,
                ),
                Err(e) => set_arguments(old(parse).remaining()) == Err::<SetView, ParseErrorView>(
                    e@,
                ),
            },
    {
        let key = parse.next_string()?;
        let value = parse.next_bytes()?;
        match parse.next_string() {
            Ok(option) => {
                let option = to_uppercase(option.as_str());
                SetCmd::parse_option(key, value, &option, parse)
            },
            Err(ParseError::EndOfStreamError) => Ok(SetCmd { key, value, expire: None }),
            Err(e) => Err(e),
        }
    }

    /// Reads the command's arguments from the option on, the option being in
    /// upper case: `PX` and a time to live in milliseconds.
    pub fn parse_option(key: String, value: Vec<u8>, option: &String, parse: &mut Parse) -> (r:
        Result<SetCmd, ParseError>)
        ensures
            final(parse).remaining() == set_option_leftover(option@, old(parse).remaining()),
            match r {
                Ok(cmd) => set_option(key@, value@, option@, old(parse).remaining()) == Ok::<
                    SetView,
                    ParseErrorView,
                >(cmd@),
                Err(e) => set_option(key@, value@, option@, old(parse).remaining()) == Err::<
                    SetView,
                    ParseErrorView,
                >(e@),
            },
    {
        let px = "PX".to_string();
        if *option == px {
            let ms = parse.next_int()?;
            Ok(SetCmd { key, value, expire: Some(ms) })
        } else {
            Err(
                ParseError::ProtocolError(
                    "currently `SET` only supports the expiration option `PX`".to_string(),
                ),
            )
        }
    }

    /// Stores the value at `now` and returns the reply, `OK`, and whether
    /// the nearest expiration has come forward.
    pub fn apply(self, db: &mut Db, now: u64) -> (r: (Frame, bool))
        requires
            old(db).wf(),
            self@.expire matches Some(ttl) ==> now + ttl <= u64::MAX,
        ensures
            final(db).wf(),
            final(db).closed() == old(db).closed(),
            final(db)@ == set_entries(self@, old(db)@, now),
            r.0@ == FrameView::Simple("OK"@),
            r.1 == should_wake(old(db)@, deadline(self@.expire, now)),
    {
        let wake = db.set(self.key, self.value, self.expire, now);
        (Frame::Simple("OK".to_string()), wake)
    }
}

} // verus!
