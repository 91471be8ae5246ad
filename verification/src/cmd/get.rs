//! The command that reads the value under a key.

use crate::db::{Db, Entries};
use crate::frame::{Frame, FrameView};
use crate::parse::{pull_text, rest, Parse, ParseError, ParseErrorView};
use vstd::prelude::*;

verus! {

/// Reads the value under a key.
#[derive(Debug, PartialEq, Eq)]
pub struct Get {
    key: String,
}

impl View for Get {
    type V = Seq<char>;

    /// The key.
    closed spec fn view(&self) -> Seq<char> {
        self.key@
    }
}

/// The key that the arguments of the command name.
pub open spec fn get_arguments(args: Seq<FrameView>) -> Result<Seq<char>, ParseErrorView> {
    pull_text(args)
}

/// The reply to reading `key`: its value, or the absent value where
/// nothing is stored under it.
pub open spec fn get_reply(key: Seq<char>, entries: Entries) -> FrameView {
    if entries.contains_key(key) {
        FrameView::Bulk(entries[key].data)
    } else {
        FrameView::Null
    }
}

impl Get {
    /// The command that reads the value under `key`.
    pub fn new(key: &str) -> (get: Get)
        ensures
            get@ == key@,
    {
        Get { key: key.to_owned() }
    }

    /// The key.
    pub fn key(&self) -> (key: &str)
        ensures
            key@ == self@,
    {
        self.key.as_str()
    }

    /// Reads the command's arguments: the key, which has to be there.
    pub fn parse_frames(parse: &mut Parse) -> (r: Result<Get, ParseError>)
        ensures
            final(parse).remaining() == rest(old(parse).remaining()),
            match r {
                Ok(get) => get_arguments(old(parse).remaining()) == Ok::<
                    Seq<char>,
                    ParseErrorView,
                >(get@),
                Err(e) => get_arguments(old(parse).remaining()) == Err::<
                    Seq<char>,
                    ParseErrorView,
                >(e@),
            },
    {
        let key = parse.next_string()?;
        Ok(Get { key })
    }

    /// Looks the key up and returns the reply.
    pub fn apply(self, db: &Db) -> (reply: Frame)
        requires
            db.wf(),
        ensures
            reply@ == get_reply(self@, db@),
    {
        match db.get(self.key.as_str()) {
            None => Frame::Null,
            Some(data) => Frame::Bulk(data),
        }
    }
}

} // verus!
