//! Whispers: how long one may be, and to whom one was sent before.
use vstd::prelude::*;
use crate::table::Table;
use crate::text;
use crate::util;

verus! {

/// Maximum length of the first whisper to a user, in characters.
pub const FIRST_WHISPER_MAX_CHARS: usize = 500;

/// Maximum length of a later whisper, in characters.
pub const WHISPER_MAX_CHARS: usize = 10_000;

/// A whisper cut to the length that its recipient may be sent.
pub open spec fn whisper_text(message: Seq<char>, known: bool) -> Seq<char> {
    util::truncated(
        message,
        if known {
            WHISPER_MAX_CHARS as nat
        } else {
            FIRST_WHISPER_MAX_CHARS as nat
        },
    )
}

/// Cuts a whisper to the length that its recipient may be sent.
pub fn truncate_whisper_message(message: &str, known_recipient: bool) -> (r: String)
    ensures
        r@ == whisper_text(message@, known_recipient),
        r@.len() <= if known_recipient {
            WHISPER_MAX_CHARS
        } else {
            FIRST_WHISPER_MAX_CHARS
        },
{
    let limit: usize = if known_recipient {
        WHISPER_MAX_CHARS
    } else {
        FIRST_WHISPER_MAX_CHARS
    };
    util::truncate_response(message, limit)
}

/// Why a whisper was not sent.
#[derive(Debug, Clone)]
pub enum WhisperError {
    MissingToken,
    Credentials(String),
    EmptyMessage,
    Api { status: String, body: String },
    Http(String),
    Unavailable(String),
}

impl WhisperError {
    pub open spec fn text(self) -> Seq<char> {
        match self {
            WhisperError::MissingToken => "missing user access token for whisper API"@,
            WhisperError::Credentials(e) => "failed to obtain Twitch credentials: "@ + e@,
            WhisperError::EmptyMessage => "whisper message is empty"@,
            WhisperError::Api { status, body } => "Twitch whisper API returned "@ + status@ + ": "@
                + body@,
            WhisperError::Http(e) => "Twitch whisper API request failed: "@ + e@,
            WhisperError::Unavailable(reason) => "whisper unavailable: "@ + reason@,
        }
    }

    pub fn unavailable(reason: String) -> (r: WhisperError)
        ensures
            r == WhisperError::Unavailable(reason),
    {
        WhisperError::Unavailable(reason)
    }

    /// The message of the error.
    pub fn to_text(&self) -> (r: String)
        ensures
            r@ == self.text(),
    {
        match self {
            WhisperError::MissingToken => "missing user access token for whisper API".to_owned(),
            WhisperError::Credentials(e) => {
                let mut s = "failed to obtain Twitch credentials: ".to_owned();
                s.push_str(e.as_str());
                s
            },
            WhisperError::EmptyMessage => "whisper message is empty".to_owned(),
            WhisperError::Api { status, body } => {
                let mut s = "Twitch whisper API returned ".to_owned();
                s.push_str(status.as_str());
                s.push_str(": ");
                s.push_str(body.as_str());
                s
            },
            WhisperError::Http(e) => {
                let mut s = "Twitch whisper API request failed: ".to_owned();
                s.push_str(e.as_str());
                s
            },
            WhisperError::Unavailable(reason) => {
                let mut s = "whisper unavailable: ".to_owned();
                s.push_str(reason.as_str());
                s
            },
        }
    }
}

/// Recipients with one more.
pub open spec fn remembered(ids: Seq<Seq<char>>, id: Seq<char>) -> Seq<Seq<char>> {
    if ids.contains(id) {
        ids
    } else {
        ids.push(id)
    }
}

/// What is sent to a user, where anything is left to send.
pub open spec fn sent_to(ids: Seq<Seq<char>>, id: Seq<char>, message: Seq<char>) -> Option<
    Seq<char>,
> {
    let t = whisper_text(message, ids.contains(id));
    if text::trim(t).len() > 0 {
        Some(t)
    } else {
        None
    }
}

/// The users who were sent a whisper before.
#[derive(Debug, Clone)]
pub struct Recipients {
    ids: Table<bool>,
}

impl Recipients {
    pub closed spec fn wf(&self) -> bool {
        self.ids.wf()
    }

    /// The ids, in the order in which they were remembered.
    pub closed spec fn view(&self) -> Seq<Seq<char>> {
        self.ids.keys()
    }

    pub fn new() -> (r: Recipients)
        ensures
            r.wf(),
            r@ == Seq::<Seq<char>>::empty(),
    {
        Recipients { ids: Table::new() }
    }

    pub fn contains(&self, id: &str) -> (r: bool)
        requires
            self.wf(),
        ensures
            r == self@.contains(id@),
    {
        self.ids.contains_key(id)
    }

    /// Remembers a recipient. Says whether they are new.
    pub fn remember(&mut self, id: &str) -> (r: bool)
        requires
            old(self).wf(),
        ensures
            final(self).wf(),
            final(self)@ == if old(self)@.contains(id@) {
                old(self)@
            } else {
                old(self)@.push(id@)
            },
            r == !old(self)@.contains(id@),
            final(self)@ == remembered(old(self)@, id@),
    {
        if self.ids.contains_key(id) {
            return false;
        }
        self.ids.insert(id.to_owned(), true);
        true
    }

    /// The ids, in the order in which they were remembered, each of them once.
    pub fn to_list(&self) -> (r: Vec<String>)
        requires
            self.wf(),
        ensures
            text::views(r@) == self@,
            text::views(r@).no_duplicates(),
    {
        let mut out: Vec<String> = Vec::new();
        let mut i: usize = 0;
        while i < self.ids.len()
            invariant
                self.wf(),
                i <= self.ids.keys().len(),
                out@.len() == i,
                forall|j: int| 0 <= j < i ==> (#[trigger] out@[j])@ == self.ids.keys()[j],
            decreases self.ids.keys().len() - i,
        {
            out.push(self.ids.key_at(i).to_owned());
            i = i + 1;
        }
        assert(text::views(out@) =~= self.ids.keys());
        out
    }

    /// What to send to a user, or the error where nothing is left to send.
    pub fn prepare(&self, to_user_id: &str, message: &str) -> (r: Result<String, WhisperError>)
        requires
            self.wf(),
        ensures
            ({
                let t = whisper_text(message@, self@.contains(to_user_id@));
                match r {
                    Ok(s) => s@ == t && text::trim(t).len() > 0,
                    Err(e) => e == WhisperError::EmptyMessage && text::trim(t).len() == 0,
                }
            }),
            match r {
                Ok(s) => sent_to(self@, to_user_id@, message@) == Some(s@),
                Err(e) => sent_to(self@, to_user_id@, message@) is None,
            },
    {
        let known = self.contains(to_user_id);
        let t = truncate_whisper_message(message, known);
        let trimmed = text::trimmed(t.as_str());
        if text::char_count(trimmed.as_str()) == 0 {
            Err(WhisperError::EmptyMessage)
        } else {
            Ok(t)
        }
    }
}


/// Someone who was sent a whisper before may be sent up to 10000 characters, anyone else up
/// to 500; what is short enough is sent whole.
pub proof fn law_first_whispers_are_short(message: Seq<char>)
    ensures
        whisper_text(message, false).len() <= 500,
        whisper_text(message, true).len() <= 10_000,
        text::collapse(message).len() <= 500 ==> whisper_text(message, false) == text::collapse(
            message,
        ),
        text::collapse(message).len() <= 10_000 ==> whisper_text(message, true) == text::collapse(
            message,
        ),
{
    util::law_truncated_is_short(message, 500);
    util::law_truncated_is_short(message, 10_000);
}

/// A recipient who was remembered is known, once, and nobody is forgotten.
pub proof fn law_recipients_are_remembered(
    ids: Seq<Seq<char>>,
    id: Seq<char>,
    other: Seq<char>,
    message: Seq<char>,
)
    requires
        ids.no_duplicates(),
        other != id,
    ensures
        remembered(ids, id).contains(id),
        remembered(ids, id).contains(other) == ids.contains(other),
        remembered(ids, id).no_duplicates(),
        remembered(remembered(ids, id), id) == remembered(ids, id),
        sent_to(remembered(ids, id), id, message) matches Some(t) ==> t == util::truncated(
            message,
            10_000,
        ),
        sent_to(ids, id, message) matches Some(t) ==> !ids.contains(id) ==> t == util::truncated(
            message,
            500,
        ),
{
    let all = ids.push(id);
    assert(all[ids.len() as int] == id);
    if ids.contains(other) {
        let i = ids.index_of(other);
        assert(all[i] == other);
    }
    if all.contains(other) {
        let i = all.index_of(other);
        assert(ids[i] == other);
    }
}

/// What went wrong is told with what the other side said of it.
pub proof fn law_errors_tell_why(e: WhisperError)
    ensures
        e matches WhisperError::Credentials(s) ==> text::has_suffix(e.text(), s@),
        e matches WhisperError::Api { status, body } ==> text::has(e.text(), status@)
            && text::has_suffix(e.text(), body@),
        e matches WhisperError::Http(s) ==> text::has_suffix(e.text(), s@),
        e matches WhisperError::Unavailable(s) ==> text::has_suffix(e.text(), s@),
{
    broadcast use text::group_parts;

}

} // verus!
