//! Chat sessions with the assistant: their list entries and provisional
//! titles.

use vstd::prelude::*;
use crate::text::{chars_of, string_of, str_eq, find_char, index_of, take_chars};
use crate::variables::{trim, trimmed_range};

verus! {

/// One message of a chat.
#[derive(Debug)]
pub struct ChatMessage {
    pub role: String,
    pub content: String,
    pub reasoning: Option<String>,
    pub timestamp: Option<String>,
}

/// A chat session with its messages.
#[derive(Debug)]
pub struct ChatSession {
    pub id: String,
    pub created_at: String,
    pub messages: Vec<ChatMessage>,
    pub title: Option<String>,
}

/// The list entry of a chat session.
#[derive(Debug)]
pub struct ChatSessionIndex {
    pub id: String,
    pub created_at: String,
    pub title: Option<String>,
    pub message_count: usize,
}

/// Index of the first message from the user, from `i` on.
pub open spec fn first_user_from(msgs: Seq<ChatMessage>, i: int) -> Option<int>
    decreases msgs.len() - i,
{
    if i < 0 || i >= msgs.len() {
        None
    } else if msgs[i].role@ == "user"@ {
        Some(i)
    } else {
        first_user_from(msgs, i + 1)
    }
}

/// The first line of a text (`str::lines`): up to the first `\n`, without
/// a `\r` just before it.
pub open spec fn first_line(c: Seq<char>) -> Seq<char> {
    match index_of(c, '\n') {
        Some(i) => {
            let l = c.take(i);
            if l.len() > 0 && l.last() == '\r' {
                l.drop_last()
            } else {
                l
            }
        },
        None => c,
    }
}

/// The provisional title: the first line of the first user message once
/// trimmed, cut to 30 characters with `…` when longer; none when there is
/// no user message or it is blank.
pub open spec fn fallback_title(msgs: Seq<ChatMessage>) -> Option<Seq<char>> {
    match first_user_from(msgs, 0) {
        None => None,
        Some(k) => {
            let c = trim(msgs[k].content@);
            if c.len() == 0 {
                None
            } else {
                let l = first_line(c);
                if l.len() > 30 {
                    Some(l.take(30).push('…'))
                } else {
                    Some(l)
                }
            }
        },
    }
}

/// Rules for chat sessions.
pub struct ChatDomainService;

impl ChatDomainService {
    /// The list entry of a session.
    pub fn session_to_index_entry(session: &ChatSession) -> (e: ChatSessionIndex)
        ensures
            e.id == session.id,
            e.created_at == session.created_at,
            e.title == session.title,
            e.message_count == session.messages@.len(),
    {
        ChatSessionIndex {
            id: session.id.clone(),
            created_at: session.created_at.clone(),
            title: session.title.clone(),
            message_count: session.messages.len(),
        }
    }

    /// A title to show before the assistant has summarised the chat.
    pub fn extract_fallback_title(messages: &[ChatMessage]) -> (r: Option<String>)
        ensures
            match fallback_title(messages@) {
                None => r is None,
                Some(t) => r is Some && r->Some_0@ == t,
            },
    {
        let mut i: usize = 0;
        while i < messages.len()
            invariant
                i <= messages@.len(),
                first_user_from(messages@, 0) == first_user_from(messages@, i as int),
            ensures
                i <= messages@.len(),
                first_user_from(messages@, 0) == first_user_from(messages@, i as int),
                i < messages@.len() ==> messages@[i as int].role@ == "user"@,
            decreases messages@.len() - i,
        {
            if str_eq(messages[i].role.as_str(), "user") {
                break;
            }
            i = i + 1;
        }
        if i >= messages.len() {
            return None;
        }
        let raw = chars_of(messages[i].content.as_str());
        let c = trimmed_range(&raw, 0, raw.len());
        assert(raw@.subrange(0, raw@.len() as int) =~= raw@);
        if c.len() == 0 {
            return None;
        }
        let l = match find_char(&c, '\n') {
            Some(j) => {
                let l0 = take_chars(&c, j);
                if l0.len() > 0 && l0[l0.len() - 1] == '\r' {
                    let n = l0.len() - 1;
                    take_chars(&l0, n)
                } else {
                    l0
                }
            },
            None => c,
        };
        if l.len() > 30 {
            let mut t = take_chars(&l, 30);
            t.push('…');
            Some(string_of(&t))
        } else {
            Some(string_of(&l))
        }
    }
}

} // verus!
