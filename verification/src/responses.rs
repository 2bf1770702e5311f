//! Rules on what the service answers: the text of an error, and what the
//! client does on an answer.

use crate::text::{str_eq, trim_text, trimmed};
use vstd::prelude::*;
use vstd::string::StringExecFns;

verus! {

/// The first error of an answer, as far as the client reads it.
#[derive(Debug, Clone)]
pub struct GraphqlError {
    pub message: Option<String>,
    pub code: Option<String>,
}

/// Whether the error says that the caller is not logged in.
pub open spec fn unauthenticated(first: Option<GraphqlError>) -> bool {
    first is Some && first->0.code is Some && first->0.code->0@ == "UNAUTHENTICATED"@
}

/// Whether the first error of an answer says that the caller is not logged
/// in.
pub fn is_unauthenticated(first: Option<&GraphqlError>) -> (b: bool)
    ensures
        b == unauthenticated(match first {
            Some(e) => Some(*e),
            None => None,
        }),
{
    match first {
        Some(e) => match &e.code {
            Some(c) => str_eq(c.as_str(), "UNAUTHENTICATED"),
            None => false,
        },
        None => false,
    }
}

/// The text of an error: `graphql error`, the code in parentheses where
/// there is one, and the message after a colon where it is not empty. An
/// error without code and message has no text.
pub open spec fn error_text(e: GraphqlError) -> Option<Seq<char>> {
    let message = match e.message {
        Some(m) => m@,
        None => Seq::<char>::empty(),
    };
    if message.len() == 0 && e.code is None {
        None
    } else {
        let with_code = match e.code {
            Some(c) => "graphql error"@ + " ("@ + c@ + ")"@,
            None => "graphql error"@,
        };
        Some(
            if message.len() > 0 {
                with_code + ": "@ + message
            } else {
                with_code
            },
        )
    }
}

/// The text of the first error of an answer, where it has one to show.
pub fn format_graphql_error(first: Option<&GraphqlError>) -> (r: Option<String>)
    ensures
        first is None ==> r is None,
        first is Some ==> (r is Some) == (error_text(*first->0) is Some),
        first is Some && r is Some ==> Some(r->0@) == error_text(*first->0),
{
    let e = match first {
        Some(e) => e,
        None => {
            return None;
        },
    };
    proof {
        reveal_strlit("");
    }
    let has_message = match &e.message {
        Some(m) => !str_eq(m.as_str(), ""),
        None => false,
    };
    proof {
        if e.message is Some {
            assert(e.message->0@.len() == 0 <==> e.message->0@ =~= ""@);
        }
    }
    if !has_message && e.code.is_none() {
        return None;
    }
    let mut out = String::from_str("graphql error");
    if let Some(c) = &e.code {
        out.append(" (");
        out.append(c.as_str());
        out.append(")");
    }
    if has_message {
        if let Some(m) = &e.message {
            out.append(": ");
            out.append(m.as_str());
        }
    }
    Some(out)
}

/// What the client does on an answer.
#[derive(Debug, Clone, PartialEq, Eq)]
pub enum ResponseAction {
    /// The token is refreshed from the stored session and the request sent
    /// once more.
    RefreshAndRetry,
    /// The request fails: the caller is not logged in.
    FailUnauthenticated,
    /// The request fails with the text of the service's error.
    FailWithError(String),
    /// The request fails: the status of the answer is no success.
    FailHttpStatus,
    /// The answer is taken.
    Accept,
}

/// Decides what the client does on an answer of the service.
///
/// `attempt` counts the requests sent, from one; `session_available` says
/// whether a stored session can refresh the token.
pub fn response_action(
    attempt: u32,
    first: Option<&GraphqlError>,
    session_available: bool,
    status_is_success: bool,
) -> (r: ResponseAction)
    ensures
        ({
            let e = match first {
                Some(e) => Some(*e),
                None => None,
            };
            if unauthenticated(e) {
                if attempt == 1 && session_available {
                    r == ResponseAction::RefreshAndRetry
                } else {
                    r == ResponseAction::FailUnauthenticated
                }
            } else if e is Some && error_text(e->0) is Some {
                r matches ResponseAction::FailWithError(text) && Some(text@) == error_text(e->0)
            } else if !status_is_success {
                r == ResponseAction::FailHttpStatus
            } else {
                r == ResponseAction::Accept
            }
        }),
{
    if is_unauthenticated(first) {
        if attempt == 1 && session_available {
            return ResponseAction::RefreshAndRetry;
        }
        return ResponseAction::FailUnauthenticated;
    }
    if let Some(text) = format_graphql_error(first) {
        return ResponseAction::FailWithError(text);
    }
    if !status_is_success {
        return ResponseAction::FailHttpStatus;
    }
    ResponseAction::Accept
}

/// The token that a token file holds: its text without the white space at
/// its ends, unless that is empty.
pub fn token_from_text(text: &str) -> (r: Option<String>)
    ensures
        r is Some == (trimmed(text@).len() > 0),
        r is Some ==> r->0@ == trimmed(text@),
{
    let t = trim_text(text);
    proof {
        reveal_strlit("");
    }
    if str_eq(t.as_str(), "") {
        assert(t@ =~= Seq::<char>::empty());
        None
    } else {
        assert(t@.len() > 0) by {
            if t@.len() == 0 {
                assert(t@ =~= ""@);
            }
        }
        Some(t)
    }
}

} // verus!
