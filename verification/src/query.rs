//! Questions to a running daemon, and what is made of its answers.

use crate::outside::read_json_entries;
use crate::runtime_cli::QueryType;
use crate::text::{chars_of, string_of};
use vstd::prelude::*;

verus! {

/// How long a question to a running daemon may take, in seconds.
pub const QUERY_DAEMON_HTTP_TIMEOUT_SECS: u64 = 5;

/// A text without the slashes at its end.
pub open spec fn without_end_slashes(s: Seq<char>) -> Seq<char>
    decreases s.len(),
{
    if s.len() > 0 && s.last() == '/' {
        without_end_slashes(s.drop_last())
    } else {
        s
    }
}

/// Where a daemon answers a question.
pub fn query_url(base_url: &str, query_type: QueryType) -> (r: String)
    ensures
        r@ == without_end_slashes(base_url@) + "/"@ + crate::runtime_cli::query_endpoint(
            query_type,
        ),
{
    let mut chars = chars_of(base_url);
    while chars.len() > 0 && chars[chars.len() - 1] == '/'
        invariant
            without_end_slashes(chars@) == without_end_slashes(base_url@),
        decreases chars@.len(),
    {
        let ghost before = chars@;
        chars.pop();
        assert(chars@ =~= before.drop_last());
    }
    let mut url = string_of(&chars, 0, chars.len());
    assert(url@ =~= chars@);
    url.append("/");
    url.append(query_type.endpoint_path());
    url
}

/// The complaint about an answer that has some fault, if it has: it is not JSON, not an array,
/// or has entries that are no objects.
pub open spec fn payload_complaint(query_type: QueryType, found: Option<Option<Seq<bool>>>) -> Option<
    Seq<char>,
> {
    let name = crate::runtime_cli::query_name(query_type);
    match found {
        None => Some("daemon returned non-JSON "@ + name + " payload"@),
        Some(None) => Some(
            "daemon returned unexpected "@ + name + " payload shape (expected JSON array)"@,
        ),
        Some(Some(flags)) => if flags.contains(false) {
            Some(
                "daemon returned unexpected "@ + name
                    + " payload shape (array entries must be objects)"@,
            )
        } else {
            None
        },
    }
}

/// The body of an answer, given what it is as JSON, or the complaint about it.
pub fn checked_payload(
    query_type: QueryType,
    found: &Option<Option<Vec<bool>>>,
    body: String,
) -> (r: Result<String, String>)
    ensures
        match payload_complaint(query_type, crate::outside::entries_view(*found)) {
            Some(complaint) => r matches Err(message) && message@ == complaint,
            None => r matches Ok(payload) && payload@ == body@,
        },
{
    match found {
        None => {
            let mut message = "daemon returned non-JSON ".to_string();
            message.append(query_type.as_str());
            message.append(" payload");
            Err(message)
        },
        Some(None) => {
            let mut message = "daemon returned unexpected ".to_string();
            message.append(query_type.as_str());
            message.append(" payload shape (expected JSON array)");
            Err(message)
        },
        Some(Some(flags)) => {
            let mut i: usize = 0;
            while i < flags.len()
                invariant
                    i <= flags@.len(),
                    *found == Some(Some(*flags)),
                    forall|k: int| 0 <= k < i ==> #[trigger] flags@[k],
                decreases flags@.len() - i,
            {
                if !flags[i] {
                    assert(flags@[i as int] == false);
                    assert(flags@.contains(false));
                    let mut message = "daemon returned unexpected ".to_string();
                    message.append(query_type.as_str());
                    message.append(" payload shape (array entries must be objects)");
                    return Err(message);
                }
                i = i + 1;
            }
            Ok(body)
        },
    }
}

/// What is made of an answer: its body, where the daemon reports success and the body is an
/// array of objects, and otherwise a complaint.
pub fn daemon_answer(
    query_type: QueryType,
    status: u16,
    status_text: &str,
    body: String,
) -> (r: Result<String, String>)
    ensures
        if !crate::instance_control::is_success(status) {
            r matches Err(message) && message@ == "daemon returned error: "@ + status_text@ + " - "@
                + body@
        } else {
            match payload_complaint(query_type, crate::outside::json_entries(body@)) {
                Some(complaint) => r matches Err(message) && message@ == complaint,
                None => r matches Ok(payload) && payload@ == body@,
            }
        },
{
    if !(200 <= status && status < 300) {
        let mut message = "daemon returned error: ".to_string();
        message.append(status_text);
        message.append(" - ");
        message.append(body.as_str());
        return Err(message);
    }
    let found = read_json_entries(body.as_str());
    checked_payload(query_type, &found, body)
}

/// What to do once it is known whether a daemon runs and what it answers.
#[derive(Debug, PartialEq, Eq)]
pub enum QueryStep {
    /// Print the answer of the daemon.
    Print(String),
    /// Answer without a daemon.
    AnswerHere {
        /// True if the plugins have to run first.
        refresh: bool,
        /// What is logged of it.
        note: String,
    },
}

/// What to do, given the answer of the daemon if one was found. A daemon that does not answer
/// as it should is passed over.
pub fn query_step(query_type: QueryType, answer: Option<Result<String, String>>) -> (r: QueryStep)
    ensures
        match answer {
            Some(Ok(payload)) => r matches QueryStep::Print(text) && text@ == payload@,
            Some(Err(message)) => r matches QueryStep::AnswerHere { refresh, note } && refresh == (
            query_type == QueryType::Usage) && note@ == "failed to query running daemon: "@
                + message@ + "; falling back to "@ + fallback_text(query_type),
            None => r matches QueryStep::AnswerHere { refresh, note } && refresh == (query_type
                == QueryType::Usage) && note@ == "no running daemon discovered; falling back to "@
                + fallback_text(query_type),
        },
{
    let refresh = query_type.requires_local_refresh();
    match answer {
        Some(Ok(payload)) => QueryStep::Print(payload),
        Some(Err(message)) => {
            let mut note = "failed to query running daemon: ".to_string();
            note.append(message.as_str());
            note.append("; falling back to ");
            note.append(query_type.fallback_description());
            QueryStep::AnswerHere { refresh, note }
        },
        None => {
            let mut note = "no running daemon discovered; falling back to ".to_string();
            note.append(query_type.fallback_description());
            QueryStep::AnswerHere { refresh, note }
        },
    }
}

/// How a question is answered without a daemon.
pub open spec fn fallback_text(query_type: QueryType) -> Seq<char> {
    match query_type {
        QueryType::Usage => "local plugin execution"@,
        QueryType::Plugins => "local plugins response generation"@,
    }
}

/// Every question is answered at the same place, however many slashes end the base URL.
pub proof fn law_end_slashes_do_not_matter(base_url: Seq<char>)
    ensures
        without_end_slashes(base_url.push('/')) == without_end_slashes(base_url),
        without_end_slashes(without_end_slashes(base_url)) == without_end_slashes(base_url),
    decreases base_url.len(),
{
    assert(base_url.push('/').drop_last() =~= base_url);
    if base_url.len() > 0 && base_url.last() == '/' {
        law_end_slashes_do_not_matter(base_url.drop_last());
    }
}

} // verus!
