//! The replies of the sign-in service.
use crate::error::CoreError;
use crate::outside::{dictionary_plist, read_dictionary};
use crate::plist_dates::{dates_are_fit, dates_fit};
use crate::plist_model::group_plist_models;
use crate::plist_value::{lookup, PlistDictionary, PlistModel, PlistValue};
use crate::text::{
    chars_of, ends_line, join2, join4, on_one_line, single_spaced, string_of, words_joined,
};
use vstd::prelude::*;

verus! {

broadcast use group_plist_models;

/// The largest number of characters of a body that are shown.
pub const SNIPPET_LIMIT: usize = 200;

/// A body on one line, cut where it is too long.
pub open spec fn snippet(body: Seq<char>) -> Seq<char> {
    let line = words_joined(body, body.len() as int).0;
    if line.len() > SNIPPET_LIMIT {
        line.take(SNIPPET_LIMIT as int) + "..."@
    } else {
        line
    }
}

/// A body on one line, cut where it is too long.
pub fn body_snippet(body: &str) -> (r: String)
    ensures
        r@ == snippet(body@),
        on_one_line(r@),
{
    let line: String = single_spaced(body);
    let chars: Vec<char> = chars_of(line.as_str());
    if chars.len() > SNIPPET_LIMIT {
        let head: String = string_of(&chars, 0, SNIPPET_LIMIT);
        proof {
            assert(head@ =~= line@.take(SNIPPET_LIMIT as int));
        }
        let cut: String = join2(head.as_str(), "...");
        proof {
            reveal_strlit("...");
            assert forall|i: int| 0 <= i < cut@.len() implies !ends_line(#[trigger] cut@[i]) by {
                if i < SNIPPET_LIMIT {
                    assert(cut@[i] == line@[i]);
                } else {
                    assert(cut@[i] == "..."@[i - SNIPPET_LIMIT]);
                }
            }
        }
        cut
    } else {
        line
    }
}

/// A snippet is no longer than the limit and the dots that mark a cut.
pub proof fn law_snippet_is_short(body: Seq<char>)
    ensures
        snippet(body).len() <= SNIPPET_LIMIT + 3,
{
    reveal_strlit("...");
}

/// A reply by HTTP.
#[derive(Debug)]
pub struct HttpReply {
    pub status: u16,
    /// The status with its reason, as it is shown.
    pub status_text: String,
    pub url: String,
    pub body: String,
}

impl HttpReply {
    /// The status is one of success.
    pub open spec fn succeeded(self) -> bool {
        200 <= self.status < 300
    }

    /// What is said of a reply that failed.
    pub open spec fn failure_text(self) -> Seq<char> {
        "Apple authentication request to "@ + self.url@ + " returned HTTP "@ + self.status_text@ + (
        " (expected a GSA plist). Body: "@ + snippet(self.body@))
    }

    /// The dates in the body can be read.
    pub open spec fn is_readable(self) -> bool {
        dates_fit(vstd::utf8::encode_utf8(self.body@))
    }

    /// What the body says; none where it cannot be read.
    pub open spec fn content(self) -> Option<Seq<(Seq<char>, PlistModel)>> {
        dictionary_plist(vstd::utf8::encode_utf8(self.body@))
    }
}

/// The outcome of a reply whose body says `content`.
pub open spec fn reply_outcome(
    reply: HttpReply,
    content: Option<Seq<(Seq<char>, PlistModel)>>,
    r: Result<PlistDictionary, CoreError>,
) -> bool {
    if !reply.succeeded() {
        r matches Err(CoreError::AuthSrpWithMessage(code, m)) && code == reply.status && m@
            == reply.failure_text()
    } else {
        match content {
            None => r matches Err(CoreError::Plist(_)),
            Some(d) => match lookup(d, "Response"@) {
                Some(PlistModel::Dict(response)) => r matches Ok(out) && out@ == response,
                _ => r matches Err(CoreError::Parse),
            },
        }
    }
}

/// The part of a reply's dictionary that is the response, which must be there.
pub fn response_part(d: &PlistDictionary) -> (r: Result<PlistDictionary, CoreError>)
    requires
        lookup(d@, "Response"@) is Some,
    ensures
        match lookup(d@, "Response"@) {
            Some(PlistModel::Dict(response)) => r matches Ok(out) && out@ == response,
            _ => r matches Err(CoreError::Parse),
        },
{
    match d.get("Response") {
        Some(v) => match v.as_dictionary() {
            Some(response) => Ok(response.duplicate()),
            None => Err(CoreError::Parse),
        },
        None => Err(CoreError::Parse),
    }
}

fn failed_reply(reply: &HttpReply) -> (r: CoreError)
    ensures
        r matches CoreError::AuthSrpWithMessage(code, m) && code == reply.status && m@
            == reply.failure_text(),
{
    let head: String = join4(
        "Apple authentication request to ",
        reply.url.as_str(),
        " returned HTTP ",
        reply.status_text.as_str(),
    );
    let tail: String = join2(
        " (expected a GSA plist). Body: ",
        body_snippet(reply.body.as_str()).as_str(),
    );
    CoreError::AuthSrpWithMessage(reply.status as i64, join2(head.as_str(), tail.as_str()))
}

/// The response in a reply. The body of a successful reply must be readable, and a dictionary in it
/// must hold one.
pub fn parse_response(reply: &HttpReply) -> (r: Result<PlistDictionary, CoreError>)
    requires
        reply.succeeded() ==> reply.is_readable(),
        reply.succeeded() ==> (reply.content() matches Some(d) ==> lookup(d, "Response"@) is Some),
    ensures
        reply_outcome(*reply, reply.content(), r),
{
    if reply.status < 200 || reply.status >= 300 {
        return Err(failed_reply(reply));
    }
    match read_dictionary(reply.body.as_str().as_bytes()) {
        Ok(d) => response_part(&d),
        Err(e) => Err(CoreError::Plist(e)),
    }
}

/// The response in a reply; none where a successful reply cannot be read or holds a dictionary
/// without one.
pub fn checked_parse_response(reply: &HttpReply) -> (r: Option<Result<PlistDictionary, CoreError>>)
    ensures
        match r {
            Some(out) => (reply.succeeded() ==> reply.is_readable()) && reply_outcome(
                *reply,
                reply.content(),
                out,
            ),
            None => reply.succeeded() && (!reply.is_readable() || (reply.content() matches Some(d)
                && lookup(d, "Response"@) is None)),
        },
{
    if reply.status >= 200 && reply.status < 300 {
        if !dates_are_fit(reply.body.as_str().as_bytes()) {
            return None;
        }
        if let Ok(d) = read_dictionary(reply.body.as_str().as_bytes()) {
            if d.get("Response").is_none() {
                return None;
            }
        }
    }
    Some(parse_response(reply))
}

// ---------------------------------------------------------------------------
// Errors in a response
// ---------------------------------------------------------------------------

/// The part of a response that tells of errors: its status, or the response itself.
pub open spec fn status_part(d: Seq<(Seq<char>, PlistModel)>) -> Seq<(Seq<char>, PlistModel)> {
    match lookup(d, "Status"@) {
        Some(PlistModel::Dict(status)) => status,
        _ => d,
    }
}

/// The error code of a response.
pub open spec fn error_code(d: Seq<(Seq<char>, PlistModel)>) -> Option<int> {
    match lookup(status_part(d), "ec"@) {
        Some(PlistModel::Integer(n)) if i64::MIN <= n <= i64::MAX => Some(n),
        _ => None,
    }
}

/// The error message of a response.
pub open spec fn error_message(d: Seq<(Seq<char>, PlistModel)>) -> Option<Seq<char>> {
    match lookup(status_part(d), "em"@) {
        Some(PlistModel::Text(s)) => Some(s),
        _ => None,
    }
}

fn signed(value: &PlistValue) -> (r: Option<i64>)
    ensures
        match r {
            Some(n) => value@ == PlistModel::Integer(n as int),
            None => !(value@ matches PlistModel::Integer(n) && i64::MIN <= n <= i64::MAX),
        },
{
    match value {
        PlistValue::Signed(n) => Some(*n),
        PlistValue::Unsigned(n) => if *n <= i64::MAX as u64 {
            Some(*n as i64)
        } else {
            None
        },
        _ => None,
    }
}

/// The error that a response tells of: it must have a code, and with a code other than zero a
/// message.
pub fn check_error(res: &PlistDictionary) -> (r: Result<(), CoreError>)
    requires
        error_code(res@) is Some,
        error_code(res@) != Some(0int) ==> error_message(res@) is Some,
    ensures
        match r {
            Ok(_) => error_code(res@) == Some(0int),
            Err(CoreError::AuthSrpWithMessage(code, m)) => code != 0 && error_code(res@) == Some(
                code as int,
            ) && error_message(res@) == Some(m@),
            Err(_) => false,
        },
{
    let status: &PlistDictionary = match res.get("Status") {
        Some(PlistValue::Dict(d)) => d,
        _ => res,
    };
    let code: i64 = match status.get("ec") {
        Some(v) => match signed(v) {
            Some(n) => n,
            None => 0,
        },
        None => 0,
    };
    if code == 0 {
        return Ok(());
    }
    match status.get("em") {
        Some(PlistValue::Text(m)) => Err(CoreError::AuthSrpWithMessage(code, m.clone())),
        _ => Ok(()),
    }
}

/// A snippet stands on one line, and a short text of one line without double spaces is its own.
pub proof fn law_snippet_stands_on_one_line(body: Seq<char>)
    ensures
        on_one_line(snippet(body)),
        body.len() <= 200 && (forall|i: int|
            0 <= i < body.len() ==> !crate::text::white_space(#[trigger] body[i])) ==> snippet(body)
            == body,
{
    let n = body.len() as int;
    reveal_strlit("...");
    lemma_words(body, n);
    let line = words_joined(body, n).0;
    let cut = line.take(SNIPPET_LIMIT as int) + "..."@;
    if line.len() > SNIPPET_LIMIT {
        assert forall|i: int| 0 <= i < cut.len() implies !ends_line(#[trigger] cut[i]) by {
            if i < SNIPPET_LIMIT {
                assert(cut[i] == line[i]);
            } else {
                assert(cut[i] == "..."@[i - SNIPPET_LIMIT]);
            }
        }
    }
    if forall|i: int| 0 <= i < body.len() ==> !crate::text::white_space(#[trigger] body[i]) {
        lemma_one_word(body, n);
        assert(body.take(n) =~= body);
    }
}

proof fn lemma_words(s: Seq<char>, n: int)
    requires
        0 <= n <= s.len(),
    ensures
        on_one_line(words_joined(s, n).0),
    decreases n,
{
    if n > 0 {
        lemma_words(s, n - 1);
    }
}

proof fn lemma_one_word(s: Seq<char>, n: int)
    requires
        0 <= n <= s.len(),
        forall|i: int| 0 <= i < s.len() ==> !crate::text::white_space(#[trigger] s[i]),
    ensures
        words_joined(s, n).0 == s.take(n),
        n > 0 ==> !words_joined(s, n).1,
    decreases n,
{
    if n > 0 {
        lemma_one_word(s, n - 1);
        assert(!crate::text::white_space(s[n - 1]));
        assert(s.take(n) =~= s.take(n - 1).push(s[n - 1]));
    } else {
        assert(s.take(0) =~= seq![]);
    }
}

/// A reply that failed gives no response, and its error tells the status and the start of the body.
pub proof fn law_failed_reply_gives_no_response(
    reply: HttpReply,
    content: Option<Seq<(Seq<char>, PlistModel)>>,
    r: Result<PlistDictionary, CoreError>,
)
    requires
        reply_outcome(reply, content, r),
        reply.status < 200 || reply.status >= 300,
    ensures
        r matches Err(CoreError::AuthSrpWithMessage(code, m)) && code == reply.status
            && crate::text::has_text(m@, reply.url@) && crate::text::has_text(
            m@,
            reply.status_text@,
        ) && crate::text::has_text(m@, snippet(reply.body@)),
{
    let head = "Apple authentication request to "@;
    let mid = " returned HTTP "@;
    let tail = " (expected a GSA plist). Body: "@;
    let text = reply.failure_text();
    let rest = mid + reply.status_text@ + (tail + snippet(reply.body@));
    crate::text::law_joined_text_is_there(head, reply.url@, rest);
    assert(text =~= head + reply.url@ + rest);
    crate::text::law_joined_text_is_there(
        head + reply.url@ + mid,
        reply.status_text@,
        tail + snippet(reply.body@),
    );
    crate::text::law_joined_text_is_there(
        head + reply.url@ + mid + reply.status_text@ + tail,
        snippet(reply.body@),
        seq![],
    );
    assert(text =~= head + reply.url@ + mid + reply.status_text@ + tail + snippet(reply.body@)
        + seq![]);
}

/// The response of a successful reply is the dictionary that it holds under that name, and nothing
/// else is taken for one.
pub proof fn law_response_is_what_the_reply_holds(
    reply: HttpReply,
    content: Seq<(Seq<char>, PlistModel)>,
    r: Result<PlistDictionary, CoreError>,
)
    requires
        reply_outcome(reply, Some(content), r),
        200 <= reply.status < 300,
    ensures
        r matches Ok(out) ==> lookup(content, "Response"@) == Some(PlistModel::Dict(out@)),
        lookup(content, "Response"@) matches Some(PlistModel::Dict(d)) ==> (r matches Ok(out)
            && out@ == d),
{
}

/// The error of a response stands in its status, where it has one, and in the response itself
/// otherwise.
pub proof fn law_error_stands_in_the_status(
    d: Seq<(Seq<char>, PlistModel)>,
    status: Seq<(Seq<char>, PlistModel)>,
    code: i64,
    message: Seq<char>,
)
    ensures
        lookup(d, "Status"@) == Some(PlistModel::Dict(status)) && lookup(status, "ec"@) == Some(
            PlistModel::Integer(code as int),
        ) ==> error_code(d) == Some(code as int),
        lookup(d, "Status"@) is None && lookup(d, "ec"@) == Some(PlistModel::Integer(code as int))
            ==> error_code(d) == Some(code as int),
        lookup(d, "Status"@) == Some(PlistModel::Dict(status)) && lookup(status, "em"@) == Some(
            PlistModel::Text(message),
        ) ==> error_message(d) == Some(message),
        lookup(d, "Status"@) is None && lookup(d, "em"@) == Some(PlistModel::Text(message))
            ==> error_message(d) == Some(message),
{
}

} // verus!
