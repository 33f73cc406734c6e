//! The uniform envelope in which every call across the JSON boundary answers.
use vstd::prelude::*;

use crate::json_text::{json_quoted, quote};
use vstd::string::to_string_from_display_ensures;

verus! {

/// Result of a call to a JSON interface.
#[derive(Debug)]
pub enum InterfaceResult {
    /// The call succeeded; `result` is the JSON text of what it returned.
    Success { result: String },
    /// The call failed.
    ///
    /// `is_internal` marks a fault in the engine, or in the part of the
    /// request that the calling binding builds (an unsupported operation, say).
    /// Otherwise the fault lies in what the end user supplied (a syntax error
    /// in a policy). `errors` describes each fault, in order.
    Failure { is_internal: bool, errors: Vec<String> },
}

/// The mathematical value of an `InterfaceResult`.
pub enum ResultView {
    Success { result: Seq<char> },
    Failure { is_internal: bool, errors: Seq<Seq<char>> },
}

/// The texts of a list of strings.
pub open spec fn texts(v: Seq<String>) -> Seq<Seq<char>> {
    v.map_values(|s: String| s@)
}

impl View for InterfaceResult {
    type V = ResultView;

    open spec fn view(&self) -> ResultView {
        match self {
            InterfaceResult::Success { result } => ResultView::Success { result: result@ },
            InterfaceResult::Failure { is_internal, errors } => ResultView::Failure {
                is_internal: *is_internal,
                errors: texts(errors@),
            },
        }
    }
}

/// What precedes the description of a serialization error.
pub open spec fn serialization_error_prefix() -> Seq<char> {
    "error serializing result: "@
}

/// The JSON array of string literals for `errors`, without its brackets.
pub open spec fn json_string_list(errors: Seq<Seq<char>>) -> Seq<char>
    decreases errors.len(),
{
    if errors.len() == 0 {
        Seq::empty()
    } else if errors.len() == 1 {
        json_quoted(errors[0])
    } else {
        json_string_list(errors.drop_last()) + ","@ + json_quoted(errors.last())
    }
}

/// The wire form of an envelope.
pub open spec fn envelope_json(r: ResultView) -> Seq<char> {
    match r {
        ResultView::Success { result } => "{\"success\":true,\"result\":"@ + json_quoted(result)
            + "}"@,
        ResultView::Failure { is_internal, errors } => "{\"success\":false,\"isInternal\":"@ + (
        if is_internal {
            "true"@
        } else {
            "false"@
        }) + ",\"errors\":["@ + json_string_list(errors) + "]}"@,
    }
}

impl InterfaceResult {
    /// The envelope for a computed value, given the outcome of serializing it:
    /// its JSON text on success, or else an internal failure whose single
    /// error names the serialization problem.
    pub fn from_serialized(serialized: Result<String, serde_json::Error>) -> (r: Self)
        ensures
            match serialized {
                Ok(text) => r@ == (ResultView::Success { result: text@ }),
                Err(e) => exists|d: String|
                    #![trigger to_string_from_display_ensures::<serde_json::Error>(&e, d)]
                    to_string_from_display_ensures::<serde_json::Error>(&e, d) && r@ == (
                    ResultView::Failure {
                        is_internal: true,
                        errors: seq![serialization_error_prefix() + d@],
                    }),
            },
    {
        match serialized {
            Ok(result) => InterfaceResult::Success { result },
            Err(e) => {
                let description = e.to_string();
                let mut message = String::from_str("error serializing result: ");
                message.append(description.as_str());
                proof {
                    reveal_strlit("error serializing result: ");
                }
                let r = InterfaceResult::fail_internally(message);
                assert(texts(seq![message]) =~= seq![message@]);
                r
            },
        }
    }

    /// An internal failure with the single error `message`.
    pub fn fail_internally(message: String) -> (r: Self)
        ensures
            r@ == (ResultView::Failure { is_internal: true, errors: seq![message@] }),
    {
        let errors = vec![message];
        assert(texts(errors@) =~= seq![message@]);
        InterfaceResult::Failure { is_internal: true, errors }
    }

    /// A failure caused by what the end user supplied, carrying `errors` in
    /// their order.
    pub fn fail_bad_request(errors: Vec<String>) -> (r: Self)
        ensures
            r@ == (ResultView::Failure { is_internal: false, errors: texts(errors@) }),
    {
        InterfaceResult::Failure { is_internal: false, errors }
    }

    /// The JSON text of this envelope: an object whose `success` field tells
    /// the two forms apart.
    pub fn to_json(&self) -> (r: String)
        ensures
            r@ == envelope_json(self@),
    {
        match self {
            InterfaceResult::Success { result } => {
                let mut out = String::from_str("{\"success\":true,\"result\":");
                let quoted = quote(result.as_str());
                out.append(quoted.as_str());
                out.append("}");
                proof {
                    reveal_strlit("{\"success\":true,\"result\":");
                    reveal_strlit("}");
                }
                out
            },
            InterfaceResult::Failure { is_internal, errors } => {
                let mut out = String::from_str("{\"success\":false,\"isInternal\":");
                if *is_internal {
                    out.append("true");
                } else {
                    out.append("false");
                }
                out.append(",\"errors\":[");
                let list = string_list(errors);
                out.append(list.as_str());
                out.append("]}");
                proof {
                    reveal_strlit("{\"success\":false,\"isInternal\":");
                    reveal_strlit("true");
                    reveal_strlit("false");
                    reveal_strlit(",\"errors\":[");
                    reveal_strlit("]}");
                }
                out
            },
        }
    }
}

/// The string literals of `errors`, separated by commas.
fn string_list(errors: &Vec<String>) -> (r: String)
    ensures
        r@ == json_string_list(texts(errors@)),
{
    let mut out = String::new();
    let mut i: usize = 0;
    while i < errors.len()
        invariant
            i <= errors@.len(),
            out@ == json_string_list(texts(errors@).take(i as int)),
        decreases errors@.len() - i,
    {
        let ghost done = texts(errors@).take(i as int);
        let ghost next = texts(errors@).take(i as int + 1);
        assert(next.drop_last() =~= done);
        if i > 0 {
            out.append(",");
            proof {
                reveal_strlit(",");
            }
        }
        let quoted = quote(errors[i].as_str());
        out.append(quoted.as_str());
        i = i + 1;
    }
    assert(texts(errors@).take(errors@.len() as int) =~= texts(errors@));
    out
}

} // verus!
