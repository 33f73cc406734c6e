//! How callers supply policies: either one string of concatenated policies, or
//! an object from policy id to policy text in which no id repeats.
//!
//! Decoding goes by the shape of the input alone, since the wire form carries
//! no tag: a bare string, then an object of strings, else a failure.
use vstd::prelude::*;

verus! {

/// The shape of a parsed JSON input, as far as decoding policies looks at it.
#[derive(Debug)]
pub enum RawPolicyInput {
    /// A bare JSON string.
    Text(String),
    /// A JSON object: each member's key, and its value where that is a string
    /// (`None` where it is anything else), in the order in which they appear.
    Object(Vec<(String, Option<String>)>),
    /// Any other JSON value.
    Other,
}

/// The two ways of passing a set of policies.
#[derive(Debug)]
pub enum PolicySpecification {
    /// Several policies concatenated in one string.
    Concatenated(String),
    /// Policies keyed by their id, in the order in which they were given; no
    /// id occurs twice.
    IdMap(Vec<(String, String)>),
}

/// Why an input does not decode to a `PolicySpecification`.
#[derive(Debug, PartialEq, Eq)]
pub enum DecodeError {
    /// The input is neither a string nor an object of strings.
    InvalidShape,
    /// The object gives this policy id more than once.
    DuplicateId(String),
}

/// The mathematical value of a `RawPolicyInput`.
pub enum RawInputView {
    Text(Seq<char>),
    Object(Seq<(Seq<char>, Option<Seq<char>>)>),
    Other,
}

/// The mathematical value of a `PolicySpecification`.
pub enum PolicySpecView {
    Concatenated(Seq<char>),
    IdMap(Seq<(Seq<char>, Seq<char>)>),
}

/// The mathematical value of a `DecodeError`.
pub enum DecodeErrorView {
    InvalidShape,
    DuplicateId(Seq<char>),
}

/// The view of one object member.
pub open spec fn member_view(m: (String, Option<String>)) -> (Seq<char>, Option<Seq<char>>) {
    (
        m.0@,
        match m.1 {
            Some(v) => Some(v@),
            None => None,
        },
    )
}

/// The view of one policy entry.
pub open spec fn entry_view(e: (String, String)) -> (Seq<char>, Seq<char>) {
    (e.0@, e.1@)
}

impl View for RawPolicyInput {
    type V = RawInputView;

    open spec fn view(&self) -> RawInputView {
        match self {
            RawPolicyInput::Text(s) => RawInputView::Text(s@),
            RawPolicyInput::Object(ms) => RawInputView::Object(
                ms@.map_values(|m: (String, Option<String>)| member_view(m)),
            ),
            RawPolicyInput::Other => RawInputView::Other,
        }
    }
}

impl View for PolicySpecification {
    type V = PolicySpecView;

    open spec fn view(&self) -> PolicySpecView {
        match self {
            PolicySpecification::Concatenated(s) => PolicySpecView::Concatenated(s@),
            PolicySpecification::IdMap(es) => PolicySpecView::IdMap(
                es@.map_values(|e: (String, String)| entry_view(e)),
            ),
        }
    }
}

impl View for DecodeError {
    type V = DecodeErrorView;

    open spec fn view(&self) -> DecodeErrorView {
        match self {
            DecodeError::InvalidShape => DecodeErrorView::InvalidShape,
            DecodeError::DuplicateId(id) => DecodeErrorView::DuplicateId(id@),
        }
    }
}

/// Every member's value is a string.
pub open spec fn all_strings(ms: Seq<(Seq<char>, Option<Seq<char>>)>) -> bool {
    forall|i: int| 0 <= i < ms.len() ==> (#[trigger] ms[i]).1 is Some
}

/// No key occurs twice.
pub open spec fn keys_unique<V>(ms: Seq<(Seq<char>, V)>) -> bool {
    forall|i: int, j: int| 0 <= i < j < ms.len() ==> (#[trigger] ms[i]).0 != (#[trigger] ms[j]).0
}

/// The key of member `i` already occurred before it.
pub open spec fn repeats_earlier_key(ms: Seq<(Seq<char>, Option<Seq<char>>)>, i: int) -> bool {
    exists|j: int| 0 <= j < i && (#[trigger] ms[j]).0 == ms[i].0
}

/// Member `i` makes decoding fail: its value is not a string, or its key
/// repeats an earlier one.
pub open spec fn is_fault(ms: Seq<(Seq<char>, Option<Seq<char>>)>, i: int) -> bool {
    ms[i].1 is None || repeats_earlier_key(ms, i)
}

/// The error that member `i` gives when it is the first fault.
pub open spec fn fault_error(ms: Seq<(Seq<char>, Option<Seq<char>>)>, i: int) -> DecodeErrorView {
    if ms[i].1 is None {
        DecodeErrorView::InvalidShape
    } else {
        DecodeErrorView::DuplicateId(ms[i].0)
    }
}

/// The entries of an object all of whose values are strings.
pub open spec fn string_entries(ms: Seq<(Seq<char>, Option<Seq<char>>)>) -> Seq<
    (Seq<char>, Seq<char>),
> {
    ms.map_values(|m: (Seq<char>, Option<Seq<char>>)| (m.0, m.1->Some_0))
}

/// What an input that is neither a string nor an object of strings is told.
pub open spec fn invalid_shape_message() -> Seq<char> {
    "policies as a concatenated string or multiple policies as a hashmap where the policy Id is the key with no duplicate IDs"@
}

/// What precedes the id in the message on a repeated policy id.
pub open spec fn duplicate_id_prefix() -> Seq<char> {
    "found duplicate policy id: "@
}

/// The message of each decoding error.
pub open spec fn error_message(e: DecodeErrorView) -> Seq<char> {
    match e {
        DecodeErrorView::InvalidShape => invalid_shape_message(),
        DecodeErrorView::DuplicateId(id) => duplicate_id_prefix() + id,
    }
}

impl DecodeError {
    /// A description of this error for the caller.
    pub fn message(&self) -> (r: String)
        ensures
            r@ == error_message(self@),
    {
        match self {
            DecodeError::InvalidShape => {
                proof {
                    reveal_strlit(
                        "policies as a concatenated string or multiple policies as a hashmap where the policy Id is the key with no duplicate IDs",
                    );
                }
                String::from_str(
                    "policies as a concatenated string or multiple policies as a hashmap where the policy Id is the key with no duplicate IDs",
                )
            },
            DecodeError::DuplicateId(id) => {
                let mut out = String::from_str("found duplicate policy id: ");
                out.append(id.as_str());
                proof {
                    reveal_strlit("found duplicate policy id: ");
                }
                out
            },
        }
    }
}

impl PolicySpecification {
    /// Decodes policies from the shape of a parsed input: a bare string gives
    /// `Concatenated`; an object gives `IdMap` with every member, in order,
    /// when all its values are strings and no key repeats; anything else
    /// fails. On an object the first member that is at fault, in order,
    /// decides the error: `InvalidShape` where its value is not a string,
    /// `DuplicateId` where its key occurred before.
    pub fn decode(input: RawPolicyInput) -> (r: Result<PolicySpecification, DecodeError>)
        ensures
            match input@ {
                RawInputView::Text(s) => r is Ok && r->Ok_0@ == PolicySpecView::Concatenated(s),
                RawInputView::Other => r is Err && r->Err_0@ == DecodeErrorView::InvalidShape,
                RawInputView::Object(ms) => {
                    &&& (r is Ok <==> all_strings(ms) && keys_unique(ms))
                    &&& (r is Ok ==> r->Ok_0@ == PolicySpecView::IdMap(string_entries(ms)))
                    &&& (r is Err ==> exists|i: int|
                        0 <= i < ms.len() && #[trigger] is_fault(ms, i) && (forall|j: int|
                            0 <= j < i ==> !is_fault(ms, j)) && r->Err_0@ == fault_error(ms, i))
                    &&& (all_strings(ms) && !keys_unique(ms) ==> r is Err && exists|
                        i: int,
                        j: int,
                    |
                        0 <= i < j < ms.len() && (#[trigger] ms[i]).0 == (#[trigger] ms[j]).0
                            && r->Err_0@ == DecodeErrorView::DuplicateId(ms[j].0))
                },
            },
    {
        match input {
            RawPolicyInput::Text(s) => Ok(PolicySpecification::Concatenated(s)),
            RawPolicyInput::Other => Err(DecodeError::InvalidShape),
            RawPolicyInput::Object(members) => {
                let r = decode_members(&members);
                proof {
                    let ms = members_view(members@);
                    assert(input@ == RawInputView::Object(ms));
                    if r is Ok {
                        lemma_no_fault(ms);
                    } else {
                        let i = choose|i: int|
                            0 <= i < ms.len() && #[trigger] is_fault(ms, i) && (forall|j: int|
                                0 <= j < i ==> !is_fault(ms, j)) && r->Err_0@ == fault_error(
                                ms,
                                i,
                            );
                        if all_strings(ms) {
                            lemma_first_fault_repeats(ms, i);
                        } else {
                            assert(!keys_unique(ms) || !all_strings(ms));
                        }
                    }
                }
                match r {
                    Ok(entries) => Ok(PolicySpecification::IdMap(entries)),
                    Err(e) => Err(e),
                }
            },
        }
    }
}

/// The view of a list of members.
pub open spec fn members_view(ms: Seq<(String, Option<String>)>) -> Seq<
    (Seq<char>, Option<Seq<char>>),
> {
    ms.map_values(|m: (String, Option<String>)| member_view(m))
}

/// The view of a list of entries.
pub open spec fn entries_view(es: Seq<(String, String)>) -> Seq<(Seq<char>, Seq<char>)> {
    es.map_values(|e: (String, String)| entry_view(e))
}

/// A list with no fault holds only strings and no repeated key.
proof fn lemma_no_fault(ms: Seq<(Seq<char>, Option<Seq<char>>)>)
    requires
        forall|i: int| 0 <= i < ms.len() ==> !#[trigger] is_fault(ms, i),
    ensures
        all_strings(ms),
        keys_unique(ms),
{
    assert forall|i: int| 0 <= i < ms.len() implies (#[trigger] ms[i]).1 is Some by {
        assert(!is_fault(ms, i));
    }
    assert forall|i: int, j: int| 0 <= i < j < ms.len() implies (#[trigger] ms[i]).0 != (
    #[trigger] ms[j]).0 by {
        assert(!is_fault(ms, j));
        if ms[i].0 == ms[j].0 {
            assert(repeats_earlier_key(ms, j));
        }
    }
}

/// The first fault of a list of strings with a repeated key is a repeat.
proof fn lemma_first_fault_repeats(ms: Seq<(Seq<char>, Option<Seq<char>>)>, i: int)
    requires
        all_strings(ms),
        0 <= i < ms.len(),
        is_fault(ms, i),
    ensures
        exists|k: int| 0 <= k < i && (#[trigger] ms[k]).0 == ms[i].0,
        fault_error(ms, i) == DecodeErrorView::DuplicateId(ms[i].0),
{
    assert(ms[i].1 is Some);
    assert(repeats_earlier_key(ms, i));
}

/// Whether the key of member `i` occurs among the members before it.
fn key_occurs_before(members: &Vec<(String, Option<String>)>, i: usize) -> (r: bool)
    requires
        i < members@.len(),
    ensures
        r == repeats_earlier_key(members_view(members@), i as int),
{
    let ghost ms = members_view(members@);
    let mut j: usize = 0;
    while j < i
        invariant
            ms == members_view(members@),
            i < members@.len(),
            j <= i,
            forall|k: int| 0 <= k < j ==> (#[trigger] ms[k]).0 != ms[i as int].0,
        decreases i - j,
    {
        assert(ms[j as int] == member_view(members@[j as int]));
        assert(ms[i as int] == member_view(members@[i as int]));
        if members[j].0 == members[i].0 {
            assert(ms[j as int].0 == ms[i as int].0);
            return true;
        }
        j = j + 1;
    }
    false
}

fn decode_members(members: &Vec<(String, Option<String>)>) -> (r: Result<
    Vec<(String, String)>,
    DecodeError,
>)
    ensures
        ({
            let ms = members_view(members@);
            &&& (r is Ok <==> forall|i: int| 0 <= i < ms.len() ==> !#[trigger] is_fault(ms, i))
            &&& (r is Ok ==> entries_view(r->Ok_0@) == string_entries(ms))
            &&& (r is Err ==> exists|i: int|
                0 <= i < ms.len() && #[trigger] is_fault(ms, i) && (forall|j: int|
                    0 <= j < i ==> !is_fault(ms, j)) && r->Err_0@ == fault_error(ms, i))
        }),
{
    let ghost ms = members_view(members@);
    let mut entries: Vec<(String, String)> = Vec::new();
    let mut i: usize = 0;
    while i < members.len()
        invariant
            ms == members_view(members@),
            i <= members@.len(),
            forall|k: int| 0 <= k < i ==> !#[trigger] is_fault(ms, k),
            entries_view(entries@) == string_entries(ms.take(i as int)),
        decreases members@.len() - i,
    {
        let key = &members[i].0;
        assert(ms[i as int] == member_view(members@[i as int]));
        match &members[i].1 {
            None => {
                assert(is_fault(ms, i as int));
                return Err(DecodeError::InvalidShape);
            },
            Some(value) => {
                if key_occurs_before(members, i) {
                    assert(is_fault(ms, i as int));
                    let id = key.clone();
                    assert(fault_error(ms, i as int) == DecodeErrorView::DuplicateId(id@));
                    return Err(DecodeError::DuplicateId(id));
                }
                let entry = (key.clone(), value.clone());
                assert(entry_view(entry) == (ms[i as int].0, ms[i as int].1->Some_0));
                let ghost before = entries@;
                entries.push(entry);
                proof {
                    let next = ms.take(i as int + 1);
                    assert(entries@ == before.push(entry));
                    assert(next.drop_last() =~= ms.take(i as int));
                    assert(entries_view(before).len() == before.len());
                    assert(string_entries(ms.take(i as int)).len() == i);
                    assert(entries_view(entries@).len() == next.len());
                    assert forall|k: int| 0 <= k < next.len() implies entries_view(entries@)[k]
                        == #[trigger] string_entries(next)[k] by {
                        if k < i {
                            assert(entries_view(before)[k] == string_entries(ms.take(i as int))[k]);
                            assert(entries@[k] == before[k]);
                        } else {
                            assert(entries@[k] == entry);
                            assert(next[k] == ms[i as int]);
                        }
                    }
                    assert(entries_view(entries@) =~= string_entries(next));
                }
            },
        }
        i = i + 1;
    }
    assert(ms.take(i as int) =~= ms);
    Ok(entries)
}

} // verus!
