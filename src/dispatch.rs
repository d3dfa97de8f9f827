//! Building the fan-out task that is handed to the broker, and the path under
//! which its replies are polled.
use vstd::prelude::*;
use vstd::utf8::is_ascii_chars;
use crate::crypto::name_gives_nonce;
use crate::enums::{request_type_name, OpalRequestType};
use crate::models::OpalRequest;
use uuid::Uuid;

verus! {

/// Relies on `uuid::Uuid::new_v4` and its `Display`: a random identifier,
/// written in the 36-character hyphenated form of lower-case hex digits.
#[verifier::external_body]
pub(crate) fn fresh_uuid() -> (r: String)
    ensures
        r@.len() == 36,
        is_ascii_chars(r@),
{
    Uuid::new_v4().to_string()
}

/// A fresh random identifier, usable as a token name: its first 16 bytes give
/// the token's nonce.
pub fn new_token_name() -> (r: String)
    ensures
        r@.len() == 36,
        name_gives_nonce(r@),
{
    let r = fresh_uuid();
    proof {
        vstd::utf8::is_ascii_chars_encode_utf8(r@);
    }
    r
}

/// What the broker does with a recipient that does not answer in time.
#[derive(Clone, Copy, Debug, PartialEq, Eq, Structural)]
pub enum FailureStrategy {
    /// The recipient is left out of the results; nothing is retried.
    Discard,
}

/// A fan-out unit of work: one request sent to every recipient.
pub struct TaskEnvelope {
    pub id: String,
    pub from: String,
    pub to: Vec<String>,
    pub body: OpalRequest,
    pub ttl: String,
    pub failure_strategy: FailureStrategy,
}

/// Why a task could not be built.
#[derive(Clone, Copy, Debug, PartialEq, Eq, Structural)]
pub enum DispatchError {
    /// No recipient was given.
    NoRecipients,
    /// The request kind needs a token name that was not given.
    MissingName,
    /// The request kind needs a project that was not given.
    MissingProject,
    /// The request kind needs a token name or a project, and neither was given.
    MissingTarget,
}

/// The error, if any, for a request of kind `kind` with these fields.
/// Creating or refreshing tokens needs both a name and a project; table
/// discovery needs a project; deletion and status queries need one of the two.
pub open spec fn request_problem(
    kind: OpalRequestType,
    has_name: bool,
    has_project: bool,
) -> Option<DispatchError> {
    match kind {
        OpalRequestType::CREATE | OpalRequestType::UPDATE => if !has_name {
            Some(DispatchError::MissingName)
        } else if !has_project {
            Some(DispatchError::MissingProject)
        } else {
            None
        },
        OpalRequestType::SCRIPT => if !has_project {
            Some(DispatchError::MissingProject)
        } else {
            None
        },
        OpalRequestType::DELETE | OpalRequestType::STATUS => if !has_name && !has_project {
            Some(DispatchError::MissingTarget)
        } else {
            None
        },
    }
}

/// The texts of `v`, in order.
pub open spec fn texts(v: Seq<String>) -> Seq<Seq<char>> {
    v.map_values(|s: String| s@)
}

/// `v` with every repeated element after its first occurrence removed.
pub open spec fn distinct_in_order(v: Seq<Seq<char>>) -> Seq<Seq<char>>
    decreases v.len(),
{
    if v.len() == 0 {
        Seq::empty()
    } else {
        let prev = distinct_in_order(v.drop_last());
        if prev.contains(v.last()) {
            prev
        } else {
            prev.push(v.last())
        }
    }
}

/// The decimal digits of `n`.
pub open spec fn decimal(n: nat) -> Seq<char>
    decreases n,
{
    if n < 10 {
        seq![digit_char(n)]
    } else {
        decimal(n / 10) + seq![digit_char(n % 10)]
    }
}

pub open spec fn digit_char(d: nat) -> char {
    if d < 10 {
        (('0' as u8) + (d as u8)) as char
    } else {
        '0'
    }
}

/// The path under which the replies to task `id` are polled, asking for
/// `count` replies.
pub open spec fn results_path_text(id: Seq<char>, count: nat) -> Seq<char> {
    "/v1/tasks/"@ + id + "/results?wait_count="@ + decimal(count)
}

/// The recipients given, or none.
pub open spec fn ids_of(bridgeheads: Option<Vec<String>>) -> Seq<String> {
    match bridgeheads {
        Some(v) => v@,
        None => Seq::empty(),
    }
}

/// `t` is the task for a request of kind `kind` from `from` with these fields,
/// addressed to the distinct identities among `ids`.
pub open spec fn built_task(
    t: TaskEnvelope,
    from: String,
    kind: OpalRequestType,
    name: Option<String>,
    project: Option<String>,
    ids: Seq<String>,
    token: Option<String>,
) -> bool {
    &&& t.wf()
    &&& t.from == from
    &&& texts(t.to@) == distinct_in_order(texts(ids))
    &&& t.body.request_type@ == request_type_name(kind)
    &&& t.body.name == name
    &&& t.body.project == project
    &&& t.body.token == token
    &&& t.ttl@ == "60s"@
    &&& t.failure_strategy == FailureStrategy::Discard
}

/// Building a task fails for want of recipients first, then for a field the
/// kind needs; otherwise it succeeds with the task described.
pub open spec fn dispatch_outcome(
    r: Result<TaskEnvelope, DispatchError>,
    from: String,
    kind: OpalRequestType,
    name: Option<String>,
    project: Option<String>,
    ids: Seq<String>,
    token: Option<String>,
) -> bool {
    match r {
        Err(e) => if ids.len() == 0 {
            e == DispatchError::NoRecipients
        } else {
            request_problem(kind, name is Some, project is Some) == Some(e)
        },
        Ok(t) => {
            &&& ids.len() > 0
            &&& request_problem(kind, name is Some, project is Some) is None
            &&& built_task(t, from, kind, name, project, ids, token)
        },
    }
}

impl TaskEnvelope {
    /// Recipients form a non-empty ordered set.
    pub open spec fn wf(&self) -> bool {
        &&& self.to.len() > 0
        &&& texts(self.to@).no_duplicates()
    }
}

fn contains_text(v: &Vec<String>, s: &String) -> (r: bool)
    ensures
        r == texts(v@).contains(s@),
{
    let mut i: usize = 0;
    while i < v.len()
        invariant
            0 <= i <= v.len(),
            forall|j: int| 0 <= j < i ==> v[j]@ != s@,
        decreases v.len() - i,
    {
        if v[i] == *s {
            assert(texts(v@)[i as int] == s@);
            return true;
        }
        i = i + 1;
    }
    assert forall|j: int| 0 <= j < texts(v@).len() implies texts(v@)[j] != s@ by {}
    false
}

/// The recipients in order, each once.
pub fn distinct_recipients(ids: &Vec<String>) -> (r: Vec<String>)
    ensures
        texts(r@) == distinct_in_order(texts(ids@)),
        texts(r@).no_duplicates(),
{
    let mut out: Vec<String> = Vec::new();
    let mut i: usize = 0;
    while i < ids.len()
        invariant
            0 <= i <= ids.len(),
            texts(out@) == distinct_in_order(texts(ids@).take(i as int)),
            texts(out@).no_duplicates(),
        decreases ids.len() - i,
    {
        let ghost before = out@;
        assert(texts(ids@).take(i + 1).drop_last() =~= texts(ids@).take(i as int));
        assert(texts(ids@).take(i + 1).last() == ids[i as int]@);
        if !contains_text(&out, &ids[i]) {
            out.push(ids[i].clone());
            assert(texts(out@) =~= texts(before).push(ids[i as int]@));
        }
        i = i + 1;
    }
    assert(texts(ids@).take(i as int) =~= texts(ids@));
    out
}

fn digit_str(d: usize) -> (r: &'static str)
    requires
        d < 10,
    ensures
        r@ == seq![digit_char(d as nat)],
{
    proof {
        reveal_strlit("0");
        reveal_strlit("1");
        reveal_strlit("2");
        reveal_strlit("3");
        reveal_strlit("4");
        reveal_strlit("5");
        reveal_strlit("6");
        reveal_strlit("7");
        reveal_strlit("8");
        reveal_strlit("9");
    }
    let r = match d {
        0 => "0",
        1 => "1",
        2 => "2",
        3 => "3",
        4 => "4",
        5 => "5",
        6 => "6",
        7 => "7",
        8 => "8",
        _ => "9",
    };
    assert(r@ =~= seq![digit_char(d as nat)]);
    r
}

/// Appends the decimal digits of `n`.
fn push_decimal(s: &mut String, n: usize)
    ensures
        final(s)@ == old(s)@ + decimal(n as nat),
    decreases n,
{
    if n >= 10 {
        push_decimal(s, n / 10);
    }
    s.append(digit_str(n % 10));
    assert(final(s)@ =~= old(s)@ + decimal(n as nat));
}

/// Builds the task for a request of kind `request_type` from `from` to the
/// given recipients, under the identifier `id`. Repeated recipients are kept
/// once, in the order of their first occurrence. The task lives 60 seconds at
/// the broker, and a recipient that does not answer is left out.
pub fn task_envelope(
    id: String,
    from: String,
    request_type: OpalRequestType,
    name: Option<String>,
    project: Option<String>,
    bridgeheads: Option<Vec<String>>,
    token: Option<String>,
) -> (r: Result<TaskEnvelope, DispatchError>)
    ensures
        dispatch_outcome(r, from, request_type, name, project, ids_of(bridgeheads), token),
        r matches Ok(t) ==> t.id == id,
{
    let ids = match bridgeheads {
        Some(v) => v,
        None => Vec::new(),
    };
    if ids.len() == 0 {
        return Err(DispatchError::NoRecipients);
    }
    let has_name = name.is_some();
    let has_project = project.is_some();
    let problem = match request_type {
        OpalRequestType::CREATE | OpalRequestType::UPDATE => if !has_name {
            Some(DispatchError::MissingName)
        } else if !has_project {
            Some(DispatchError::MissingProject)
        } else {
            None
        },
        OpalRequestType::SCRIPT => if !has_project {
            Some(DispatchError::MissingProject)
        } else {
            None
        },
        OpalRequestType::DELETE | OpalRequestType::STATUS => if !has_name && !has_project {
            Some(DispatchError::MissingTarget)
        } else {
            None
        },
    };
    if let Some(e) = problem {
        return Err(e);
    }
    let to = distinct_recipients(&ids);
    assert(texts(ids@).len() > 0);
    assert(distinct_in_order(texts(ids@)).len() > 0) by {
        lemma_distinct_nonempty(texts(ids@));
    }
    let body = OpalRequest { request_type: request_type.as_str().to_owned(), name, project, token };
    Ok(TaskEnvelope {
        id,
        from,
        to,
        body,
        ttl: "60s".to_owned(),
        failure_strategy: FailureStrategy::Discard,
    })
}

proof fn lemma_distinct_nonempty(v: Seq<Seq<char>>)
    requires
        v.len() > 0,
    ensures
        distinct_in_order(v).len() > 0,
    decreases v.len(),
{
    if v.drop_last().len() > 0 {
        lemma_distinct_nonempty(v.drop_last());
    }
}

/// Builds a task as `task_envelope` does, under a fresh random identifier.
pub fn create_task_request(
    from: String,
    request_type: OpalRequestType,
    name: Option<String>,
    project: Option<String>,
    bridgeheads: Option<Vec<String>>,
    token: Option<String>,
) -> (r: Result<TaskEnvelope, DispatchError>)
    ensures
        dispatch_outcome(r, from, request_type, name, project, ids_of(bridgeheads), token),
        r matches Ok(t) ==> t.id@.len() == 36,
{
    let id = fresh_uuid();
    task_envelope(id, from, request_type, name, project, bridgeheads, token)
}

/// The number of replies to wait for: one per recipient.
pub fn wait_count(task: &TaskEnvelope) -> (r: usize)
    ensures
        r == task.to@.len(),
{
    task.to.len()
}

/// The path under which the task's replies are polled; it asks for one reply
/// per recipient.
pub fn results_path(task: &TaskEnvelope) -> (r: String)
    ensures
        r@ == results_path_text(task.id@, task.to@.len()),
{
    let mut s = String::from_str("/v1/tasks/");
    s.append(task.id.as_str());
    s.append("/results?wait_count=");
    push_decimal(&mut s, wait_count(task));
    s
}

/// For a task whose recipients are K distinct identities, the poll asks for
/// exactly K replies.
pub proof fn lemma_wait_count_is_recipient_count(task: TaskEnvelope)
    requires
        task.wf(),
    ensures
        results_path_text(task.id@, task.to@.len()) == results_path_text(
            task.id@,
            texts(task.to@).to_set().len(),
        ),
{
    texts(task.to@).unique_seq_to_set();
}

} // verus!
