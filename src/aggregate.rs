//! Folding the per-site replies of one task into the operation's outcome.
//!
//! Three policies are offered: first-success (a scalar answer), set-union
//! (table names per site) and collect-all (one persisted record per site).
//! Each is a small state machine fed one frame at a time, so that a caller
//! reading a live stream can hand over each frame as it arrives; each also
//! has a whole-sequence form.
use vstd::prelude::*;
use crate::crypto::{name_gives_nonce, seal_token, sealed_token};
use crate::enums::{
    project_status_name, token_status_name, OpalProjectStatus, OpalResponse, OpalTokenStatus,
};
use crate::models::NewToken;

verus! {

/// One decoded reply: the responding site and what it answered.
pub struct SiteReply<T> {
    pub from: String,
    pub body: OpalResponse<T>,
}

/// One element of a reply stream: a decoded reply, or a frame whose payload
/// could not be decoded (kept with a diagnostic, then skipped).
pub enum Frame<T> {
    Reply(SiteReply<T>),
    Malformed(String),
}

/// Why a first-success poll produced no answer: the stream closed before any
/// reply could be decoded. The diagnostic of the last undecodable frame, if
/// there was one, is kept.
pub enum PollError {
    NoRepliesReceived { last_malformed: Option<String> },
}

pub open spec fn is_success<T>(f: Frame<T>) -> bool {
    match f {
        Frame::Reply(r) => r.body is Success,
        Frame::Malformed(_) => false,
    }
}

pub open spec fn is_failure<T>(f: Frame<T>) -> bool {
    match f {
        Frame::Reply(r) => r.body is Failure,
        Frame::Malformed(_) => false,
    }
}

pub open spec fn is_reply<T>(f: Frame<T>) -> bool {
    f is Reply
}

/// The body of a decoded reply (meaningful only for a reply).
pub open spec fn body_of<T>(f: Frame<T>) -> OpalResponse<T> {
    match f {
        Frame::Reply(r) => r.body,
        Frame::Malformed(_) => arbitrary(),
    }
}

/// A success reply from the site named `site`.
pub open spec fn success_from<T>(f: Frame<T>, site: Seq<char>) -> bool {
    match f {
        Frame::Reply(r) => r.from@ == site && r.body is Success,
        Frame::Malformed(_) => false,
    }
}

/// The body of the earliest success reply.
pub open spec fn first_success_reply<T>(frames: Seq<Frame<T>>) -> Option<OpalResponse<T>>
    decreases frames.len(),
{
    if frames.len() == 0 {
        None
    } else {
        match first_success_reply(frames.drop_last()) {
            Some(b) => Some(b),
            None => if is_success(frames.last()) {
                Some(body_of(frames.last()))
            } else {
                None
            },
        }
    }
}

/// The body of the latest failure reply.
pub open spec fn last_failure_reply<T>(frames: Seq<Frame<T>>) -> Option<OpalResponse<T>>
    decreases frames.len(),
{
    if frames.len() == 0 {
        None
    } else if is_failure(frames.last()) {
        Some(body_of(frames.last()))
    } else {
        last_failure_reply(frames.drop_last())
    }
}

/// The diagnostic of the latest undecodable frame.
pub open spec fn last_malformed<T>(frames: Seq<Frame<T>>) -> Option<String>
    decreases frames.len(),
{
    if frames.len() == 0 {
        None
    } else {
        match frames.last() {
            Frame::Malformed(m) => Some(m),
            Frame::Reply(_) => last_malformed(frames.drop_last()),
        }
    }
}

/// First-success: the earliest success; failing that, the latest failure;
/// failing that, no reply at all.
pub open spec fn first_success_outcome<T>(frames: Seq<Frame<T>>) -> Result<OpalResponse<T>, PollError> {
    match first_success_reply(frames) {
        Some(b) => Ok(b),
        None => match last_failure_reply(frames) {
            Some(b) => Ok(b),
            None => Err(PollError::NoRepliesReceived { last_malformed: last_malformed(frames) }),
        },
    }
}

pub fn clone_text_response(r: &OpalResponse<String>) -> (c: OpalResponse<String>)
    ensures
        c == *r,
{
    match r {
        OpalResponse::Failure { status_code, error_message } => OpalResponse::Failure {
            status_code: *status_code,
            error_message: error_message.clone(),
        },
        OpalResponse::Success { response } => OpalResponse::Success { response: response.clone() },
    }
}

/// First-success policy, fed one frame at a time.
pub struct FirstSuccess {
    last_failure: Option<OpalResponse<String>>,
    last_malformed: Option<String>,
    seen: Ghost<Seq<Frame<String>>>,
}

impl FirstSuccess {
    /// The frames handed over so far.
    pub closed spec fn seen(&self) -> Seq<Frame<String>> {
        self.seen@
    }

    pub closed spec fn wf(&self) -> bool {
        &&& self.last_failure == last_failure_reply(self.seen@)
        &&& self.last_malformed == last_malformed(self.seen@)
    }

    /// No success has been seen yet, so more frames are wanted.
    pub open spec fn is_open(&self) -> bool {
        first_success_reply(self.seen()) is None
    }

    pub fn new() -> (s: Self)
        ensures
            s.wf(),
            s.seen() == Seq::<Frame<String>>::empty(),
    {
        FirstSuccess { last_failure: None, last_malformed: None, seen: Ghost(Seq::empty()) }
    }

    /// Takes the next frame. Returns the answer as soon as it is a success,
    /// after which the rest of the stream need not be read.
    pub fn step(&mut self, frame: &Frame<String>) -> (r: Option<OpalResponse<String>>)
        requires
            old(self).wf(),
            old(self).is_open(),
        ensures
            final(self).wf(),
            final(self).seen() == old(self).seen().push(*frame),
            r == first_success_reply(final(self).seen()),
    {
        let ghost prev = self.seen@;
        self.seen = Ghost(prev.push(*frame));
        assert(self.seen@.drop_last() =~= prev);
        match frame {
            Frame::Reply(reply) => match &reply.body {
                OpalResponse::Success { .. } => Some(clone_text_response(&reply.body)),
                OpalResponse::Failure { .. } => {
                    self.last_failure = Some(clone_text_response(&reply.body));
                    None
                },
            },
            Frame::Malformed(m) => {
                self.last_malformed = Some(m.clone());
                None
            },
        }
    }

    /// The answer once the stream has closed without a success.
    pub fn finish(self) -> (r: Result<OpalResponse<String>, PollError>)
        requires
            self.wf(),
            self.is_open(),
        ensures
            r == first_success_outcome(self.seen()),
    {
        match self.last_failure {
            Some(b) => Ok(b),
            None => Err(PollError::NoRepliesReceived { last_malformed: self.last_malformed }),
        }
    }
}

/// Once a prefix holds a success, longer sequences answer with the same one.
proof fn lemma_first_success_stable<T>(frames: Seq<Frame<T>>, n: int)
    requires
        0 <= n <= frames.len(),
        first_success_reply(frames.take(n)) is Some,
    ensures
        first_success_reply(frames) == first_success_reply(frames.take(n)),
    decreases frames.len(),
{
    if n == frames.len() {
        assert(frames.take(n) =~= frames);
    } else {
        assert(frames.drop_last().take(n) =~= frames.take(n));
        lemma_first_success_stable(frames.drop_last(), n);
    }
}

proof fn lemma_no_success<T>(frames: Seq<Frame<T>>)
    ensures
        first_success_reply(frames) is None <==> forall|j: int|
            0 <= j < frames.len() ==> !is_success(#[trigger] frames[j]),
    decreases frames.len(),
{
    if frames.len() > 0 {
        lemma_no_success(frames.drop_last());
        if first_success_reply(frames) is None {
            assert forall|j: int| 0 <= j < frames.len() implies !is_success(#[trigger] frames[j]) by {
                if j < frames.len() - 1 {
                    assert(frames.drop_last()[j] == frames[j]);
                }
            }
        } else if forall|j: int| 0 <= j < frames.len() ==> !is_success(#[trigger] frames[j]) {
            assert forall|j: int|
                0 <= j < frames.drop_last().len() implies !is_success(
                #[trigger] frames.drop_last()[j],
            ) by {
                assert(frames.drop_last()[j] == frames[j]);
            }
            assert(!is_success(frames[frames.len() - 1]));
        }
    }
}

proof fn lemma_latest_failure<T>(frames: Seq<Frame<T>>, i: int)
    requires
        0 <= i < frames.len(),
        is_failure(frames[i]),
        forall|j: int| i < j < frames.len() ==> !is_failure(#[trigger] frames[j]),
    ensures
        last_failure_reply(frames) == Some(body_of(frames[i])),
    decreases frames.len(),
{
    if i < frames.len() - 1 {
        assert(!is_failure(frames[frames.len() - 1]));
        assert forall|j: int| i < j < frames.drop_last().len() implies !is_failure(
            #[trigger] frames.drop_last()[j],
        ) by {
            assert(frames.drop_last()[j] == frames[j]);
        }
        assert(frames.drop_last()[i] == frames[i]);
        lemma_latest_failure(frames.drop_last(), i);
    }
}

/// First-success answers with the earliest success reply, whatever failures
/// come after it.
pub proof fn lemma_earliest_success_wins<T>(frames: Seq<Frame<T>>, i: int)
    requires
        0 <= i < frames.len(),
        is_success(frames[i]),
        forall|j: int| 0 <= j < i ==> !is_success(#[trigger] frames[j]),
    ensures
        first_success_outcome(frames) == Ok::<OpalResponse<T>, PollError>(body_of(frames[i])),
{
    let pre = frames.take(i);
    assert forall|j: int| 0 <= j < pre.len() implies !is_success(#[trigger] pre[j]) by {
        assert(pre[j] == frames[j]);
    }
    lemma_no_success(pre);
    assert(frames.take(i + 1).drop_last() =~= pre);
    assert(frames.take(i + 1).last() == frames[i]);
    lemma_first_success_stable(frames, i + 1);
}

/// A failure is the answer exactly when no success arrived, and then it is the
/// latest failure received.
pub proof fn lemma_latest_failure_without_success<T>(frames: Seq<Frame<T>>, i: int)
    requires
        0 <= i < frames.len(),
        forall|j: int| 0 <= j < frames.len() ==> !is_success(#[trigger] frames[j]),
        is_failure(frames[i]),
        forall|j: int| i < j < frames.len() ==> !is_failure(#[trigger] frames[j]),
    ensures
        first_success_outcome(frames) == Ok::<OpalResponse<T>, PollError>(body_of(frames[i])),
{
    lemma_no_success(frames);
    lemma_latest_failure(frames, i);
}

/// An answer that is a failure means that no success arrived at all.
pub proof fn lemma_failure_answer_means_no_success<T>(frames: Seq<Frame<T>>)
    requires
        first_success_outcome(frames) is Ok,
        first_success_outcome(frames)->Ok_0 is Failure,
    ensures
        forall|j: int| 0 <= j < frames.len() ==> !is_success(#[trigger] frames[j]),
{
    lemma_no_success(frames);
    if first_success_reply(frames) is Some {
        lemma_success_body(frames);
    }
}

proof fn lemma_success_body<T>(frames: Seq<Frame<T>>)
    ensures
        first_success_reply(frames) matches Some(b) ==> b is Success,
    decreases frames.len(),
{
    if frames.len() > 0 {
        lemma_success_body(frames.drop_last());
    }
}

/// First-success over a whole, already received sequence of frames.
pub fn first_success(frames: &Vec<Frame<String>>) -> (r: Result<OpalResponse<String>, PollError>)
    ensures
        r == first_success_outcome(frames@),
{
    let mut st = FirstSuccess::new();
    let mut i: usize = 0;
    while i < frames.len()
        invariant
            0 <= i <= frames@.len(),
            st.wf(),
            st.is_open(),
            st.seen() == frames@.take(i as int),
        decreases frames@.len() - i,
    {
        let found = st.step(&frames[i]);
        assert(frames@.take(i as int).push(frames@[i as int]) =~= frames@.take(i + 1));
        match found {
            Some(b) => {
                proof {
                    lemma_first_success_stable(frames@, i + 1);
                }
                return Ok(b);
            },
            None => {},
        }
        i = i + 1;
    }
    assert(frames@.take(i as int) =~= frames@);
    st.finish()
}

} // verus!

verus! {

/// The table `t` appears in the success payload of frame `f`.
pub open spec fn lists_table(f: Frame<Vec<String>>, t: Seq<char>) -> bool {
    match f {
        Frame::Reply(r) => match r.body {
            OpalResponse::Success { response } => exists|j: int|
                0 <= j < response.len() && (#[trigger] response[j])@ == t,
            OpalResponse::Failure { .. } => false,
        },
        Frame::Malformed(_) => false,
    }
}

/// Some frame is a success reply from `site`.
pub open spec fn replied_ok<T>(frames: Seq<Frame<T>>, site: Seq<char>) -> bool {
    exists|i: int| 0 <= i < frames.len() && success_from(#[trigger] frames[i], site)
}

/// Some success reply from `site` lists the table `t`.
pub open spec fn reported_table(frames: Seq<Frame<Vec<String>>>, site: Seq<char>, t: Seq<char>) -> bool {
    exists|i: int|
        0 <= i < frames.len() && success_from(#[trigger] frames[i], site) && lists_table(frames[i], t)
}

/// Set-union: each site that answered with success, mapped to the set of all
/// table names it listed. Failures and undecodable frames contribute nothing.
pub open spec fn tables_by_site(frames: Seq<Frame<Vec<String>>>) -> Map<Seq<char>, Set<Seq<char>>> {
    Map::new(
        |site: Seq<char>| replied_ok(frames, site),
        |site: Seq<char>| Set::new(|t: Seq<char>| reported_table(frames, site, t)),
    )
}

/// The text `t` is one of the strings in `v`.
pub open spec fn text_in(v: Seq<String>, t: Seq<char>) -> bool {
    exists|j: int| 0 <= j < v.len() && (#[trigger] v[j])@ == t
}

pub(crate) proof fn lemma_text_in_push(v: Seq<String>, x: String, t: Seq<char>)
    ensures
        text_in(v.push(x), t) <==> text_in(v, t) || x@ == t,
{
    if text_in(v.push(x), t) {
        let j = choose|j: int| 0 <= j < v.push(x).len() && (#[trigger] v.push(x)[j])@ == t;
        if j < v.len() {
            assert(v[j] == v.push(x)[j]);
        }
    }
    if text_in(v, t) {
        let j = choose|j: int| 0 <= j < v.len() && (#[trigger] v[j])@ == t;
        assert(v.push(x)[j] == v[j]);
    }
    if x@ == t {
        assert(v.push(x)[v.len() as int] == x);
    }
}

/// Table names per site, as gathered by the set-union policy.
pub struct SiteTables {
    sites: Vec<String>,
    pairs: Vec<(String, String)>,
}

impl SiteTables {
    pub closed spec fn has_site(&self, site: Seq<char>) -> bool {
        exists|i: int| 0 <= i < self.sites.len() && (#[trigger] self.sites[i])@ == site
    }

    pub closed spec fn has_table(&self, site: Seq<char>, t: Seq<char>) -> bool {
        exists|i: int|
            0 <= i < self.pairs.len() && (#[trigger] self.pairs[i]).0@ == site && self.pairs[i].1@ == t
    }

    closed spec fn has_table_before(&self, site: Seq<char>, n: int, t: Seq<char>) -> bool {
        exists|p: int| 0 <= p < n && (#[trigger] self.pairs[p]).0@ == site && self.pairs[p].1@ == t
    }

    pub closed spec fn wf(&self) -> bool {
        &&& forall|i: int, j: int|
            0 <= i < j < self.sites.len() ==> (#[trigger] self.sites[i])@ != (#[trigger] self.sites[j])@
        &&& forall|i: int, j: int|
            0 <= i < j < self.pairs.len() ==> (#[trigger] self.pairs[i]).0@ != (#[trigger] self.pairs[j]).0@
                || self.pairs[i].1@ != self.pairs[j].1@
        &&& forall|s: Seq<char>, t: Seq<char>| #[trigger] self.has_table(s, t) ==> self.has_site(s)
    }

    pub fn new() -> (r: Self)
        ensures
            r.wf(),
            r@ == Map::<Seq<char>, Set<Seq<char>>>::empty(),
            forall|s: Seq<char>| !(#[trigger] r.has_site(s)),
            forall|s: Seq<char>, t: Seq<char>| !(#[trigger] r.has_table(s, t)),
    {
        let r = SiteTables { sites: Vec::new(), pairs: Vec::new() };
        assert(r@ =~= Map::<Seq<char>, Set<Seq<char>>>::empty());
        r
    }

    fn find_site(&self, site: &String) -> (r: bool)
        ensures
            r == self.has_site(site@),
    {
        let mut i: usize = 0;
        while i < self.sites.len()
            invariant
                0 <= i <= self.sites.len(),
                forall|j: int| 0 <= j < i ==> (#[trigger] self.sites[j])@ != site@,
            decreases self.sites.len() - i,
        {
            if self.sites[i] == *site {
                return true;
            }
            i = i + 1;
        }
        false
    }

    fn find_pair(&self, site: &String, t: &String) -> (r: bool)
        ensures
            r == self.has_table(site@, t@),
    {
        let mut i: usize = 0;
        while i < self.pairs.len()
            invariant
                0 <= i <= self.pairs.len(),
                forall|j: int|
                    0 <= j < i ==> (#[trigger] self.pairs[j]).0@ != site@ || self.pairs[j].1@ != t@,
            decreases self.pairs.len() - i,
        {
            if self.pairs[i].0 == *site && self.pairs[i].1 == *t {
                return true;
            }
            i = i + 1;
        }
        false
    }

    /// Folds one frame in: a success reply adds its site and every table it
    /// lists; anything else leaves the mapping as it was.
    pub fn absorb(&mut self, frame: &Frame<Vec<String>>)
        requires
            old(self).wf(),
        ensures
            final(self).wf(),
            forall|s: Seq<char>|
                #[trigger] final(self).has_site(s) <==> old(self).has_site(s) || success_from(*frame, s),
            forall|s: Seq<char>, t: Seq<char>|
                #[trigger] final(self).has_table(s, t) <==> old(self).has_table(s, t) || (
                success_from(*frame, s) && lists_table(*frame, t)),
    {
        if let Frame::Reply(reply) = frame {
            if let OpalResponse::Success { response } = &reply.body {
                let ghost s0 = *old(self);
                self.add_site(&reply.from);
                let mut k: usize = 0;
                while k < response.len()
                    invariant
                        0 <= k <= response.len(),
                        self.wf(),
                        self.has_site(reply.from@),
                        forall|s: Seq<char>|
                            #[trigger] self.has_site(s) <==> s0.has_site(s) || s == reply.from@,
                        forall|s: Seq<char>, t: Seq<char>|
                            #[trigger] self.has_table(s, t) <==> s0.has_table(s, t) || (s
                                == reply.from@ && text_in(response@.take(k as int), t)),
                    decreases response.len() - k,
                {
                    let ghost before = *self;
                    self.add_pair(&reply.from, &response[k]);
                    assert forall|t: Seq<char>|
                        #[trigger] text_in(response@.take(k + 1), t) <==> text_in(response@.take(k as int), t)
                            || t == response[k as int]@ by {
                        lemma_text_in_push(response@.take(k as int), response[k as int], t);
                        assert(response@.take(k as int).push(response[k as int]) =~= response@.take(k + 1));
                    }
                    k = k + 1;
                }
                assert(response@.take(k as int) =~= response@);
            }
        }
    }

    fn add_site(&mut self, site: &String)
        requires
            old(self).wf(),
        ensures
            final(self).wf(),
            final(self).has_site(site@),
            final(self).pairs == old(self).pairs,
            forall|s: Seq<char>| #[trigger] final(self).has_site(s) <==> old(self).has_site(s) || s == site@,
            forall|s: Seq<char>, t: Seq<char>| #[trigger] final(self).has_table(s, t) <==> old(self).has_table(s, t),
    {
        let ghost s0 = *old(self);
        if !self.find_site(site) {
            self.sites.push(site.clone());
            let n = self.sites.len() - 1;
            assert(self.sites[n as int]@ == site@);
            assert forall|s: Seq<char>| #[trigger] self.has_site(s) <==> s0.has_site(s) || s == site@ by {
                if s0.has_site(s) {
                    let i = choose|i: int| 0 <= i < s0.sites.len() && (#[trigger] s0.sites[i])@ == s;
                    assert(self.sites[i] == s0.sites[i]);
                }
                if self.has_site(s) {
                    let i = choose|i: int| 0 <= i < self.sites.len() && (#[trigger] self.sites[i])@ == s;
                    if i < n {
                        assert(self.sites[i] == s0.sites[i]);
                    }
                }
            }
            assert forall|i: int, j: int|
                0 <= i < j < self.sites.len() implies (#[trigger] self.sites[i])@ != (#[trigger] self.sites[j])@ by {
                if j == n {
                    assert(self.sites[i] == s0.sites[i]);
                } else {
                    assert(self.sites[i] == s0.sites[i]);
                    assert(self.sites[j] == s0.sites[j]);
                }
            }
            assert forall|s: Seq<char>, t: Seq<char>| #[trigger] self.has_table(s, t) <==> s0.has_table(s, t) by {
                if self.has_table(s, t) {
                    let i = choose|i: int|
                        0 <= i < self.pairs.len() && (#[trigger] self.pairs[i]).0@ == s && self.pairs[i].1@ == t;
                    assert(s0.pairs[i] == self.pairs[i]);
                }
                if s0.has_table(s, t) {
                    let i = choose|i: int|
                        0 <= i < s0.pairs.len() && (#[trigger] s0.pairs[i]).0@ == s && s0.pairs[i].1@ == t;
                    assert(s0.pairs[i] == self.pairs[i]);
                }
            }
        }
    }

    fn add_pair(&mut self, site: &String, t: &String)
        requires
            old(self).wf(),
            old(self).has_site(site@),
        ensures
            final(self).wf(),
            final(self).sites == old(self).sites,
            forall|s: Seq<char>| #[trigger] final(self).has_site(s) <==> old(self).has_site(s),
            forall|s: Seq<char>, u: Seq<char>|
                #[trigger] final(self).has_table(s, u) <==> old(self).has_table(s, u) || (s == site@ && u == t@),
    {
        let ghost s0 = *old(self);
        if !self.find_pair(site, t) {
            self.pairs.push((site.clone(), t.clone()));
            let n = self.pairs.len() - 1;
            assert(self.pairs[n as int].0@ == site@ && self.pairs[n as int].1@ == t@);
            assert forall|s: Seq<char>, u: Seq<char>|
                #[trigger] self.has_table(s, u) <==> s0.has_table(s, u) || (s == site@ && u == t@) by {
                if s0.has_table(s, u) {
                    let i = choose|i: int|
                        0 <= i < s0.pairs.len() && (#[trigger] s0.pairs[i]).0@ == s && s0.pairs[i].1@ == u;
                    assert(self.pairs[i] == s0.pairs[i]);
                }
                if self.has_table(s, u) {
                    let i = choose|i: int|
                        0 <= i < self.pairs.len() && (#[trigger] self.pairs[i]).0@ == s && self.pairs[i].1@ == u;
                    if i < n {
                        assert(self.pairs[i] == s0.pairs[i]);
                    }
                }
            }
            assert forall|i: int, j: int|
                0 <= i < j < self.pairs.len() implies (#[trigger] self.pairs[i]).0@ != (#[trigger] self.pairs[j]).0@
                    || self.pairs[i].1@ != self.pairs[j].1@ by {
                assert(self.pairs[i] == s0.pairs[i]);
                if j < n {
                    assert(self.pairs[j] == s0.pairs[j]);
                }
            }
            assert forall|s: Seq<char>| #[trigger] self.has_site(s) <==> s0.has_site(s) by {
                if self.has_site(s) {
                    let i = choose|i: int| 0 <= i < self.sites.len() && (#[trigger] self.sites[i])@ == s;
                    assert(s0.sites[i] == self.sites[i]);
                }
                if s0.has_site(s) {
                    let i = choose|i: int| 0 <= i < s0.sites.len() && (#[trigger] s0.sites[i])@ == s;
                    assert(s0.sites[i] == self.sites[i]);
                }
            }
        }
    }

    /// The table names recorded for `site`, each once, or `None` when the site
    /// never answered with success.
    pub fn tables_of(&self, site: &str) -> (r: Option<Vec<String>>)
        requires
            self.wf(),
        ensures
            r is None <==> !self@.contains_key(site@),
            r matches Some(v) ==> {
                &&& forall|t: Seq<char>| self@[site@].contains(t) <==> #[trigger] text_in(v@, t)
                &&& forall|i: int, j: int| 0 <= i < j < v.len() ==> (#[trigger] v[i])@ != (#[trigger] v[j])@
            },
    {
        let target = site.to_owned();
        if !self.find_site(&target) {
            return None;
        }
        let mut out: Vec<String> = Vec::new();
        let mut i: usize = 0;
        while i < self.pairs.len()
            invariant
                0 <= i <= self.pairs.len(),
                self.wf(),
                target@ == site@,
                forall|t: Seq<char>|
                    #[trigger] text_in(out@, t) <==> self.has_table_before(site@, i as int, t),
                forall|a: int, b: int| 0 <= a < b < out.len() ==> (#[trigger] out[a])@ != (#[trigger] out[b])@,
            decreases self.pairs.len() - i,
        {
            assert forall|t: Seq<char>|
                #[trigger] self.has_table_before(site@, i + 1, t) <==> self.has_table_before(site@, i as int, t)
                    || (self.pairs[i as int].0@ == site@ && self.pairs[i as int].1@ == t) by {
                if self.has_table_before(site@, i + 1, t) {
                    let p = choose|p: int|
                        0 <= p < i + 1 && (#[trigger] self.pairs[p]).0@ == site@ && self.pairs[p].1@ == t;
                    if p < i {
                        assert(self.has_table_before(site@, i as int, t));
                    }
                }
                if self.has_table_before(site@, i as int, t) {
                    let p = choose|p: int|
                        0 <= p < i && (#[trigger] self.pairs[p]).0@ == site@ && self.pairs[p].1@ == t;
                    assert(self.has_table_before(site@, i + 1, t));
                }
                if self.pairs[i as int].0@ == site@ && self.pairs[i as int].1@ == t {
                    assert(self.has_table_before(site@, i + 1, t));
                }
            }
            if self.pairs[i].0 == target {
                let ghost old_out = out@;
                let item = self.pairs[i].1.clone();
                assert forall|a: int| 0 <= a < out.len() implies (#[trigger] out[a])@ != item@ by {
                    assert(text_in(out@, out[a]@));
                    let p = choose|p: int|
                        0 <= p < i && (#[trigger] self.pairs[p]).0@ == site@ && self.pairs[p].1@ == out[a]@;
                    assert(self.pairs[p].0@ != self.pairs[i as int].0@ || self.pairs[p].1@
                        != self.pairs[i as int].1@);
                }
                out.push(item);
                assert forall|t: Seq<char>| #[trigger] text_in(out@, t) <==> text_in(old_out, t) || t == item@ by {
                    lemma_text_in_push(old_out, item, t);
                }
            }
            i = i + 1;
        }
        assert forall|t: Seq<char>| self@[site@].contains(t) <==> #[trigger] text_in(out@, t) by {
            if self.has_table(site@, t) {
                let p = choose|p: int|
                    0 <= p < self.pairs.len() && (#[trigger] self.pairs[p]).0@ == site@ && self.pairs[p].1@ == t;
                assert(self.has_table_before(site@, i as int, t));
            }
            if self.has_table_before(site@, i as int, t) {
                let p = choose|p: int| 0 <= p < i && (#[trigger] self.pairs[p]).0@ == site@ && self.pairs[p].1@ == t;
                assert(self.has_table(site@, t));
            }
        }
        Some(out)
    }

    /// The sites recorded, each once.
    pub fn sites(&self) -> (r: Vec<String>)
        requires
            self.wf(),
        ensures
            forall|s: Seq<char>| self@.contains_key(s) <==> exists|j: int|
                0 <= j < r.len() && (#[trigger] r[j])@ == s,
            forall|i: int, j: int| 0 <= i < j < r.len() ==> (#[trigger] r[i])@ != (#[trigger] r[j])@,
    {
        let r = self.sites.clone();
        assert forall|j: int| 0 <= j < r.len() implies (#[trigger] r[j])@ == self.sites[j]@ by {
            assert(cloned(self.sites[j], r[j]));
        }
        r
    }
}

impl View for SiteTables {
    type V = Map<Seq<char>, Set<Seq<char>>>;

    open spec fn view(&self) -> Map<Seq<char>, Set<Seq<char>>> {
        Map::new(|s: Seq<char>| self.has_site(s), |s: Seq<char>| Set::new(|t: Seq<char>| self.has_table(s, t)))
    }
}

/// Set-union over a whole, already received sequence of frames.
pub fn collect_tables(frames: &Vec<Frame<Vec<String>>>) -> (r: SiteTables)
    ensures
        r.wf(),
        r@ == tables_by_site(frames@),
{
    let mut acc = SiteTables::new();
    let mut i: usize = 0;
    while i < frames.len()
        invariant
            0 <= i <= frames@.len(),
            acc.wf(),
            forall|s: Seq<char>| #[trigger] acc.has_site(s) <==> replied_ok(frames@.take(i as int), s),
            forall|s: Seq<char>, t: Seq<char>|
                #[trigger] acc.has_table(s, t) <==> reported_table(frames@.take(i as int), s, t),
        decreases frames@.len() - i,
    {
        acc.absorb(&frames[i]);
        proof {
            lemma_union_push(frames@.take(i as int), frames@[i as int]);
            assert(frames@.take(i + 1) =~= frames@.take(i as int).push(frames@[i as int]));
        }
        i = i + 1;
    }
    assert(frames@.take(i as int) =~= frames@);
    assert(acc@ =~~= tables_by_site(frames@));
    acc
}

/// How one more frame changes the sites and tables of set-union.
proof fn lemma_union_push(pre: Seq<Frame<Vec<String>>>, f: Frame<Vec<String>>)
    ensures
        forall|s: Seq<char>| #[trigger] replied_ok(pre.push(f), s) <==> replied_ok(pre, s) || success_from(f, s),
        forall|s: Seq<char>, t: Seq<char>| #[trigger] reported_table(pre.push(f), s, t) <==> reported_table(pre, s, t)
            || (success_from(f, s) && lists_table(f, t)),
{
    let next = pre.push(f);
    assert forall|s: Seq<char>| #[trigger] replied_ok(next, s) <==> replied_ok(pre, s) || success_from(f, s) by {
        if replied_ok(pre, s) {
            let w = choose|w: int| 0 <= w < pre.len() && success_from(#[trigger] pre[w], s);
            assert(next[w] == pre[w]);
        }
        if success_from(f, s) {
            assert(next[pre.len() as int] == f);
        }
        if replied_ok(next, s) {
            let w = choose|w: int| 0 <= w < next.len() && success_from(#[trigger] next[w], s);
            if w < pre.len() {
                assert(pre[w] == next[w]);
            }
        }
    }
    assert forall|s: Seq<char>, t: Seq<char>| #[trigger] reported_table(next, s, t) <==> reported_table(pre, s, t) || (
        success_from(f, s) && lists_table(f, t)) by {
        if reported_table(pre, s, t) {
            let w = choose|w: int| 0 <= w < pre.len() && success_from(#[trigger] pre[w], s) && lists_table(pre[w], t);
            assert(next[w] == pre[w]);
        }
        if success_from(f, s) && lists_table(f, t) {
            assert(next[pre.len() as int] == f);
        }
        if reported_table(next, s, t) {
            let w = choose|w: int| 0 <= w < next.len() && success_from(#[trigger] next[w], s) && lists_table(next[w], t);
            if w < pre.len() {
                assert(pre[w] == next[w]);
            }
        }
    }
}

/// Some frame is a decoded reply, success or failure.
pub open spec fn has_reply<T>(frames: Seq<Frame<T>>) -> bool {
    exists|i: int| 0 <= i < frames.len() && is_reply(#[trigger] frames[i])
}

/// Table discovery: the table sets of set-union once some reply was decoded;
/// when none was, the discovery fails with no replies.
pub struct Discovery {
    tables: SiteTables,
    replied: bool,
    last_malformed: Option<String>,
    seen: Ghost<Seq<Frame<Vec<String>>>>,
}

impl Discovery {
    pub closed spec fn seen(&self) -> Seq<Frame<Vec<String>>> {
        self.seen@
    }

    pub closed spec fn wf(&self) -> bool {
        &&& self.tables.wf()
        &&& forall|s: Seq<char>| #[trigger] self.tables.has_site(s) <==> replied_ok(self.seen@, s)
        &&& forall|s: Seq<char>, t: Seq<char>|
            #[trigger] self.tables.has_table(s, t) <==> reported_table(self.seen@, s, t)
        &&& self.replied == has_reply(self.seen@)
        &&& self.last_malformed == last_malformed(self.seen@)
    }

    pub fn new() -> (d: Self)
        ensures
            d.wf(),
            d.seen() == Seq::<Frame<Vec<String>>>::empty(),
    {
        Discovery { tables: SiteTables::new(), replied: false, last_malformed: None, seen: Ghost(Seq::empty()) }
    }

    /// Takes the next frame.
    pub fn step(&mut self, frame: &Frame<Vec<String>>)
        requires
            old(self).wf(),
        ensures
            final(self).wf(),
            final(self).seen() == old(self).seen().push(*frame),
    {
        let ghost prev = self.seen@;
        let ghost next = prev.push(*frame);
        self.tables.absorb(frame);
        match frame {
            Frame::Reply(_) => {
                self.replied = true;
            },
            Frame::Malformed(m) => {
                self.last_malformed = Some(m.clone());
            },
        }
        self.seen = Ghost(next);
        proof {
            lemma_union_push(prev, *frame);
            assert(next.drop_last() =~= prev);
            if has_reply(prev) {
                let w = choose|w: int| 0 <= w < prev.len() && is_reply(#[trigger] prev[w]);
                assert(next[w] == prev[w]);
            }
            if has_reply(next) && !is_reply(*frame) {
                let w = choose|w: int| 0 <= w < next.len() && is_reply(#[trigger] next[w]);
                assert(w < prev.len());
                assert(prev[w] == next[w]);
            }
            if is_reply(*frame) {
                assert(next[prev.len() as int] == *frame);
            }
        }
    }

    /// The outcome once the stream has closed.
    pub fn finish(self) -> (r: Result<SiteTables, PollError>)
        requires
            self.wf(),
        ensures
            match r {
                Err(e) => !has_reply(self.seen()) && e == PollError::NoRepliesReceived {
                    last_malformed: last_malformed(self.seen()),
                },
                Ok(t) => has_reply(self.seen()) && t.wf() && t@ == tables_by_site(self.seen()),
            },
    {
        if self.replied {
            let t = self.tables;
            assert(t@ =~~= tables_by_site(self.seen@));
            Ok(t)
        } else {
            Err(PollError::NoRepliesReceived { last_malformed: self.last_malformed })
        }
    }
}

/// Table discovery over a whole, already received sequence of frames: fails
/// with no replies exactly when no frame decoded to a reply.
pub fn discovery_outcome(frames: &Vec<Frame<Vec<String>>>) -> (r: Result<SiteTables, PollError>)
    ensures
        match r {
            Err(e) => !has_reply(frames@) && e == PollError::NoRepliesReceived {
                last_malformed: last_malformed(frames@),
            },
            Ok(t) => has_reply(frames@) && t.wf() && t@ == tables_by_site(frames@),
        },
{
    let mut d = Discovery::new();
    let mut i: usize = 0;
    while i < frames.len()
        invariant
            0 <= i <= frames@.len(),
            d.wf(),
            d.seen() == frames@.take(i as int),
        decreases frames@.len() - i,
    {
        d.step(&frames[i]);
        assert(frames@.take(i + 1) =~= frames@.take(i as int).push(frames@[i as int]));
        i = i + 1;
    }
    assert(frames@.take(i as int) =~= frames@);
    d.finish()
}

/// Set-union does not depend on the order in which replies arrive, nor on
/// replies being repeated: two sequences holding the same frames give the same
/// table sets for every site.
pub proof fn lemma_union_order_free(a: Seq<Frame<Vec<String>>>, b: Seq<Frame<Vec<String>>>)
    requires
        forall|f: Frame<Vec<String>>| a.contains(f) <==> b.contains(f),
    ensures
        tables_by_site(a) == tables_by_site(b),
{
    assert forall|s: Seq<char>| replied_ok(a, s) implies replied_ok(b, s) by {
        if replied_ok(a, s) {
            let i = choose|i: int| 0 <= i < a.len() && success_from(#[trigger] a[i], s);
            assert(a.contains(a[i]));
        }
    }
    assert forall|s: Seq<char>| replied_ok(b, s) implies replied_ok(a, s) by {
        if replied_ok(b, s) {
            let i = choose|i: int| 0 <= i < b.len() && success_from(#[trigger] b[i], s);
            assert(b.contains(b[i]));
        }
    }
    assert forall|s: Seq<char>, t: Seq<char>| reported_table(a, s, t) implies reported_table(b, s, t) by {
        if reported_table(a, s, t) {
            let i = choose|i: int| 0 <= i < a.len() && success_from(#[trigger] a[i], s) && lists_table(a[i], t);
            assert(a.contains(a[i]));
        }
    }
    assert forall|s: Seq<char>, t: Seq<char>| reported_table(b, s, t) implies reported_table(a, s, t) by {
        if reported_table(b, s, t) {
            let i = choose|i: int| 0 <= i < b.len() && success_from(#[trigger] b[i], s) && lists_table(b[i], t);
            assert(b.contains(b[i]));
        }
    }
    assert(tables_by_site(a) =~~= tables_by_site(b));
}

/// In particular, any permutation of the same replies gives the same mapping.
pub proof fn lemma_union_permutation(a: Seq<Frame<Vec<String>>>, b: Seq<Frame<Vec<String>>>)
    requires
        a.to_multiset() == b.to_multiset(),
    ensures
        tables_by_site(a) == tables_by_site(b),
{
    a.to_multiset_ensures();
    b.to_multiset_ensures();
    assert forall|f: Frame<Vec<String>>| a.contains(f) <==> b.contains(f) by {
        a.to_multiset_ensures();
        b.to_multiset_ensures();
        if a.contains(f) {
            assert(a.to_multiset().count(f) > 0);
            assert(b.to_multiset().count(f) > 0);
        }
        if b.contains(f) {
            assert(b.to_multiset().count(f) > 0);
            assert(a.to_multiset().count(f) > 0);
        }
    }
    lemma_union_order_free(a, b);
}

} // verus!

verus! {

/// What every record of one batch shares: the generated token name, the
/// project, the user and the time of the batch.
pub struct TokenBatch {
    pub token_name: String,
    pub project_id: String,
    pub user_id: String,
    pub created_at: String,
}

/// Some entry of `entries` belongs to `site`.
pub open spec fn has_entry_for(entries: Seq<(Seq<char>, Seq<char>)>, site: Seq<char>) -> bool {
    exists|i: int| 0 <= i < entries.len() && (#[trigger] entries[i]).0 == site
}

/// Collect-all: the site and secret of the first success reply from each
/// site, in arrival order. Later successes from a site already recorded,
/// failures and undecodable frames add nothing.
pub open spec fn persisted_replies(frames: Seq<Frame<String>>) -> Seq<(Seq<char>, Seq<char>)>
    decreases frames.len(),
{
    if frames.len() == 0 {
        Seq::empty()
    } else {
        let prev = persisted_replies(frames.drop_last());
        match frames.last() {
            Frame::Reply(r) => match r.body {
                OpalResponse::Success { response } => if has_entry_for(prev, r.from@) {
                    prev
                } else {
                    prev.push((r.from@, response@))
                },
                OpalResponse::Failure { .. } => prev,
            },
            Frame::Malformed(_) => prev,
        }
    }
}

/// Collect-all keeps, for diagnostics, the latest problem seen: an
/// undecodable frame's diagnostic, or a failing site's message.
pub open spec fn collect_last_error(frames: Seq<Frame<String>>) -> Option<Seq<char>>
    decreases frames.len(),
{
    if frames.len() == 0 {
        None
    } else {
        match frames.last() {
            Frame::Malformed(m) => Some(m@),
            Frame::Reply(r) => match r.body {
                OpalResponse::Failure { error_message, .. } => Some("Error: "@ + error_message@),
                OpalResponse::Success { .. } => collect_last_error(frames.drop_last()),
            },
        }
    }
}

/// `rec` is the row stored for the secret `secret` that `site` returned.
pub open spec fn is_record(rec: NewToken, batch: TokenBatch, key: Seq<char>, site: Seq<char>, secret: Seq<char>) -> bool {
    &&& rec.token_name@ == batch.token_name@
    &&& rec.token@ == sealed_token(secret, batch.token_name@, key)
    &&& rec.project_id@ == batch.project_id@
    &&& rec.bk@ == site
    &&& rec.token_status@ == token_status_name(OpalTokenStatus::CREATED)
    &&& rec.project_status@ == project_status_name(OpalProjectStatus::CREATED)
    &&& rec.user_id@ == batch.user_id@
    &&& rec.token_created_at@ == batch.created_at@
}

/// Collect-all policy, fed one frame at a time: each new site's first success
/// yields the row to store at once.
pub struct CollectAll {
    batch: TokenBatch,
    key: String,
    persisted: Vec<String>,
    last_error: Option<String>,
    seen: Ghost<Seq<Frame<String>>>,
}

impl CollectAll {
    pub closed spec fn seen(&self) -> Seq<Frame<String>> {
        self.seen@
    }

    pub closed spec fn batch(&self) -> TokenBatch {
        self.batch
    }

    pub closed spec fn key(&self) -> Seq<char> {
        self.key@
    }

    pub closed spec fn wf(&self) -> bool {
        &&& name_gives_nonce(self.batch.token_name@)
        &&& self.persisted@.len() == persisted_replies(self.seen@).len()
        &&& forall|i: int| 0 <= i < self.persisted@.len() ==> (#[trigger] self.persisted@[i])@ == persisted_replies(self.seen@)[i].0
        &&& self.last_error matches Some(e) ==> collect_last_error(self.seen@) == Some(e@)
        &&& self.last_error is None ==> collect_last_error(self.seen@) is None
    }

    pub fn new(batch: TokenBatch, key: String) -> (c: Self)
        requires
            name_gives_nonce(batch.token_name@),
        ensures
            c.wf(),
            c.seen() == Seq::<Frame<String>>::empty(),
            c.batch() == batch,
            c.key() == key@,
    {
        CollectAll { batch, key, persisted: Vec::new(), last_error: None, seen: Ghost(Seq::empty()) }
    }

    fn is_persisted(&self, site: &String) -> (r: bool)
        requires
            self.wf(),
        ensures
            r == has_entry_for(persisted_replies(self.seen@), site@),
    {
        let ghost p = persisted_replies(self.seen@);
        let mut i: usize = 0;
        while i < self.persisted.len()
            invariant
                0 <= i <= self.persisted.len(),
                self.wf(),
                p == persisted_replies(self.seen@),
                forall|j: int| 0 <= j < i ==> p[j].0 != site@,
            decreases self.persisted.len() - i,
        {
            if self.persisted[i] == *site {
                assert(p[i as int].0 == site@);
                return true;
            }
            i = i + 1;
        }
        assert forall|j: int| 0 <= j < p.len() implies (#[trigger] p[j]).0 != site@ by {}
        false
    }

    /// Takes the next frame. Returns the row to store when the frame is the
    /// first success from its site.
    pub fn step(&mut self, frame: &Frame<String>) -> (r: Option<NewToken>)
        requires
            old(self).wf(),
        ensures
            final(self).wf(),
            final(self).seen() == old(self).seen().push(*frame),
            final(self).batch() == old(self).batch(),
            final(self).key() == old(self).key(),
            match r {
                None => persisted_replies(final(self).seen()) == persisted_replies(old(self).seen()),
                Some(rec) => {
                    let p = persisted_replies(final(self).seen());
                    &&& p.len() > 0
                    &&& p.drop_last() == persisted_replies(old(self).seen())
                    &&& is_record(rec, old(self).batch(), old(self).key(), p.last().0, p.last().1)
                },
            },
    {
        let ghost prev = self.seen@;
        let ghost next = prev.push(*frame);
        assert(next.drop_last() =~= prev);
        match frame {
            Frame::Malformed(m) => {
                self.last_error = Some(m.clone());
                self.seen = Ghost(next);
                None
            },
            Frame::Reply(reply) => match &reply.body {
                OpalResponse::Failure { error_message, .. } => {
                    let mut e = String::from_str("Error: ");
                    e.append(error_message.as_str());
                    self.last_error = Some(e);
                    self.seen = Ghost(next);
                    None
                },
                OpalResponse::Success { response } => {
                    if self.is_persisted(&reply.from) {
                        self.seen = Ghost(next);
                        None
                    } else {
                        let token = seal_token(response.as_str(), self.batch.token_name.as_str(), self.key.as_str());
                        let rec = NewToken {
                            token_name: self.batch.token_name.clone(),
                            token,
                            project_id: self.batch.project_id.clone(),
                            project_status: OpalProjectStatus::CREATED.as_str().to_owned(),
                            bk: reply.from.clone(),
                            token_status: OpalTokenStatus::CREATED.as_str().to_owned(),
                            user_id: self.batch.user_id.clone(),
                            token_created_at: self.batch.created_at.clone(),
                        };
                        self.persisted.push(reply.from.clone());
                        self.seen = Ghost(next);
                        assert(persisted_replies(next).drop_last() =~= persisted_replies(prev));
                        Some(rec)
                    }
                },
            },
        }
    }

    /// The latest problem seen, once the stream has closed.
    pub fn finish(self) -> (r: Option<String>)
        requires
            self.wf(),
        ensures
            r matches Some(e) ==> collect_last_error(self.seen()) == Some(e@),
            r is None ==> collect_last_error(self.seen()) is None,
    {
        self.last_error
    }
}

/// Collect-all over a whole, already received sequence of frames: the rows to
/// store, in order, and the latest problem seen.
pub fn collect_all(frames: &Vec<Frame<String>>, batch: TokenBatch, key: String) -> (r: (Vec<NewToken>, Option<String>))
    requires
        name_gives_nonce(batch.token_name@),
    ensures
        r.0.len() == persisted_replies(frames@).len(),
        forall|i: int| 0 <= i < r.0.len() ==> is_record(#[trigger] r.0[i], batch, key@,
            persisted_replies(frames@)[i].0, persisted_replies(frames@)[i].1),
        r.1 matches Some(e) ==> collect_last_error(frames@) == Some(e@),
        r.1 is None ==> collect_last_error(frames@) is None,
{
    let ghost b = batch;
    let ghost k = key@;
    let mut st = CollectAll::new(batch, key);
    let mut rows: Vec<NewToken> = Vec::new();
    let mut i: usize = 0;
    while i < frames.len()
        invariant
            0 <= i <= frames@.len(),
            st.wf(),
            st.seen() == frames@.take(i as int),
            st.batch() == b,
            st.key() == k,
            rows.len() == persisted_replies(st.seen()).len(),
            forall|j: int| 0 <= j < rows.len() ==> is_record(#[trigger] rows[j], b, k,
                persisted_replies(st.seen())[j].0, persisted_replies(st.seen())[j].1),
        decreases frames@.len() - i,
    {
        let ghost before = rows@;
        let out = st.step(&frames[i]);
        assert(frames@.take(i as int).push(frames@[i as int]) =~= frames@.take(i + 1));
        match out {
            Some(rec) => {
                rows.push(rec);
                assert forall|j: int| 0 <= j < rows.len() implies is_record(#[trigger] rows[j], b, k,
                    persisted_replies(st.seen())[j].0, persisted_replies(st.seen())[j].1) by {
                    if j < rows.len() - 1 {
                        assert(rows[j] == before[j]);
                        assert(persisted_replies(st.seen())[j] == persisted_replies(st.seen()).drop_last()[j]);
                    }
                }
            },
            None => {},
        }
        i = i + 1;
    }
    assert(frames@.take(i as int) =~= frames@);
    (rows, st.finish())
}

/// Collect-all stores exactly one row per site that answered with success,
/// however many failures or repeated successes come in between: the recorded
/// sites are distinct, and they are the sites that answered with success.
pub proof fn lemma_one_record_per_site(frames: Seq<Frame<String>>)
    ensures
        forall|i: int, j: int| 0 <= i < j < persisted_replies(frames).len() ==>
            (#[trigger] persisted_replies(frames)[i]).0 != (#[trigger] persisted_replies(frames)[j]).0,
        forall|s: Seq<char>| #[trigger] has_entry_for(persisted_replies(frames), s) <==> replied_ok(frames, s),
    decreases frames.len(),
{
    if frames.len() > 0 {
        let pre = frames.drop_last();
        lemma_one_record_per_site(pre);
        let prev = persisted_replies(pre);
        let p = persisted_replies(frames);
        assert forall|s: Seq<char>| #[trigger] replied_ok(frames, s) <==> replied_ok(pre, s) || success_from(frames.last(), s) by {
            if replied_ok(pre, s) {
                let w = choose|w: int| 0 <= w < pre.len() && success_from(#[trigger] pre[w], s);
                assert(frames[w] == pre[w]);
            }
            if success_from(frames.last(), s) {
                assert(frames[frames.len() - 1] == frames.last());
            }
            if replied_ok(frames, s) {
                let w = choose|w: int| 0 <= w < frames.len() && success_from(#[trigger] frames[w], s);
                if w < frames.len() - 1 {
                    assert(pre[w] == frames[w]);
                }
            }
        }
        if p != prev {
            assert forall|s: Seq<char>| #[trigger] has_entry_for(p, s) <==> has_entry_for(prev, s) || s == p.last().0 by {
                if has_entry_for(prev, s) {
                    let w = choose|w: int| 0 <= w < prev.len() && (#[trigger] prev[w]).0 == s;
                    assert(p[w] == prev[w]);
                }
                if s == p.last().0 {
                    assert(p[p.len() - 1] == p.last());
                }
                if has_entry_for(p, s) {
                    let w = choose|w: int| 0 <= w < p.len() && (#[trigger] p[w]).0 == s;
                    if w < p.len() - 1 {
                        assert(prev[w] == p[w]);
                    }
                }
            }
        }
    }
}

} // verus!

verus! {

proof fn lemma_some_failure<T>(frames: Seq<Frame<T>>, j: int)
    requires
        0 <= j < frames.len(),
        is_failure(frames[j]),
    ensures
        last_failure_reply(frames) is Some,
    decreases frames.len(),
{
    if !is_failure(frames.last()) {
        assert(frames.drop_last()[j] == frames[j]);
        lemma_some_failure(frames.drop_last(), j);
    }
}

} // verus!

verus! {

/// The decoded replies among `frames`, in order: the frames with every
/// undecodable one left out.
pub open spec fn replies_only<T>(frames: Seq<Frame<T>>) -> Seq<Frame<T>>
    decreases frames.len(),
{
    if frames.len() == 0 {
        Seq::empty()
    } else if frames.last() is Malformed {
        replies_only(frames.drop_last())
    } else {
        replies_only(frames.drop_last()).push(frames.last())
    }
}

proof fn lemma_replies_only_contains<T>(frames: Seq<Frame<T>>, f: Frame<T>)
    requires
        f is Reply,
    ensures
        frames.contains(f) <==> replies_only(frames).contains(f),
    decreases frames.len(),
{
    if frames.len() > 0 {
        let pre = frames.drop_last();
        lemma_replies_only_contains(pre, f);
        if frames.contains(f) {
            let i = choose|i: int| 0 <= i < frames.len() && frames[i] == f;
            if i < pre.len() {
                assert(pre[i] == f);
                assert(pre.contains(f));
            }
            if !(frames.last() is Malformed) {
                let r = replies_only(pre).push(frames.last());
                if pre.contains(f) {
                    let k = choose|k: int| 0 <= k < replies_only(pre).len() && replies_only(pre)[k] == f;
                    assert(r[k] == f);
                } else {
                    assert(r[r.len() - 1] == f);
                }
            }
        }
        if replies_only(frames).contains(f) {
            if frames.last() is Malformed {
                assert(pre.contains(f));
                let i = choose|i: int| 0 <= i < pre.len() && pre[i] == f;
                assert(frames[i] == f);
            } else {
                let r = replies_only(frames);
                let k = choose|k: int| 0 <= k < r.len() && r[k] == f;
                if k < r.len() - 1 {
                    assert(replies_only(pre)[k] == f);
                    assert(replies_only(pre).contains(f));
                    let i = choose|i: int| 0 <= i < pre.len() && pre[i] == f;
                    assert(frames[i] == f);
                } else {
                    assert(frames[frames.len() - 1] == f);
                }
            }
        }
    }
}

proof fn lemma_replies_only_folds<T>(frames: Seq<Frame<T>>)
    ensures
        first_success_reply(replies_only(frames)) == first_success_reply(frames),
        last_failure_reply(replies_only(frames)) == last_failure_reply(frames),
    decreases frames.len(),
{
    if frames.len() > 0 {
        lemma_replies_only_folds(frames.drop_last());
        if !(frames.last() is Malformed) {
            assert(replies_only(frames).drop_last() =~= replies_only(frames.drop_last()));
        }
    }
}

proof fn lemma_replies_only_persisted(frames: Seq<Frame<String>>)
    ensures
        persisted_replies(replies_only(frames)) == persisted_replies(frames),
    decreases frames.len(),
{
    if frames.len() > 0 {
        lemma_replies_only_persisted(frames.drop_last());
        if !(frames.last() is Malformed) {
            assert(replies_only(frames).drop_last() =~= replies_only(frames.drop_last()));
        }
    }
}

/// Undecodable frames, however many and wherever they stand, do not change
/// the rows collect-all stores: sequences with the same decoded replies in
/// the same order give the same rows.
pub proof fn lemma_malformed_frames_ignored_by_collect_all(a: Seq<Frame<String>>, b: Seq<Frame<String>>)
    requires
        replies_only(a) == replies_only(b),
    ensures
        persisted_replies(a) == persisted_replies(b),
{
    lemma_replies_only_persisted(a);
    lemma_replies_only_persisted(b);
}

/// Undecodable frames, however many and wherever they stand, do not change
/// the first-success answer, once at least one reply was decoded.
pub proof fn lemma_malformed_frames_ignored_by_first_success<T>(a: Seq<Frame<T>>, b: Seq<Frame<T>>)
    requires
        replies_only(a) == replies_only(b),
        has_reply(a),
    ensures
        first_success_outcome(a) == first_success_outcome(b),
{
    lemma_replies_only_folds(a);
    lemma_replies_only_folds(b);
    let j = choose|j: int| 0 <= j < a.len() && is_reply(#[trigger] a[j]);
    lemma_no_success(a);
    if !is_success(a[j]) {
        lemma_some_failure(a, j);
    }
}

/// Two frames report the same thing to set-union: both are success replies
/// from one site, listing the same set of table names.
pub open spec fn same_listing(f: Frame<Vec<String>>, g: Frame<Vec<String>>) -> bool {
    &&& is_success(f)
    &&& is_success(g)
    &&& f->Reply_0.from@ == g->Reply_0.from@
    &&& forall|t: Seq<char>| lists_table(f, t) <==> lists_table(g, t)
}

/// Every success reply of `a` is matched by one of `b` with the same listing.
pub open spec fn listings_covered(a: Seq<Frame<Vec<String>>>, b: Seq<Frame<Vec<String>>>) -> bool {
    forall|i: int| 0 <= i < a.len() && is_success(#[trigger] a[i]) ==> exists|j: int|
        0 <= j < b.len() && same_listing(a[i], #[trigger] b[j])
}

proof fn lemma_union_covered(a: Seq<Frame<Vec<String>>>, b: Seq<Frame<Vec<String>>>)
    requires
        listings_covered(a, b),
    ensures
        forall|s: Seq<char>| replied_ok(a, s) ==> replied_ok(b, s),
        forall|s: Seq<char>, t: Seq<char>| reported_table(a, s, t) ==> reported_table(b, s, t),
{
    assert forall|s: Seq<char>| replied_ok(a, s) implies replied_ok(b, s) by {
        let i = choose|i: int| 0 <= i < a.len() && success_from(#[trigger] a[i], s);
        assert(is_success(a[i]));
        let j = choose|j: int| 0 <= j < b.len() && same_listing(a[i], #[trigger] b[j]);
        assert(success_from(b[j], s));
    }
    assert forall|s: Seq<char>, t: Seq<char>| reported_table(a, s, t) implies reported_table(b, s, t) by {
        let i = choose|i: int| 0 <= i < a.len() && success_from(#[trigger] a[i], s) && lists_table(a[i], t);
        assert(is_success(a[i]));
        let j = choose|j: int| 0 <= j < b.len() && same_listing(a[i], #[trigger] b[j]);
        assert(success_from(b[j], s) && lists_table(b[j], t));
    }
}

/// Set-union depends only on which sites listed which names: when every
/// success reply of each sequence is matched in the other by a success reply
/// from the same site listing the same set of names, the mappings agree. This
/// covers replies in another order, repeated replies, names repeated inside a
/// list, and undecodable frames anywhere.
pub proof fn lemma_union_same_listings(a: Seq<Frame<Vec<String>>>, b: Seq<Frame<Vec<String>>>)
    requires
        listings_covered(a, b),
        listings_covered(b, a),
    ensures
        tables_by_site(a) == tables_by_site(b),
{
    lemma_union_covered(a, b);
    lemma_union_covered(b, a);
    assert(tables_by_site(a) =~~= tables_by_site(b));
}

/// Undecodable frames, however many and wherever they stand, do not change
/// the table sets of set-union.
pub proof fn lemma_malformed_frames_ignored_by_union(a: Seq<Frame<Vec<String>>>, b: Seq<Frame<Vec<String>>>)
    requires
        replies_only(a) == replies_only(b),
    ensures
        tables_by_site(a) == tables_by_site(b),
{
    assert forall|i: int| 0 <= i < a.len() && is_success(#[trigger] a[i]) implies exists|j: int|
        0 <= j < b.len() && same_listing(a[i], #[trigger] b[j]) by {
        assert(a.contains(a[i]));
        lemma_replies_only_contains(a, a[i]);
        lemma_replies_only_contains(b, a[i]);
        let j = choose|j: int| 0 <= j < b.len() && b[j] == a[i];
        assert(same_listing(a[i], b[j]));
    }
    assert forall|i: int| 0 <= i < b.len() && is_success(#[trigger] b[i]) implies exists|j: int|
        0 <= j < a.len() && same_listing(b[i], #[trigger] a[j]) by {
        assert(b.contains(b[i]));
        lemma_replies_only_contains(b, b[i]);
        lemma_replies_only_contains(a, b[i]);
        let j = choose|j: int| 0 <= j < a.len() && a[j] == b[i];
        assert(same_listing(b[i], a[j]));
    }
    lemma_union_same_listings(a, b);
}

} // verus!
