//! Bounded-concurrency orchestration of a stream of parse requests.
//!
//! The `Orchestrator` holds the decisions: whether the intake may take another request
//! (backpressure), which finished responses are forwarded, and what cancellation stops.
//! Whoever runs the workers performs what it decides.
use vstd::prelude::*;
use vstd::multiset::Multiset;
use vstd::seq_lib::group_to_multiset_ensures;
use crate::engine::{parse_one, request_response, response_view, ParseRequest, ParseResponse, ResponseV};
use crate::registry::{index_of_name, Registry};
use crate::syntax::{node_view, node_wf};

verus! {

broadcast use group_to_multiset_ensures;

pub open spec fn ids_of(v: Seq<String>) -> Seq<Seq<char>> {
    v.map_values(|s: String| s@)
}

/// The state of one batch: the ids in flight, and in ghost form every id taken in,
/// forwarded, or dropped after cancellation.
pub struct Orchestrator {
    bound: usize,
    in_flight: Vec<String>,
    cancelled: bool,
    input_closed: bool,
    accepted: Ghost<Seq<Seq<char>>>,
    emitted: Ghost<Seq<Seq<char>>>,
    discarded: Ghost<Seq<Seq<char>>>,
}

impl Orchestrator {
    pub closed spec fn bound(&self) -> nat {
        self.bound as nat
    }

    /// Ids of the requests dispatched and not yet finished.
    pub closed spec fn in_flight_ids(&self) -> Seq<Seq<char>> {
        ids_of(self.in_flight@)
    }

    pub open spec fn in_flight_count(&self) -> nat {
        self.in_flight_ids().len()
    }

    /// Ids of all requests taken in, in intake order.
    pub closed spec fn accepted(&self) -> Seq<Seq<char>> {
        self.accepted@
    }

    /// Ids of all responses forwarded, in emission order.
    pub closed spec fn emitted(&self) -> Seq<Seq<char>> {
        self.emitted@
    }

    /// Ids of responses that finished after cancellation and were dropped.
    pub closed spec fn discarded(&self) -> Seq<Seq<char>> {
        self.discarded@
    }

    pub closed spec fn cancelled(&self) -> bool {
        self.cancelled
    }

    pub closed spec fn input_closed(&self) -> bool {
        self.input_closed
    }

    /// At most `bound` requests are in flight; every id taken in is in flight, forwarded or
    /// dropped, once each; nothing is dropped unless the batch was cancelled.
    pub open spec fn wf(&self) -> bool {
        &&& 0 < self.bound()
        &&& self.in_flight_count() <= self.bound()
        &&& self.accepted().to_multiset() == self.emitted().to_multiset().add(
            self.discarded().to_multiset(),
        ).add(self.in_flight_ids().to_multiset())
        &&& !self.cancelled() ==> self.discarded().len() == 0
    }

    /// A batch that allows `bound` parses in flight.
    pub fn new(bound: usize) -> (r: Orchestrator)
        requires
            bound > 0,
        ensures
            r.wf(),
            r.bound() == bound,
            r.in_flight_count() == 0,
            r.accepted().len() == 0,
            r.emitted().len() == 0,
            !r.cancelled(),
            !r.input_closed(),
    {
        let r = Orchestrator {
            bound,
            in_flight: Vec::new(),
            cancelled: false,
            input_closed: false,
            accepted: Ghost(Seq::empty()),
            emitted: Ghost(Seq::empty()),
            discarded: Ghost(Seq::empty()),
        };
        assert(r.emitted().to_multiset().add(r.discarded().to_multiset()).add(
            r.in_flight_ids().to_multiset(),
        ) =~= r.accepted().to_multiset());
        r
    }

    /// Whether the intake may take another request now: the batch is open and a slot is free.
    pub fn has_slot(&self) -> (r: bool)
        ensures
            r == (!self.cancelled() && !self.input_closed() && self.in_flight_count()
                < self.bound()),
    {
        !self.cancelled && !self.input_closed && self.in_flight.len() < self.bound
    }

    /// Takes in `req` and dispatches it, filling one slot.
    pub fn dispatch(&mut self, req: &ParseRequest)
        requires
            old(self).wf(),
            !old(self).cancelled(),
            !old(self).input_closed(),
            old(self).in_flight_count() < old(self).bound(),
        ensures
            final(self).wf(),
            final(self).bound() == old(self).bound(),
            final(self).in_flight_ids() == old(self).in_flight_ids().push(req.file_id@),
            final(self).accepted() == old(self).accepted().push(req.file_id@),
            final(self).emitted() == old(self).emitted(),
            final(self).cancelled() == old(self).cancelled(),
            final(self).input_closed() == old(self).input_closed(),
    {
        let ghost old_ids = self.in_flight_ids();
        self.in_flight.push(req.file_id.clone());
        self.accepted = Ghost(self.accepted@.push(req.file_id@));
        proof {
            assert(self.in_flight_ids() =~= old_ids.push(req.file_id@));
            assert(self.accepted().to_multiset() =~= self.emitted().to_multiset().add(
                self.discarded().to_multiset(),
            ).add(self.in_flight_ids().to_multiset()));
        }
    }

    /// Takes the finished response of a request in flight, freeing its slot. It is forwarded
    /// unless the batch was cancelled. A response whose id is not in flight is not forwarded
    /// and changes nothing.
    pub fn complete(&mut self, resp: ParseResponse) -> (r: Option<ParseResponse>)
        requires
            old(self).wf(),
        ensures
            final(self).wf(),
            final(self).bound() == old(self).bound(),
            final(self).accepted() == old(self).accepted(),
            final(self).cancelled() == old(self).cancelled(),
            final(self).input_closed() == old(self).input_closed(),
            !old(self).in_flight_ids().contains(resp.file_id@) ==> r.is_none() && *final(self)
                == *old(self),
            old(self).in_flight_ids().contains(resp.file_id@) ==> {
                &&& final(self).in_flight_ids().to_multiset() == old(
                    self,
                ).in_flight_ids().to_multiset().remove(resp.file_id@)
                &&& final(self).in_flight_count() + 1 == old(self).in_flight_count()
                &&& old(self).cancelled() ==> r.is_none() && final(self).emitted() == old(
                    self,
                ).emitted()
                &&& !old(self).cancelled() ==> r == Some(resp) && final(self).emitted() == old(
                    self,
                ).emitted().push(resp.file_id@)
            },
    {
        let mut j: usize = 0;
        let mut found = false;
        while j < self.in_flight.len() && !found
            invariant
                j <= self.in_flight@.len(),
                found ==> j < self.in_flight@.len() && self.in_flight@[j as int]@ == resp.file_id@,
                forall|k: int| 0 <= k < j ==> self.in_flight@[k]@ != resp.file_id@,
            decreases self.in_flight@.len() - j + if found { 0int } else { 1int },
        {
            if self.in_flight[j] == resp.file_id {
                found = true;
            } else {
                j += 1;
            }
        }
        if !found {
            proof {
                if self.in_flight_ids().contains(resp.file_id@) {
                    let k = choose|k: int| 0 <= k < self.in_flight_ids().len() && self.in_flight_ids()[k] == resp.file_id@;
                    assert(self.in_flight@[k]@ == resp.file_id@);
                }
            }
            return None;
        }
        let ghost old_ids = self.in_flight_ids();
        assert(old_ids[j as int] == resp.file_id@);
        self.in_flight.remove(j);
        proof {
            assert(self.in_flight_ids() =~= old_ids.remove(j as int));
            assert(old_ids.to_multiset().count(resp.file_id@) > 0);
        }
        if self.cancelled {
            self.discarded = Ghost(self.discarded@.push(resp.file_id@));
            proof {
                assert(self.accepted().to_multiset() =~= self.emitted().to_multiset().add(
                    self.discarded().to_multiset(),
                ).add(self.in_flight_ids().to_multiset()));
            }
            None
        } else {
            self.emitted = Ghost(self.emitted@.push(resp.file_id@));
            proof {
                assert(self.accepted().to_multiset() =~= self.emitted().to_multiset().add(
                    self.discarded().to_multiset(),
                ).add(self.in_flight_ids().to_multiset()));
            }
            Some(resp)
        }
    }

    /// The caller went away: take in nothing more and forward nothing more.
    pub fn cancel(&mut self)
        requires
            old(self).wf(),
        ensures
            final(self).wf(),
            final(self).cancelled(),
            final(self).bound() == old(self).bound(),
            final(self).in_flight_ids() == old(self).in_flight_ids(),
            final(self).accepted() == old(self).accepted(),
            final(self).emitted() == old(self).emitted(),
            final(self).input_closed() == old(self).input_closed(),
    {
        self.cancelled = true;
    }

    /// The inbound stream has ended.
    pub fn close_input(&mut self)
        requires
            old(self).wf(),
        ensures
            final(self).wf(),
            final(self).input_closed(),
            final(self).bound() == old(self).bound(),
            final(self).in_flight_ids() == old(self).in_flight_ids(),
            final(self).accepted() == old(self).accepted(),
            final(self).emitted() == old(self).emitted(),
            final(self).cancelled() == old(self).cancelled(),
    {
        self.input_closed = true;
    }

    /// The batch is over: no more input will come and nothing is in flight.
    pub fn is_done(&self) -> (r: bool)
        ensures
            r == ((self.input_closed() || self.cancelled()) && self.in_flight_count() == 0),
    {
        (self.input_closed || self.cancelled) && self.in_flight.len() == 0
    }

    pub fn in_flight_len(&self) -> (r: usize)
        ensures
            r == self.in_flight_count(),
    {
        self.in_flight.len()
    }
}

/// However requests and completions interleave, the number of parses in flight never
/// exceeds the bound the batch was made with.
pub proof fn lemma_slots_bounded(o: Orchestrator)
    requires
        o.wf(),
    ensures
        o.in_flight_count() <= o.bound(),
{
}

/// Once an uncancelled batch has nothing in flight, the ids forwarded are exactly the ids
/// taken in, each as often, whatever the order of emission.
pub proof fn lemma_correlation(o: Orchestrator)
    requires
        o.wf(),
        !o.cancelled(),
        o.in_flight_count() == 0,
    ensures
        o.emitted().to_multiset() == o.accepted().to_multiset(),
        o.emitted().to_set() == o.accepted().to_set(),
{
    assert(o.in_flight_ids().to_multiset() =~= Multiset::empty());
    assert(o.discarded().to_multiset() =~= Multiset::empty());
    assert(o.emitted().to_multiset() =~= o.accepted().to_multiset());
    assert forall|x: Seq<char>| o.emitted().contains(x) <==> o.accepted().contains(x) by {
        vstd::seq_lib::to_multiset_contains(o.emitted(), x);
        vstd::seq_lib::to_multiset_contains(o.accepted(), x);
    }
    assert(o.emitted().to_set() =~= o.accepted().to_set());
}

pub open spec fn resp_views(v: Seq<ParseResponse>) -> Seq<ResponseV> {
    v.map_values(|r: ParseResponse| response_view(r))
}

pub open spec fn resp_ids(v: Seq<ParseResponse>) -> Seq<Seq<char>> {
    v.map_values(|r: ParseResponse| r.file_id@)
}

pub open spec fn req_ids(v: Seq<ParseRequest>) -> Seq<Seq<char>> {
    v.map_values(|q: ParseRequest| q.file_id@)
}

/// Every tree among the responses is well formed.
pub open spec fn trees_wf(v: Seq<ParseResponse>) -> bool {
    forall|k: int|
        0 <= k < v.len() ==> ((#[trigger] v[k]).root.is_some() ==> node_wf(
            node_view(v[k].root.unwrap()),
        ))
}

/// The responses owed to `reqs`, in request order.
pub open spec fn expected_responses(reg: Registry, reqs: Seq<ParseRequest>) -> Seq<ResponseV> {
    reqs.map_values(|q: ParseRequest| request_response(reg.adapters(), q))
}

/// Takes the oldest finished response and forwards it through `o`.
fn forward_oldest(
    o: &mut Orchestrator,
    queue: &mut Vec<ParseResponse>,
    out: &mut Vec<ParseResponse>,
    Ghost(done): Ghost<Seq<ResponseV>>,
)
    requires
        old(o).wf(),
        !old(o).cancelled(),
        old(queue)@.len() > 0,
        resp_ids(old(queue)@).to_multiset() == old(o).in_flight_ids().to_multiset(),
        resp_ids(old(out)@).to_multiset() == old(o).emitted().to_multiset(),
        resp_views(old(out)@).to_multiset().add(resp_views(old(queue)@).to_multiset())
            == done.to_multiset(),
        trees_wf(old(queue)@),
        trees_wf(old(out)@),
    ensures
        trees_wf(final(queue)@),
        trees_wf(final(out)@),
        final(o).wf(),
        !final(o).cancelled(),
        final(o).bound() == old(o).bound(),
        final(o).accepted() == old(o).accepted(),
        final(o).input_closed() == old(o).input_closed(),
        final(queue)@.len() + 1 == old(queue)@.len(),
        final(o).in_flight_count() + 1 == old(o).in_flight_count(),
        resp_ids(final(queue)@).to_multiset() == final(o).in_flight_ids().to_multiset(),
        resp_ids(final(out)@).to_multiset() == final(o).emitted().to_multiset(),
        resp_views(final(out)@).to_multiset().add(resp_views(final(queue)@).to_multiset())
            == done.to_multiset(),
{
    let ghost q0 = queue@;
    let ghost out0 = out@;
    let resp = queue.remove(0);
    assert(trees_wf(queue@)) by {
        assert forall|k: int| 0 <= k < queue@.len() && (#[trigger] queue@[k]).root.is_some() implies node_wf(
            node_view(queue@[k].root.unwrap())) by {
            assert(queue@[k] == q0[k + 1]);
        }
    }
    assert(resp == q0[0]);
    proof {
        assert(resp_ids(q0)[0] == resp.file_id@);
        vstd::seq_lib::to_multiset_contains(resp_ids(q0), resp.file_id@);
        vstd::seq_lib::to_multiset_contains(o.in_flight_ids(), resp.file_id@);
        assert(resp_ids(queue@) =~= resp_ids(q0).remove(0));
        assert(resp_views(queue@) =~= resp_views(q0).remove(0));
    }
    let ghost v = response_view(resp);
    let ghost id = resp.file_id@;
    let r = o.complete(resp);
    match r {
        Some(x) => {
            out.push(x);
            assert(trees_wf(out@)) by {
                assert forall|k: int| 0 <= k < out@.len() && (#[trigger] out@[k]).root.is_some() implies node_wf(
                    node_view(out@[k].root.unwrap())) by {
                    if k < out0.len() {
                        assert(out@[k] == out0[k]);
                    }
                }
            }
            proof {
                assert(resp_ids(out@) =~= resp_ids(out0).push(id));
                assert(resp_views(out@) =~= resp_views(out0).push(v));
                assert(resp_views(q0)[0] == v);
                assert(resp_views(out@).to_multiset().add(resp_views(queue@).to_multiset())
                    =~= resp_views(out0).to_multiset().add(resp_views(q0).to_multiset()));
            }
        },
        None => {},
    }
}

/// Parses a whole batch with at most `bound` parses in flight, each finished parse being
/// forwarded oldest first when a slot is needed. Every request gets exactly the response that
/// `parse_one` gives it; the order may differ, the responses as a whole do not.
pub fn run_batch(reg: &Registry, reqs: &Vec<ParseRequest>, bound: usize) -> (r: Vec<ParseResponse>)
    requires
        bound > 0,
    ensures
        r@.len() == reqs@.len(),
        resp_views(r@).to_multiset() == expected_responses(*reg, reqs@).to_multiset(),
        resp_ids(r@).to_multiset() == req_ids(reqs@).to_multiset(),
        trees_wf(r@),
{
    let mut o = Orchestrator::new(bound);
    let mut queue: Vec<ParseResponse> = Vec::new();
    let mut out: Vec<ParseResponse> = Vec::new();
    let mut i: usize = 0;
    assert(resp_ids(queue@).to_multiset() =~= o.in_flight_ids().to_multiset());
    assert(resp_views(out@).to_multiset().add(resp_views(queue@).to_multiset()) =~= expected_responses(
        *reg,
        reqs@.subrange(0, 0),
    ).to_multiset());
    while i < reqs.len()
        invariant
            i <= reqs@.len(),
            o.wf(),
            !o.cancelled(),
            !o.input_closed(),
            o.bound() == bound,
            o.accepted() == req_ids(reqs@.subrange(0, i as int)),
            queue@.len() == o.in_flight_count(),
            resp_ids(queue@).to_multiset() == o.in_flight_ids().to_multiset(),
            resp_ids(out@).to_multiset() == o.emitted().to_multiset(),
            resp_views(out@).to_multiset().add(resp_views(queue@).to_multiset())
                == expected_responses(*reg, reqs@.subrange(0, i as int)).to_multiset(),
            trees_wf(queue@),
            trees_wf(out@),
        decreases reqs@.len() - i,
    {
        if !o.has_slot() {
            forward_oldest(
                &mut o,
                &mut queue,
                &mut out,
                Ghost(expected_responses(*reg, reqs@.subrange(0, i as int))),
            );
        }
        let ghost q0 = queue@;
        let ghost ids0 = o.in_flight_ids();
        o.dispatch(&reqs[i]);
        let resp = parse_one(reg, &reqs[i]);
        queue.push(resp);
        assert(trees_wf(queue@)) by {
            assert forall|k: int| 0 <= k < queue@.len() && (#[trigger] queue@[k]).root.is_some() implies node_wf(
                node_view(queue@[k].root.unwrap())) by {
                if k < q0.len() {
                    assert(queue@[k] == q0[k]);
                }
            }
        }
        proof {
            assert(resp_ids(queue@) =~= resp_ids(q0).push(reqs@[i as int].file_id@));
            assert(resp_views(queue@) =~= resp_views(q0).push(
                request_response(reg.adapters(), reqs@[i as int]),
            ));
            assert(reqs@.subrange(0, i + 1) =~= reqs@.subrange(0, i as int).push(reqs@[i as int]));
            assert(req_ids(reqs@.subrange(0, i + 1)) =~= req_ids(reqs@.subrange(0, i as int)).push(
                reqs@[i as int].file_id@,
            ));
            assert(expected_responses(*reg, reqs@.subrange(0, i + 1)) =~= expected_responses(
                *reg,
                reqs@.subrange(0, i as int),
            ).push(request_response(reg.adapters(), reqs@[i as int])));
            assert(resp_views(out@).to_multiset().add(resp_views(queue@).to_multiset())
                =~= expected_responses(*reg, reqs@.subrange(0, i + 1)).to_multiset());
        }
        i += 1;
    }
    o.close_input();
    assert(reqs@.subrange(0, i as int) =~= reqs@);
    while queue.len() > 0
        invariant
            o.wf(),
            !o.cancelled(),
            o.accepted() == req_ids(reqs@),
            queue@.len() == o.in_flight_count(),
            resp_ids(queue@).to_multiset() == o.in_flight_ids().to_multiset(),
            resp_ids(out@).to_multiset() == o.emitted().to_multiset(),
            resp_views(out@).to_multiset().add(resp_views(queue@).to_multiset())
                == expected_responses(*reg, reqs@).to_multiset(),
            trees_wf(queue@),
            trees_wf(out@),
        decreases queue@.len(),
    {
        forward_oldest(&mut o, &mut queue, &mut out, Ghost(expected_responses(*reg, reqs@)));
    }
    proof {
        lemma_correlation(o);
        assert(resp_views(queue@).to_multiset() =~= Multiset::empty());
        assert(resp_views(out@).to_multiset() =~= expected_responses(*reg, reqs@).to_multiset());
        assert(resp_views(out@).len() == resp_views(out@).to_multiset().len());
        assert(expected_responses(*reg, reqs@).len() == expected_responses(*reg, reqs@).to_multiset().len());
    }
    out
}

/// A response that reports an error.
pub open spec fn is_error(v: ResponseV) -> bool {
    v.result is None
}

/// Number of error responses in `vs`.
pub open spec fn error_count(vs: Seq<ResponseV>) -> nat
    decreases vs.len(),
{
    if vs.len() == 0 {
        0
    } else {
        error_count(vs.drop_last()) + if is_error(vs.last()) {
            1nat
        } else {
            0nat
        }
    }
}

/// Number of requests in `qs` whose language `reg` does not know.
pub open spec fn unsupported_count(reg: Registry, qs: Seq<ParseRequest>) -> nat
    decreases qs.len(),
{
    if qs.len() == 0 {
        0
    } else {
        unsupported_count(reg, qs.drop_last()) + if index_of_name(
            reg.adapters(),
            qs.last().language@,
            0,
        ) == -1 {
            1nat
        } else {
            0nat
        }
    }
}

proof fn lemma_error_count_remove(vs: Seq<ResponseV>, j: int)
    requires
        0 <= j < vs.len(),
    ensures
        error_count(vs) == error_count(vs.remove(j)) + if is_error(vs[j]) {
            1nat
        } else {
            0nat
        },
    decreases vs.len(),
{
    if j < vs.len() - 1 {
        lemma_error_count_remove(vs.drop_last(), j);
        assert(vs.remove(j).drop_last() =~= vs.drop_last().remove(j));
        assert(vs.remove(j).last() == vs.last());
    } else {
        assert(vs.remove(j) =~= vs.drop_last());
    }
}

proof fn lemma_error_count_multiset(a: Seq<ResponseV>, b: Seq<ResponseV>)
    requires
        a.to_multiset() == b.to_multiset(),
    ensures
        error_count(a) == error_count(b),
    decreases a.len(),
{
    if a.len() == 0 {
        assert(b.len() == b.to_multiset().len());
        assert(b.len() == 0);
    } else {
        let x = a.last();
        assert(a =~= a.drop_last().push(x));
        assert(a.to_multiset().count(x) > 0);
        vstd::seq_lib::to_multiset_contains(b, x);
        let j = choose|j: int| 0 <= j < b.len() && b[j] == x;
        assert(b.remove(j).to_multiset() == b.to_multiset().remove(x));
        assert(a.drop_last().to_multiset() =~= a.to_multiset().remove(x));
        lemma_error_count_multiset(a.drop_last(), b.remove(j));
        lemma_error_count_remove(b, j);
    }
}

proof fn lemma_expected_errors(reg: Registry, qs: Seq<ParseRequest>)
    ensures
        error_count(expected_responses(reg, qs)) == unsupported_count(reg, qs),
    decreases qs.len(),
{
    if qs.len() > 0 {
        lemma_expected_errors(reg, qs.drop_last());
        assert(expected_responses(reg, qs).drop_last() =~= expected_responses(reg, qs.drop_last()));
    }
}

/// Failure isolation: in the responses of a batch, the error responses are exactly as many as
/// the requests with an unsupported language, and every other response carries a result.
pub proof fn lemma_failure_isolation(reg: Registry, reqs: Seq<ParseRequest>, out: Seq<ParseResponse>)
    requires
        resp_views(out).to_multiset() == expected_responses(reg, reqs).to_multiset(),
    ensures
        error_count(resp_views(out)) == unsupported_count(reg, reqs),
        out.len() == reqs.len(),
{
    lemma_error_count_multiset(resp_views(out), expected_responses(reg, reqs));
    lemma_expected_errors(reg, reqs);
    assert(resp_views(out).len() == resp_views(out).to_multiset().len());
    assert(expected_responses(reg, reqs).len() == expected_responses(reg, reqs).to_multiset().len());
}

/// In the responses of a batch, every error response carries the id of a request whose
/// language is unsupported, and every other response the id of a request whose language is
/// supported. With the count of `lemma_failure_isolation`: one unsupported request among valid
/// ones gives exactly one error response, and it carries that request's id when ids are distinct.
pub proof fn lemma_error_responses_correlate(reg: Registry, reqs: Seq<ParseRequest>, out: Seq<ParseResponse>, k: int)
    requires
        resp_views(out).to_multiset() == expected_responses(reg, reqs).to_multiset(),
        0 <= k < out.len(),
    ensures
        exists|i: int|
            0 <= i < reqs.len() && (#[trigger] reqs[i]).file_id@ == out[k].file_id@ && (index_of_name(
                reg.adapters(),
                reqs[i].language@,
                0,
            ) == -1) == is_error(response_view(out[k])),
{
    let v = response_view(out[k]);
    assert(resp_views(out)[k] == v);
    vstd::seq_lib::to_multiset_contains(resp_views(out), v);
    vstd::seq_lib::to_multiset_contains(expected_responses(reg, reqs), v);
    let i = choose|i: int| 0 <= i < expected_responses(reg, reqs).len() && expected_responses(reg, reqs)[i] == v;
    assert(expected_responses(reg, reqs)[i] == request_response(reg.adapters(), reqs[i]));
}

/// A batch of one request yields the very response that parsing that request alone gives.
pub proof fn lemma_single_batch(reg: Registry, req: ParseRequest, out: Seq<ParseResponse>)
    requires
        resp_views(out).to_multiset() == expected_responses(reg, seq![req]).to_multiset(),
    ensures
        out.len() == 1,
        response_view(out[0]) == request_response(reg.adapters(), req),
{
    let e = expected_responses(reg, seq![req]);
    assert(e =~= seq![request_response(reg.adapters(), req)]);
    assert(resp_views(out).len() == resp_views(out).to_multiset().len());
    assert(e.len() == e.to_multiset().len());
    assert(resp_views(out)[0] == response_view(out[0]));
    vstd::seq_lib::to_multiset_contains(resp_views(out), response_view(out[0]));
    vstd::seq_lib::to_multiset_contains(e, response_view(out[0]));
}

/// Correlation: the ids of a batch's responses are the ids of its requests.
pub proof fn lemma_batch_ids(reqs: Seq<ParseRequest>, out: Seq<ParseResponse>)
    requires
        resp_ids(out).to_multiset() == req_ids(reqs).to_multiset(),
    ensures
        resp_ids(out).to_set() == req_ids(reqs).to_set(),
{
    assert forall|x: Seq<char>| resp_ids(out).contains(x) <==> req_ids(reqs).contains(x) by {
        vstd::seq_lib::to_multiset_contains(resp_ids(out), x);
        vstd::seq_lib::to_multiset_contains(req_ids(reqs), x);
    }
    assert(resp_ids(out).to_set() =~= req_ids(reqs).to_set());
}

} // verus!
