//! The cassette state: either a growing capture log or a consumable replay
//! queue.

use vstd::prelude::*;

use crate::engine::ProxyError;
use crate::types::distinct_headers;
use crate::types::exchanges_model;
use crate::types::Exchange;
use crate::types::ExchangeModel;
use crate::types::Request;

verus! {

/// Which of the two modes a cassette runs in.
#[derive(Clone, Copy, Debug, PartialEq, Eq, Structural)]
pub enum Mode {
    /// The proxy forwards real traffic and records it.
    Capturing,
    /// The proxy answers from the recorded queue without network access.
    Replaying,
}

/// The recorded (or to-be-replayed) exchanges of one test run. Capturing
/// holds an append-only log and the file path to write at teardown;
/// replaying holds a queue consumed once per incoming request, in order.
pub enum Cassette {
    /// An append-only capture log, with its destination path.
    Capturing { log: Vec<Exchange>, path: String },
    /// A replay queue, consumed from the front.
    Replaying { queue: Vec<Exchange> },
}

/// Every recorded exchange in a list is well formed.
pub open spec fn all_wf(v: Seq<Exchange>) -> bool {
    forall|i: int| 0 <= i < v.len() ==> (#[trigger] v[i]).wf()
}

impl Cassette {
    /// The recorded exchanges, in order, whichever mode holds them.
    pub open spec fn contents(&self) -> Seq<ExchangeModel> {
        match self {
            Cassette::Capturing { log, .. } => exchanges_model(log@),
            Cassette::Replaying { queue } => exchanges_model(queue@),
        }
    }

    /// A cassette is well formed when every exchange it holds is.
    pub open spec fn wf(&self) -> bool {
        match self {
            Cassette::Capturing { log, .. } => all_wf(log@),
            Cassette::Replaying { queue } => all_wf(queue@),
        }
    }

    /// The mode this cassette was fixed to at startup.
    pub open spec fn spec_mode(&self) -> Mode {
        match self {
            Cassette::Capturing { .. } => Mode::Capturing,
            Cassette::Replaying { .. } => Mode::Replaying,
        }
    }

    /// The destination path of a capture log; empty for a replay queue.
    pub open spec fn spec_path(&self) -> Seq<char> {
        match self {
            Cassette::Capturing { path, .. } => path@,
            Cassette::Replaying { .. } => Seq::<char>::empty(),
        }
    }

    /// An empty capture log bound to its destination path.
    pub fn new_capturing(path: String) -> (r: Cassette)
        ensures
            r.wf(),
            r.spec_mode() == Mode::Capturing,
            r.contents() =~= Seq::<ExchangeModel>::empty(),
            r.spec_path() == path@,
    {
        Cassette::Capturing { log: Vec::new(), path }
    }

    /// A replay queue over the given exchanges, taken in order. Each recorded
    /// request's header list is collapsed to a duplicate-free one denoting
    /// the same header set, so that replay matching consumes it as a set.
    pub fn new_replaying(exchanges: Vec<Exchange>) -> (r: Cassette)
        ensures
            r.wf(),
            r.spec_mode() == Mode::Replaying,
            r.contents().len() == exchanges@.len(),
            forall|i: int|
                0 <= i < exchanges@.len() ==> normalized_exchange(
                    exchanges_model(exchanges@)[i],
                    #[trigger] r.contents()[i],
                ),
    {
        let ghost given = exchanges_model(exchanges@);
        let mut input = exchanges;
        let mut queue: Vec<Exchange> = Vec::new();
        while input.len() > 0
            invariant
                exchanges_model(input@) =~= given.skip(queue@.len() as int),
                queue@.len() + input@.len() == given.len(),
                all_wf(queue@),
                forall|i: int|
                    0 <= i < queue@.len() ==> normalized_exchange(
                        given[i],
                        #[trigger] exchanges_model(queue@)[i],
                    ),
            decreases input@.len(),
        {
            let ghost k = queue@.len() as int;
            let ghost pre_seq = input@;
            let ghost pre_input = exchanges_model(input@);
            let e = input.remove(0);
            proof {
                assert(pre_input =~= given.skip(k));
                assert(pre_input.len() == given.len() - k);
                assert(0 <= k < given.len());
                assert(pre_input[0] == given.skip(k)[0]);
                assert(given.skip(k)[0] == given[k]);
                assert(e == pre_seq[0]);
                assert(e@ == pre_input[0]);
                assert(input@ =~= pre_seq.remove(0));
                assert forall|i: int| 0 <= i < exchanges_model(input@).len()
                    implies exchanges_model(input@)[i] == given.skip(k + 1)[i] by {
                    assert(input@[i] == pre_seq[i + 1]);
                    assert(exchanges_model(input@)[i] == pre_input[i + 1]);
                    assert(pre_input[i + 1] == given.skip(k)[i + 1]);
                    assert(given.skip(k)[i + 1] == given[k + 1 + i]);
                    assert(given.skip(k + 1)[i] == given[k + 1 + i]);
                }
                assert(exchanges_model(input@) =~= given.skip(k + 1));
            }
            let ghost em = e@;
            let Exchange { request: raw_request, response } = e;
            let Request { uri, method, headers, body } = raw_request;
            let request = Request::new(uri, method, headers, body);
            let normalized = Exchange { request, response };
            let ghost pre_q = queue@;
            queue.push(normalized);
            proof {
                assert(queue@[k] == normalized);
                assert(exchanges_model(queue@)[k] == normalized@);
                assert(normalized_exchange(em, normalized@));
                assert forall|i: int| 0 <= i < queue@.len() implies normalized_exchange(
                    given[i],
                    #[trigger] exchanges_model(queue@)[i],
                ) by {
                    if i < k {
                        assert(queue@[i] == pre_q[i]);
                        assert(exchanges_model(queue@)[i] == exchanges_model(pre_q)[i]);
                    } else {
                        assert(exchanges_model(queue@)[i] == normalized@);
                        assert(given[i] == em);
                    }
                }
                assert forall|i: int| 0 <= i < queue@.len() implies (#[trigger] queue@[i]).wf() by {
                    if i < k {
                        assert(queue@[i] == pre_q[i]);
                    }
                }
            }
        }
        let ghost qv = queue@;
        let r = Cassette::Replaying { queue };
        proof {
            assert(r.contents() =~= exchanges_model(qv));
        }
        r
    }

    /// The mode, as a value.
    pub fn mode(&self) -> (m: Mode)
        ensures
            m == self.spec_mode(),
    {
        match self {
            Cassette::Capturing { .. } => Mode::Capturing,
            Cassette::Replaying { .. } => Mode::Replaying,
        }
    }

    /// Appends one completed exchange to the capture log. Each successful
    /// capture appends exactly one exchange, at the end, leaving all earlier
    /// entries in place: N captures yield exactly N exchanges, in request
    /// order.
    pub fn append(&mut self, e: Exchange)
        requires
            old(self).spec_mode() == Mode::Capturing,
            old(self).wf(),
            e.wf(),
        ensures
            final(self).wf(),
            final(self).spec_mode() == Mode::Capturing,
            final(self).contents() =~= old(self).contents().push(e@),
            final(self).spec_path() == old(self).spec_path(),
    {
        match self {
            Cassette::Capturing { log, .. } => {
                log.push(e);
            }
            Cassette::Replaying { .. } => {
                proof {
                    assert(false);
                }
            }
        }
    }

    /// The accumulated capture log, for final serialization.
    pub fn snapshot(&self) -> (r: &Vec<Exchange>)
        requires
            self.spec_mode() == Mode::Capturing,
        ensures
            exchanges_model(r@) == self.contents(),
    {
        match self {
            Cassette::Capturing { log, .. } => log,
            Cassette::Replaying { queue } => {
                proof {
                    assert(false);
                }
                queue
            }
        }
    }

    /// The next exchange a replay will be matched against, if any is left:
    /// what the proxy expects the next request to look like.
    pub fn peek(&self) -> (r: Option<&Exchange>)
        requires
            self.spec_mode() == Mode::Replaying,
        ensures
            r is None <==> self.contents().len() == 0,
            r matches Some(e) ==> e@ == self.contents()[0],
    {
        match self {
            Cassette::Replaying { queue } => {
                if queue.len() == 0 {
                    None
                } else {
                    Some(&queue[0])
                }
            }
            Cassette::Capturing { .. } => {
                proof {
                    assert(false);
                }
                None
            }
        }
    }

    /// Removes and returns the head of the replay queue; when more requests
    /// arrive than were recorded, the cassette is exhausted and replay must
    /// abort loudly.
    pub fn next(&mut self) -> (r: Result<Exchange, ProxyError>)
        requires
            old(self).spec_mode() == Mode::Replaying,
            old(self).wf(),
        ensures
            final(self).wf(),
            final(self).spec_mode() == Mode::Replaying,
            old(self).contents().len() == 0 ==> r == Result::<Exchange, ProxyError>::Err(
                ProxyError::ExhaustedCassette,
            ) && final(self).contents() == old(self).contents(),
            old(self).contents().len() > 0 ==> (r matches Ok(e) && e@ == old(self).contents()[0]
                && e.wf() && final(self).contents() =~= old(self).contents().drop_first()),
    {
        match self {
            Cassette::Replaying { queue } => {
                if queue.len() == 0 {
                    Err(ProxyError::ExhaustedCassette)
                } else {
                    let ghost oldq = exchanges_model(queue@);
                    let e = queue.remove(0);
                    proof {
                        assert(exchanges_model(queue@) =~= oldq.drop_first());
                        assert(e@ == oldq[0]);
                    }
                    Ok(e)
                }
            }
            Cassette::Capturing { .. } => {
                proof {
                    assert(false);
                }
                Err(ProxyError::ExhaustedCassette)
            }
        }
    }
}

/// Capture appends exactly once per exchange: each append grows the log by
/// one, puts the new exchange last, and leaves every earlier exchange at its
/// place.
pub proof fn lemma_capture_appends_in_order(log: Seq<ExchangeModel>, e: ExchangeModel)
    ensures
        log.push(e).len() == log.len() + 1,
        log.push(e)[log.len() as int] == e,
        forall|i: int| 0 <= i < log.len() ==> log.push(e)[i] == log[i],
{
}

/// The capture log after a run of successful captures: each one pushes its
/// exchange, in request order — exactly what `append`'s contract says of
/// every single capture.
pub open spec fn captured_all(log: Seq<ExchangeModel>, es: Seq<ExchangeModel>) -> Seq<
    ExchangeModel,
>
    decreases es.len(),
{
    if es.len() == 0 {
        log
    } else {
        captured_all(log.push(es[0]), es.drop_first())
    }
}

/// N successful captures yield exactly their N exchanges appended to the
/// log, in request order: nothing is dropped, duplicated or reordered.
pub proof fn lemma_n_captures_in_order(log: Seq<ExchangeModel>, es: Seq<ExchangeModel>)
    ensures
        captured_all(log, es) == log + es,
        captured_all(log, es).len() == log.len() + es.len(),
    decreases es.len(),
{
    if es.len() == 0 {
        assert(log + es =~= log);
    } else {
        lemma_n_captures_in_order(log.push(es[0]), es.drop_first());
        assert(log.push(es[0]) + es.drop_first() =~= log + es);
    }
}

/// How a replay-queue entry relates to the exchange it was loaded from: the
/// response and the request's URI, method and body are kept exactly, and the
/// request's header list denotes the same header set, duplicates collapsed.
pub open spec fn normalized_exchange(raw: ExchangeModel, e: ExchangeModel) -> bool {
    &&& e.response == raw.response
    &&& e.request.uri == raw.request.uri
    &&& e.request.method == raw.request.method
    &&& e.request.body == raw.request.body
    &&& e.request.headers.to_set() == raw.request.headers.to_set()
    &&& distinct_headers(e.request.headers)
}

} // verus!
