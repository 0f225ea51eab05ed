//! The per-request behaviour of the proxy: dispatch on the cassette mode,
//! replay against the queue, or record a completed capture.

use vstd::prelude::*;

use crate::cassette::normalized_exchange;
use crate::cassette::Cassette;
use crate::cassette::Mode;
use crate::codec::dec_cassette;
use crate::codec::decode_cassette;
use crate::codec::DecodeError;
use crate::engine::replay_request;
use crate::engine::replay_verdict;
use crate::engine::ProxyError;
use crate::types::Exchange;
use crate::types::Request;
use crate::types::Response;

verus! {

/// Chooses and loads the cassette for one run. Capture is entered only when
/// it was requested and no cassette file exists yet; an existing file is
/// always replayed, and a missing file without a capture request replays an
/// empty cassette, so that every request against it fails loudly.
pub fn plan_cassette(
    record_requested: bool,
    existing: Option<Vec<u8>>,
    path: String,
) -> (r: Result<Cassette, DecodeError>)
    ensures
        r matches Ok(c) ==> c.wf(),
        existing is None && record_requested ==> (r matches Ok(c) && c.spec_mode()
            == Mode::Capturing && c.contents().len() == 0 && c.spec_path() == path@),
        existing is None && !record_requested ==> (r matches Ok(c) && c.spec_mode()
            == Mode::Replaying && c.contents().len() == 0),
        existing matches Some(bytes) ==> {
            &&& (r is Ok <==> dec_cassette(bytes@) is Some)
            &&& (r matches Ok(c) ==> c.spec_mode() == Mode::Replaying && (
            dec_cassette(bytes@) matches Some(m) && c.contents().len() == m.len() && (forall|
                i: int,
            |
                0 <= i < m.len() ==> normalized_exchange(m[i], #[trigger] c.contents()[i]))))
        },
{
    match existing {
        None => {
            if record_requested {
                Ok(Cassette::new_capturing(path))
            } else {
                Ok(Cassette::new_replaying(Vec::new()))
            }
        }
        Some(bytes) => {
            match decode_cassette(&bytes) {
                Ok(exchanges) => Ok(Cassette::new_replaying(exchanges)),
                Err(e) => Err(e),
            }
        }
    }
}

/// Serves one request in replay mode: pops the next recorded exchange and
/// matches the incoming request against it. An empty queue is an exhausted
/// cassette; a disagreement is a request mismatch; otherwise the recorded
/// response is returned and one exchange has been consumed.
pub fn replay_step(cassette: &mut Cassette, incoming: &Request) -> (r: Result<
    Response,
    ProxyError,
>)
    requires
        old(cassette).spec_mode() == Mode::Replaying,
        old(cassette).wf(),
    ensures
        final(cassette).spec_mode() == Mode::Replaying,
        final(cassette).wf(),
        old(cassette).contents().len() == 0 ==> r == Result::<Response, ProxyError>::Err(
            ProxyError::ExhaustedCassette,
        ) && final(cassette).contents() == old(cassette).contents(),
        old(cassette).contents().len() > 0 ==> {
            &&& final(cassette).contents() == old(cassette).contents().drop_first()
            &&& (replay_verdict(incoming@, old(cassette).contents()[0].request) is Ok ==> (r
                matches Ok(resp) && resp@ == old(cassette).contents()[0].response))
            &&& (replay_verdict(incoming@, old(cassette).contents()[0].request) matches Err(k)
                ==> r == Result::<Response, ProxyError>::Err(ProxyError::RequestMismatch(k)))
        },
{
    match cassette.next() {
        Ok(recorded) => replay_request(incoming, recorded),
        Err(e) => Err(e),
    }
}

/// Records one completed capture: appends exactly one exchange, formed from
/// the request as sent and the response as received.
pub fn capture_step(cassette: &mut Cassette, request: Request, response: Response)
    requires
        old(cassette).spec_mode() == Mode::Capturing,
        old(cassette).wf(),
        request.wf(),
    ensures
        final(cassette).spec_mode() == Mode::Capturing,
        final(cassette).wf(),
        final(cassette).spec_path() == old(cassette).spec_path(),
        final(cassette).contents().len() == old(cassette).contents().len() + 1,
        final(cassette).contents() =~= old(cassette).contents().push(
            crate::types::ExchangeModel { request: request@, response: response@ },
        ),
{
    let e = Exchange::new(request, response);
    cassette.append(e);
}

} // verus!
