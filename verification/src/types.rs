//! The exchange data model: requests, responses and recorded exchanges,
//! together with their mathematical views.

use vstd::prelude::*;

verus! {

/// One HTTP header as a name/value pair.
pub type Header = (String, String);

/// The mathematical view of a header: its name and value as character
/// sequences.
pub type HeaderModel = (Seq<char>, Seq<char>);

/// The view of one header pair.
pub open spec fn header_model(h: Header) -> HeaderModel {
    (h.0@, h.1@)
}

/// The view of a header list, in list order.
pub open spec fn headers_model(hs: Seq<Header>) -> Seq<HeaderModel> {
    hs.map_values(|h: Header| header_model(h))
}

/// Header lists carry set semantics: two lists describe the same header set
/// when their members coincide. A well-formed list holds no duplicate pair.
pub open spec fn distinct_headers(hs: Seq<HeaderModel>) -> bool {
    forall|i: int, j: int| 0 <= i < j < hs.len() ==> hs[i] != hs[j]
}

/// The mathematical view of a recorded request.
pub struct RequestModel {
    pub uri: Seq<char>,
    pub method: Seq<char>,
    pub headers: Seq<HeaderModel>,
    pub body: Seq<u8>,
}

/// The mathematical view of a recorded response.
pub struct ResponseModel {
    pub status: u16,
    pub headers: Seq<HeaderModel>,
    pub body: Seq<u8>,
}

/// The mathematical view of one exchange.
pub struct ExchangeModel {
    pub request: RequestModel,
    pub response: ResponseModel,
}

/// One recorded HTTP request: method, URI, header set and full body.
#[derive(Debug)]
pub struct Request {
    pub uri: String,
    pub method: String,
    pub headers: Vec<Header>,
    pub body: Vec<u8>,
}

/// One recorded HTTP response: status code, header set and full body.
#[derive(Debug)]
pub struct Response {
    pub status: u16,
    pub headers: Vec<Header>,
    pub body: Vec<u8>,
}

/// One completed request/response pair.
#[derive(Debug)]
pub struct Exchange {
    pub request: Request,
    pub response: Response,
}

impl View for Request {
    type V = RequestModel;

    open spec fn view(&self) -> RequestModel {
        RequestModel {
            uri: self.uri@,
            method: self.method@,
            headers: headers_model(self.headers@),
            body: self.body@,
        }
    }
}

impl View for Response {
    type V = ResponseModel;

    open spec fn view(&self) -> ResponseModel {
        ResponseModel {
            status: self.status,
            headers: headers_model(self.headers@),
            body: self.body@,
        }
    }
}

impl View for Exchange {
    type V = ExchangeModel;

    open spec fn view(&self) -> ExchangeModel {
        ExchangeModel { request: self.request@, response: self.response@ }
    }
}

impl Request {
    /// A request is well formed when its header list carries no duplicate
    /// pair, so that it denotes a header set directly.
    pub open spec fn wf(&self) -> bool {
        distinct_headers(self@.headers)
    }
}

impl Exchange {
    /// An exchange is well formed when its recorded request is: replay
    /// matching consumes the recorded request's headers as a set.
    pub open spec fn wf(&self) -> bool {
        self.request.wf()
    }
}

/// The view of an exchange list, in list order.
pub open spec fn exchanges_model(v: Seq<Exchange>) -> Seq<ExchangeModel> {
    v.map_values(|e: Exchange| e@)
}

/// Whether two header pairs are equal, decided on the character sequences.
pub fn header_eq(a: &Header, b: &Header) -> (r: bool)
    ensures
        r == (header_model(*a) == header_model(*b)),
{
    let name_eq = a.0 == b.0;
    let value_eq = a.1 == b.1;
    name_eq && value_eq
}

/// Whether two byte strings are equal.
pub fn bytes_eq(a: &Vec<u8>, b: &Vec<u8>) -> (r: bool)
    ensures
        r == (a@ == b@),
{
    if a.len() != b.len() {
        return false;
    }
    let mut i: usize = 0;
    while i < a.len()
        invariant
            a@.len() == b@.len(),
            i <= a@.len(),
            forall|k: int| 0 <= k < i ==> a@[k] == b@[k],
        decreases a@.len() - i,
    {
        if a[i] != b[i] {
            return false;
        }
        i += 1;
    }
    proof {
        assert(a@ =~= b@);
    }
    true
}

/// Whether `hs` holds a pair equal to `h`.
pub fn contains_header(hs: &Vec<Header>, h: &Header) -> (r: bool)
    ensures
        r == headers_model(hs@).contains(header_model(*h)),
{
    let mut i: usize = 0;
    while i < hs.len()
        invariant
            i <= hs@.len(),
            forall|k: int| 0 <= k < i ==> headers_model(hs@)[k] != header_model(*h),
        decreases hs@.len() - i,
    {
        if header_eq(&hs[i], h) {
            assert(headers_model(hs@)[i as int] == header_model(*h));
            return true;
        }
        i += 1;
    }
    assert(forall|k: int| 0 <= k < hs@.len() ==> headers_model(hs@)[k] != header_model(*h));
    false
}

impl Request {
    /// Builds a recorded request, collapsing duplicate header pairs so the
    /// list denotes a header set.
    pub fn new(uri: String, method: String, headers: Vec<Header>, body: Vec<u8>) -> (r: Request)
        ensures
            r.wf(),
            r@.uri == uri@,
            r@.method == method@,
            r@.headers.to_set() == headers_model(headers@).to_set(),
            r@.body == body@,
    {
        let deduped = dedup_headers(&headers);
        Request { uri, method, headers: deduped, body }
    }
}

impl Response {
    /// Builds a recorded response, collapsing duplicate header pairs so the
    /// list denotes a header set.
    pub fn new(status: u16, headers: Vec<Header>, body: Vec<u8>) -> (r: Response)
        ensures
            r@.status == status,
            r@.headers.to_set() == headers_model(headers@).to_set(),
            distinct_headers(r@.headers),
            r@.body == body@,
    {
        let deduped = dedup_headers(&headers);
        Response { status, headers: deduped, body }
    }
}

impl Exchange {
    /// Pairs a completed request and response.
    pub fn new(request: Request, response: Response) -> (r: Exchange)
        requires
            request.wf(),
        ensures
            r.wf(),
            r@.request == request@,
            r@.response == response@,
    {
        Exchange { request, response }
    }
}

/// Membership in a model sequence and in the set it denotes coincide.
pub proof fn lemma_model_set_contains(ms: Seq<HeaderModel>, m: HeaderModel)
    ensures
        ms.to_set().contains(m) == ms.contains(m),
{
}

/// Pushing a pair inserts its model into the denoted set.
pub proof fn lemma_model_push_set(ms: Seq<HeaderModel>, m: HeaderModel)
    ensures
        ms.push(m).to_set() =~= ms.to_set().insert(m),
{
    assert forall|x: HeaderModel| ms.push(m).to_set().contains(x)
        <==> ms.to_set().insert(m).contains(x) by {
        if ms.push(m).contains(x) {
            let k = choose|k: int| 0 <= k < ms.push(m).len() && ms.push(m)[k] == x;
            if k < ms.len() {
                assert(ms.contains(x));
            }
        }
        if ms.contains(x) {
            let k = choose|k: int| 0 <= k < ms.len() && ms[k] == x;
            assert(ms.push(m)[k] == x);
        }
        if x == m {
            assert(ms.push(m)[ms.len() as int] == x);
        }
    }
}

/// How a push extends the view of a header list.
pub proof fn lemma_headers_model_push(hs: Seq<Header>, h: Header)
    ensures
        headers_model(hs.push(h)) =~= headers_model(hs).push(header_model(h)),
{
}

/// Copies a header list, dropping every pair already seen: the result denotes
/// the same header set and holds no duplicates.
pub fn dedup_headers(hs: &Vec<Header>) -> (r: Vec<Header>)
    ensures
        distinct_headers(headers_model(r@)),
        headers_model(r@).to_set() == headers_model(hs@).to_set(),
{
    let mut out: Vec<Header> = Vec::new();
    let mut i: usize = 0;
    proof {
        assert(headers_model(out@).to_set() =~= headers_model(hs@.take(0)).to_set());
    }
    while i < hs.len()
        invariant
            i <= hs@.len(),
            distinct_headers(headers_model(out@)),
            headers_model(out@).to_set() == headers_model(hs@.take(i as int)).to_set(),
        decreases hs@.len() - i,
    {
        let ghost pre_seq = out@;
        let ghost pre_out = headers_model(out@);
        let h = (hs[i].0.clone(), hs[i].1.clone());
        let ghost m = header_model(h);
        proof {
            assert(m == headers_model(hs@)[i as int]);
        }
        let already = contains_header(&out, &h);
        if !already {
            out.push(h);
            proof {
                lemma_headers_model_push(pre_seq, h);
                assert(headers_model(out@) =~= pre_out.push(m));
                assert forall|a: int, b: int|
                    0 <= a < b < headers_model(out@).len()
                        implies headers_model(out@)[a] != headers_model(out@)[b] by {
                    if b == pre_out.len() {
                        assert(!pre_out.contains(m));
                        assert(headers_model(out@)[a] == pre_out[a]);
                    }
                }
                lemma_model_push_set(pre_out, m);
            }
        }
        proof {
            assert(hs@.take(i + 1) =~= hs@.take(i as int).push(hs@[i as int]));
            lemma_headers_model_push(hs@.take(i as int), hs@[i as int]);
            assert(headers_model(hs@.take(i + 1)) =~= headers_model(hs@.take(i as int)).push(m));
            lemma_model_push_set(headers_model(hs@.take(i as int)), m);
            if already {
                lemma_model_set_contains(pre_out, m);
                assert(headers_model(out@).to_set() =~= headers_model(hs@.take(i + 1)).to_set());
            }
        }
        i += 1;
    }
    proof {
        assert(hs@.take(hs@.len() as int) =~= hs@);
    }
    out
}

} // verus!
