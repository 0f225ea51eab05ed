//! The per-request matching rules of the proxy: exemption of volatile
//! headers, header-set comparison, and the full replay verdict.

use vstd::prelude::*;
use vstd::string::StrSliceExecFns;
use vstd::string::StringExecFns;

use crate::types::distinct_headers;
use crate::types::header_eq;
use crate::types::header_model;
use crate::types::headers_model;
use crate::types::lemma_model_push_set;
use crate::types::Exchange;
use crate::types::Header;
use crate::types::HeaderModel;
use crate::types::Request;
use crate::types::RequestModel;
use crate::types::Response;

verus! {

/// Two characters equal up to ASCII case: identical, or the same letter in
/// the two cases (the code points of `A`..`Z` sit 32 below `a`..`z`).
pub open spec fn chars_eq_nocase(a: char, b: char) -> bool {
    let x = a as u32;
    let y = b as u32;
    ||| x == y
    ||| (65 <= x <= 90 && y == x + 32)
    ||| (65 <= y <= 90 && x == y + 32)
}

/// Whether `p` is a prefix of `s` up to ASCII case. HTTP header names are
/// case-insensitive, and different transports present them in different
/// casings.
pub open spec fn prefix_eq_nocase(p: Seq<char>, s: Seq<char>) -> bool {
    p.len() <= s.len() && forall|i: int| 0 <= i < p.len() ==> chars_eq_nocase(p[i], s[i])
}

/// A header name exempt from replay comparison: `Date` and `Authorization`
/// headers vary from run to run and never break a replay, in whatever casing
/// the transport hands them over.
pub open spec fn spec_exempt(name: Seq<char>) -> bool {
    prefix_eq_nocase("Date"@, name) || prefix_eq_nocase("Authorization"@, name)
}

/// Compares two characters up to ASCII case.
fn char_eq_nocase(a: char, b: char) -> (r: bool)
    ensures
        r == chars_eq_nocase(a, b),
{
    let x = a as u32;
    let y = b as u32;
    x == y || (65 <= x && x <= 90 && y == x + 32) || (65 <= y && y <= 90 && x == y + 32)
}

/// Whether `p` is a prefix of `s` up to ASCII case, decided character by
/// character.
fn str_starts_with_nocase(s: &str, p: &str) -> (b: bool)
    ensures
        b == prefix_eq_nocase(p@, s@),
{
    let n = p.unicode_len();
    if s.unicode_len() < n {
        return false;
    }
    let mut i: usize = 0;
    while i < n
        invariant
            i <= n,
            n == p@.len(),
            s@.len() >= n,
            forall|k: int| 0 <= k < i ==> chars_eq_nocase(p@[k], s@[k]),
        decreases n - i,
    {
        if !char_eq_nocase(p.get_char(i), s.get_char(i)) {
            return false;
        }
        i += 1;
    }
    true
}

/// Whether `p` is exactly a prefix of `s`, decided character by character.
fn str_starts_with(s: &str, p: &str) -> (b: bool)
    ensures
        b == p@.is_prefix_of(s@),
{
    let n = p.unicode_len();
    if s.unicode_len() < n {
        return false;
    }
    let mut i: usize = 0;
    while i < n
        invariant
            i <= n,
            n == p@.len(),
            s@.len() >= n,
            forall|k: int| 0 <= k < i ==> p@[k] == s@[k],
        decreases n - i,
    {
        if p.get_char(i) != s.get_char(i) {
            proof {
                if p@.is_prefix_of(s@) {
                    assert(p@[i as int] == s@.subrange(0, n as int)[i as int]);
                }
            }
            return false;
        }
        i += 1;
    }
    proof {
        assert(p@ =~= s@.subrange(0, n as int));
    }
    true
}

/// Whether this header name is exempt from comparison.
pub fn name_is_exempt(name: &String) -> (b: bool)
    ensures
        b == spec_exempt(name@),
{
    let date = str_starts_with_nocase(name.as_str(), "Date");
    let auth = str_starts_with_nocase(name.as_str(), "Authorization");
    date || auth
}

/// Why a replayed request failed to match the recorded one.
#[derive(Clone, Copy, Debug, PartialEq, Eq, Structural)]
pub enum MismatchKind {
    /// The URIs differ.
    Uri,
    /// The methods differ.
    Method,
    /// The incoming request carries a significant header the recorded one
    /// lacks, or carries it twice.
    UnexpectedHeader,
    /// The recorded request carries a significant header the incoming one
    /// lacks.
    MissingHeader,
    /// The bodies differ.
    Body,
}

/// A failure of the proxy core.
#[derive(Clone, Copy, Debug, PartialEq, Eq, Structural)]
pub enum ProxyError {
    /// More requests arrived than the cassette recorded.
    ExhaustedCassette,
    /// The incoming request disagrees with the next recorded exchange.
    RequestMismatch(MismatchKind),
}

/// The significant headers of a list: the set of pairs whose name is not
/// exempt from comparison.
pub open spec fn significant(ms: Seq<HeaderModel>) -> Set<HeaderModel> {
    ms.to_set().filter(|m: HeaderModel| !spec_exempt(m.0))
}

/// No significant pair occurs twice.
pub open spec fn significant_distinct(ms: Seq<HeaderModel>) -> bool {
    forall|i: int, j: int|
        0 <= i < j < ms.len() && !spec_exempt(ms[i].0) ==> ms[i] != ms[j]
}

/// When an incoming header list matches a recorded one: ignoring exempt
/// names, the two denote the same header set, and the incoming list repeats
/// no significant pair.
pub open spec fn headers_match(inc: Seq<HeaderModel>, rec: Seq<HeaderModel>) -> bool {
    significant_distinct(inc) && significant(inc) == significant(rec)
}

/// Some significant incoming pair is absent from the recorded list, or is a
/// repetition of an earlier incoming pair.
pub open spec fn has_unexpected(inc: Seq<HeaderModel>, rec: Seq<HeaderModel>) -> bool {
    exists|i: int|
        0 <= i < inc.len() && !spec_exempt(inc[i].0) && (!rec.contains(inc[i]) || exists|j: int|
            0 <= j < i && inc[j] == inc[i])
}

/// Some significant recorded pair is absent from the incoming list.
pub open spec fn has_missing(inc: Seq<HeaderModel>, rec: Seq<HeaderModel>) -> bool {
    exists|k: int| 0 <= k < rec.len() && !spec_exempt(rec[k].0) && !inc.contains(rec[k])
}

/// Header matching succeeds exactly when no incoming pair is unexpected and
/// no recorded pair goes unmatched.
pub proof fn lemma_match_characterisation(inc: Seq<HeaderModel>, rec: Seq<HeaderModel>)
    ensures
        headers_match(inc, rec) <==> (!has_unexpected(inc, rec) && !has_missing(inc, rec)),
{
    if headers_match(inc, rec) {
        assert forall|i: int|
            0 <= i < inc.len() && !spec_exempt(inc[i].0) implies rec.contains(inc[i])
            && (forall|j: int| 0 <= j < i ==> inc[j] != inc[i]) by {
            assert(inc.contains(inc[i]));
            assert(significant(inc).contains(inc[i]));
            assert(significant(rec).contains(inc[i]));
            assert forall|j: int| 0 <= j < i implies inc[j] != inc[i] by {
                if inc[j] == inc[i] {
                    assert(!spec_exempt(inc[j].0));
                }
            }
        }
        assert(!has_unexpected(inc, rec));
        assert forall|k: int|
            0 <= k < rec.len() && !spec_exempt(rec[k].0) implies inc.contains(rec[k]) by {
            assert(rec.contains(rec[k]));
            assert(significant(rec).contains(rec[k]));
            assert(significant(inc).contains(rec[k]));
        }
        assert(!has_missing(inc, rec));
    }
    if !has_unexpected(inc, rec) && !has_missing(inc, rec) {
        assert forall|i: int, j: int|
            0 <= i < j < inc.len() && !spec_exempt(inc[i].0) implies inc[i] != inc[j] by {
            if inc[i] == inc[j] {
                assert(0 <= j < inc.len() && !spec_exempt(inc[j].0) && exists|a: int|
                    0 <= a < j && inc[a] == inc[j]);
                assert(has_unexpected(inc, rec));
            }
        }
        assert forall|m: HeaderModel| significant(inc).contains(m)
            implies significant(rec).contains(m) by {
            let i = choose|i: int| 0 <= i < inc.len() && inc[i] == m;
            assert(rec.contains(inc[i]));
        }
        assert forall|m: HeaderModel| significant(rec).contains(m)
            implies significant(inc).contains(m) by {
            let k = choose|k: int| 0 <= k < rec.len() && rec[k] == m;
            assert(inc.contains(rec[k]));
        }
        assert(significant(inc) =~= significant(rec));
    }
}

/// Replay matching ignores `Date` and `Authorization` headers: whenever two
/// header lists agree on their significant pairs, and the incoming list
/// repeats none of them, matching succeeds, whatever exempt pairs either
/// side carries.
pub proof fn lemma_exemption_invariance(h1: Seq<HeaderModel>, h2: Seq<HeaderModel>)
    requires
        significant_distinct(h1),
        significant(h1) == significant(h2),
    ensures
        headers_match(h1, h2),
{
}

/// Removing one occurrence from a duplicate-free list removes its member
/// from the denoted set and keeps the list duplicate-free.
proof fn lemma_distinct_remove(ms: Seq<HeaderModel>, idx: int)
    requires
        0 <= idx < ms.len(),
        distinct_headers(ms),
    ensures
        distinct_headers(ms.remove(idx)),
        ms.remove(idx).to_set() =~= ms.to_set().remove(ms[idx]),
{
    let rest = ms.remove(idx);
    assert forall|x: HeaderModel| rest.to_set().contains(x)
        <==> ms.to_set().remove(ms[idx]).contains(x) by {
        if rest.contains(x) {
            let k = choose|k: int| 0 <= k < rest.len() && rest[k] == x;
            if k < idx {
                assert(ms[k] == x);
                assert(ms.contains(x));
            } else {
                assert(ms[k + 1] == x);
                assert(ms.contains(x));
            }
        }
        if ms.contains(x) && x != ms[idx] {
            let k = choose|k: int| 0 <= k < ms.len() && ms[k] == x;
            if k < idx {
                assert(rest[k] == x);
            } else {
                assert(rest[k - 1] == x);
            }
            assert(rest.contains(x));
        }
    }
}

/// Finds a pair equal to `h` in `hs`.
fn find_header(hs: &Vec<Header>, h: &Header) -> (r: Option<usize>)
    ensures
        match r {
            Some(idx) => idx < hs@.len() && headers_model(hs@)[idx as int] == header_model(*h),
            None => !headers_model(hs@).contains(header_model(*h)),
        },
{
    let mut i: usize = 0;
    while i < hs.len()
        invariant
            i <= hs@.len(),
            forall|k: int| 0 <= k < i ==> headers_model(hs@)[k] != header_model(*h),
        decreases hs@.len() - i,
    {
        if header_eq(&hs[i], h) {
            assert(headers_model(hs@)[i as int] == header_model(*h));
            return Some(i);
        }
        i += 1;
    }
    None
}

/// Copies a header list; models are preserved exactly.
pub fn clone_headers(hs: &Vec<Header>) -> (r: Vec<Header>)
    ensures
        headers_model(r@) == headers_model(hs@),
{
    let mut out: Vec<Header> = Vec::new();
    let mut i: usize = 0;
    while i < hs.len()
        invariant
            i <= hs@.len(),
            out@.len() == i,
            forall|k: int| 0 <= k < i ==> headers_model(out@)[k] == headers_model(hs@)[k],
        decreases hs@.len() - i,
    {
        let h = (hs[i].0.clone(), hs[i].1.clone());
        out.push(h);
        i += 1;
    }
    proof {
        assert(headers_model(out@) =~= headers_model(hs@));
    }
    out
}

/// Copies a byte string.
pub fn clone_bytes(b: &Vec<u8>) -> (r: Vec<u8>)
    ensures
        r@ == b@,
{
    let mut out: Vec<u8> = Vec::new();
    let mut i: usize = 0;
    while i < b.len()
        invariant
            i <= b@.len(),
            out@ == b@.take(i as int),
        decreases b@.len() - i,
    {
        out.push(b[i]);
        proof {
            assert(out@ =~= b@.take(i + 1));
        }
        i += 1;
    }
    proof {
        assert(b@.take(b@.len() as int) =~= b@);
    }
    out
}

/// Compares the incoming header list against the recorded one, consuming the
/// recorded set: every significant incoming pair must be present once, and
/// every significant recorded pair must be claimed.
pub fn match_headers(incoming: &Vec<Header>, recorded: &Vec<Header>) -> (r: Result<
    (),
    MismatchKind,
>)
    requires
        distinct_headers(headers_model(recorded@)),
    ensures
        r is Ok <==> headers_match(headers_model(incoming@), headers_model(recorded@)),
        r == Result::<(), MismatchKind>::Err(MismatchKind::UnexpectedHeader) <==> has_unexpected(
            headers_model(incoming@),
            headers_model(recorded@),
        ),
        r == Result::<(), MismatchKind>::Err(MismatchKind::MissingHeader) <==> (!has_unexpected(
            headers_model(incoming@),
            headers_model(recorded@),
        ) && has_missing(headers_model(incoming@), headers_model(recorded@))),
        r is Err ==> (r == Result::<(), MismatchKind>::Err(MismatchKind::UnexpectedHeader) || r
            == Result::<(), MismatchKind>::Err(MismatchKind::MissingHeader)),
{
    let ghost inc = headers_model(incoming@);
    let ghost rec = headers_model(recorded@);
    let mut working = clone_headers(recorded);
    let mut i: usize = 0;
    proof {
        assert(inc.take(0) =~= Seq::<HeaderModel>::empty());
        assert(significant(inc.take(0)) =~= Set::<HeaderModel>::empty());
        assert(headers_model(working@).to_set() =~= rec.to_set().difference(
            significant(inc.take(0)),
        ));
    }
    while i < incoming.len()
        invariant
            i <= inc.len(),
            inc == headers_model(incoming@),
            rec == headers_model(recorded@),
            distinct_headers(rec),
            distinct_headers(headers_model(working@)),
            headers_model(working@).to_set() == rec.to_set().difference(significant(inc.take(i as int))),
            significant(inc.take(i as int)).subset_of(rec.to_set()),
            !has_unexpected(inc.take(i as int), rec),
        decreases inc.len() - i,
    {
        let h = &incoming[i];
        let ghost m = header_model(*h);
        proof {
            assert(m == inc[i as int]);
        }
        if name_is_exempt(&h.0) {
            proof {
                lemma_take_step(inc, i as int);
                lemma_significant_push(inc.take(i as int), m);
                assert(significant(inc.take(i + 1)) =~= significant(inc.take(i as int)));
                lemma_unexpected_step_exempt(inc, rec, i as int);
            }
        } else {
            let found = find_header(&working, h);
            match found {
                Some(idx) => {
                    let ghost w = headers_model(working@);
                    working.remove(idx);
                    proof {
                        assert(headers_model(working@) =~= w.remove(idx as int));
                        lemma_distinct_remove(w, idx as int);
                        assert(w.contains(m)) by {
                            assert(w[idx as int] == m);
                        }
                        assert(w.to_set().contains(m));
                        assert(!significant(inc.take(i as int)).contains(m));
                        lemma_take_step(inc, i as int);
                        lemma_significant_push(inc.take(i as int), m);
                        assert(significant(inc.take(i + 1)) =~= significant(
                            inc.take(i as int),
                        ).insert(m));
                        assert(headers_model(working@).to_set() =~= rec.to_set().difference(
                            significant(inc.take(i + 1)),
                        ));
                        lemma_unexpected_step_matched(inc, rec, i as int);
                    }
                }
                None => {
                    proof {
                        assert(!headers_model(working@).to_set().contains(m));
                        if rec.contains(m) {
                            assert(rec.to_set().contains(m));
                            assert(significant(inc.take(i as int)).contains(m));
                            let j = choose|j: int|
                                0 <= j < i && inc.take(i as int)[j] == m && !spec_exempt(
                                    inc.take(i as int)[j].0,
                                );
                            assert(inc[j] == inc[i as int]);
                            assert(has_unexpected(inc, rec));
                        } else {
                            assert(has_unexpected(inc, rec));
                        }
                        lemma_match_characterisation(inc, rec);
                    }
                    return Err(MismatchKind::UnexpectedHeader);
                }
            }
        }
        i += 1;
    }
    proof {
        assert(inc.take(inc.len() as int) =~= inc);
    }
    // Every incoming significant pair was claimed; any significant pair left
    // in the working copy was recorded but never received.
    let mut k: usize = 0;
    while k < working.len()
        invariant
            k <= working@.len(),
            rec == headers_model(recorded@),
            inc == headers_model(incoming@),
            !has_unexpected(inc, rec),
            headers_model(working@).to_set() == rec.to_set().difference(significant(inc)),
            forall|a: int| 0 <= a < k ==> spec_exempt(headers_model(working@)[a].0),
        decreases working@.len() - k,
    {
        let name_exempt = name_is_exempt(&working[k].0);
        if !name_exempt {
            proof {
                let m = headers_model(working@)[k as int];
                assert(headers_model(working@).contains(m));
                assert(headers_model(working@).to_set().contains(m));
                assert(rec.to_set().contains(m));
                assert(!significant(inc).contains(m));
                assert(!inc.contains(m)) by {
                    if inc.contains(m) {
                        assert(inc.to_set().contains(m));
                        assert(significant(inc).contains(m));
                    }
                }
                let kr = choose|kr: int| 0 <= kr < rec.len() && rec[kr] == m;
                assert(has_missing(inc, rec));
                lemma_match_characterisation(inc, rec);
            }
            return Err(MismatchKind::MissingHeader);
        }
        proof {
            assert(headers_model(working@)[k as int] == header_model(working@[k as int]));
        }
        k += 1;
    }
    proof {
        assert(!has_missing(inc, rec)) by {
            if has_missing(inc, rec) {
                let kr = choose|kr: int|
                    0 <= kr < rec.len() && !spec_exempt(rec[kr].0) && !inc.contains(rec[kr]);
                let m = rec[kr];
                assert(rec.to_set().contains(m)) by {
                    assert(rec.contains(m));
                }
                assert(!significant(inc).contains(m));
                assert(headers_model(working@).to_set().contains(m));
                let kw = choose|kw: int|
                    0 <= kw < headers_model(working@).len() && headers_model(working@)[kw] == m;
                assert(spec_exempt(headers_model(working@)[kw].0));
            }
        }
        lemma_match_characterisation(inc, rec);
    }
    Ok(())
}

/// Whether an incoming request matches a recorded one: URI, method and body
/// agree exactly, and the header sets agree up to exempt names.
pub open spec fn request_matches(inc: RequestModel, rec: RequestModel) -> bool {
    &&& inc.uri == rec.uri
    &&& inc.method == rec.method
    &&& headers_match(inc.headers, rec.headers)
    &&& inc.body == rec.body
}

/// The verdict of replay matching: which mismatch, if any, an incoming
/// request exhibits against the recorded one, checking the URI first, then
/// the method, the headers, and last the body.
pub open spec fn replay_verdict(inc: RequestModel, rec: RequestModel) -> Result<(), MismatchKind> {
    if inc.uri != rec.uri {
        Err(MismatchKind::Uri)
    } else if inc.method != rec.method {
        Err(MismatchKind::Method)
    } else if has_unexpected(inc.headers, rec.headers) {
        Err(MismatchKind::UnexpectedHeader)
    } else if has_missing(inc.headers, rec.headers) {
        Err(MismatchKind::MissingHeader)
    } else if inc.body != rec.body {
        Err(MismatchKind::Body)
    } else {
        Ok(())
    }
}

/// The verdict is clean exactly when the request matches.
pub proof fn lemma_verdict_ok(inc: RequestModel, rec: RequestModel)
    ensures
        replay_verdict(inc, rec) is Ok <==> request_matches(inc, rec),
{
    lemma_match_characterisation(inc.headers, rec.headers);
}

/// Replay is bitwise-strict on bodies: when everything else matches but the
/// bodies differ anywhere, the verdict is a body mismatch.
pub proof fn lemma_strict_body_equality(inc: RequestModel, rec: RequestModel)
    requires
        inc.uri == rec.uri,
        inc.method == rec.method,
        headers_match(inc.headers, rec.headers),
        inc.body != rec.body,
    ensures
        replay_verdict(inc, rec) == Result::<(), MismatchKind>::Err(MismatchKind::Body),
{
    lemma_match_characterisation(inc.headers, rec.headers);
}

/// Compares an incoming request against the recorded one and reports the
/// verdict.
pub fn check_request(incoming: &Request, recorded: &Request) -> (r: Result<(), MismatchKind>)
    requires
        recorded.wf(),
    ensures
        r == replay_verdict(incoming@, recorded@),
{
    if !(incoming.uri == recorded.uri) {
        return Err(MismatchKind::Uri);
    }
    if !(incoming.method == recorded.method) {
        return Err(MismatchKind::Method);
    }
    match match_headers(&incoming.headers, &recorded.headers) {
        Err(k) => {
            return Err(k);
        }
        Ok(()) => {}
    }
    if !crate::types::bytes_eq(&incoming.body, &recorded.body) {
        return Err(MismatchKind::Body);
    }
    Ok(())
}

/// Replays one recorded exchange against an incoming request: on a match the
/// recorded response is returned as it was stored; any disagreement is a
/// request mismatch.
pub fn replay_request(incoming: &Request, recorded: Exchange) -> (r: Result<Response, ProxyError>)
    requires
        recorded.wf(),
    ensures
        replay_verdict(incoming@, recorded@.request) is Ok ==> (r matches Ok(resp) && resp@
            == recorded@.response),
        replay_verdict(incoming@, recorded@.request) matches Err(k) ==> r == Result::<
            Response,
            ProxyError,
        >::Err(ProxyError::RequestMismatch(k)),
{
    match check_request(incoming, &recorded.request) {
        Ok(()) => Ok(recorded.response),
        Err(k) => Err(ProxyError::RequestMismatch(k)),
    }
}

/// A captured URI with its transport scheme turned from plain to secure: a
/// leading `http://` becomes `https://`; any other shape is left alone.
pub open spec fn rewritten_uri(u: Seq<char>) -> Seq<char> {
    if "http://"@.is_prefix_of(u) {
        "https://"@ + u.skip("http://"@.len() as int)
    } else {
        u
    }
}

/// Rewrites the URI scheme for the upstream call.
pub fn rewrite_scheme(uri: &String) -> (r: String)
    ensures
        r@ == rewritten_uri(uri@),
{
    let prefix = "http://";
    if str_starts_with(uri.as_str(), prefix) {
        let n = prefix.unicode_len();
        let len = uri.as_str().unicode_len();
        let rest = uri.as_str().substring_char(n, len);
        proof {
            assert(rest@ =~= uri@.skip("http://"@.len() as int));
        }
        let mut out = String::from_str("https://");
        out.append(rest);
        out
    } else {
        uri.clone()
    }
}

/// Builds the upstream copy of a captured request: the same method, headers
/// and body, with the URI scheme turned secure.
pub fn upstream_request(req: &Request) -> (r: Request)
    ensures
        r@.uri == rewritten_uri(req@.uri),
        r@.method == req@.method,
        r@.headers == req@.headers,
        r@.body == req@.body,
        req.wf() ==> r.wf(),
{
    Request {
        uri: rewrite_scheme(&req.uri),
        method: req.method.clone(),
        headers: clone_headers(&req.headers),
        body: clone_bytes(&req.body),
    }
}

/// How pushing one pair changes the significant set.
proof fn lemma_significant_push(ms: Seq<HeaderModel>, m: HeaderModel)
    ensures
        spec_exempt(m.0) ==> significant(ms.push(m)) =~= significant(ms),
        !spec_exempt(m.0) ==> significant(ms.push(m)) =~= significant(ms).insert(m),
{
    lemma_model_push_set(ms, m);
    assert(ms.push(m).to_set() =~= ms.to_set().insert(m));
    if spec_exempt(m.0) {
        assert forall|x: HeaderModel| significant(ms.push(m)).contains(x)
            <==> significant(ms).contains(x) by {}
    } else {
        assert forall|x: HeaderModel| significant(ms.push(m)).contains(x)
            <==> significant(ms).insert(m).contains(x) by {}
    }
}

/// Taking one more element keeps the prefix relation on `take`.
proof fn lemma_take_step(ms: Seq<HeaderModel>, i: int)
    requires
        0 <= i < ms.len(),
    ensures
        ms.take(i + 1) =~= ms.take(i).push(ms[i]),
{
}

/// Skipping an exempt pair introduces no unexpected pair.
proof fn lemma_unexpected_step_exempt(inc: Seq<HeaderModel>, rec: Seq<HeaderModel>, i: int)
    requires
        0 <= i < inc.len(),
        spec_exempt(inc[i].0),
        !has_unexpected(inc.take(i), rec),
    ensures
        !has_unexpected(inc.take(i + 1), rec),
{
    let pre = inc.take(i);
    let nxt = inc.take(i + 1);
    assert(nxt =~= pre.push(inc[i]));
    assert forall|a: int|
        0 <= a < nxt.len() && !spec_exempt(nxt[a].0) implies rec.contains(nxt[a]) && (forall|b: int|
        0 <= b < a ==> nxt[b] != nxt[a]) by {
        assert(a < i);
        assert(nxt[a] == pre[a]);
        assert(!(0 <= a < pre.len() && !spec_exempt(pre[a].0) && (!rec.contains(pre[a]) || exists|b: int|
            0 <= b < a && pre[b] == pre[a])));
        assert forall|b: int| 0 <= b < a implies nxt[b] != nxt[a] by {
            assert(nxt[b] == pre[b]);
        }
    }
}

/// Claiming a significant pair that was still unclaimed introduces no
/// unexpected pair.
proof fn lemma_unexpected_step_matched(inc: Seq<HeaderModel>, rec: Seq<HeaderModel>, i: int)
    requires
        0 <= i < inc.len(),
        !spec_exempt(inc[i].0),
        rec.contains(inc[i]),
        !significant(inc.take(i)).contains(inc[i]),
        !has_unexpected(inc.take(i), rec),
    ensures
        !has_unexpected(inc.take(i + 1), rec),
{
    let pre = inc.take(i);
    let nxt = inc.take(i + 1);
    assert(nxt =~= pre.push(inc[i]));
    assert forall|a: int|
        0 <= a < nxt.len() && !spec_exempt(nxt[a].0) implies rec.contains(nxt[a]) && (forall|b: int|
        0 <= b < a ==> nxt[b] != nxt[a]) by {
        if a < i {
            assert(nxt[a] == pre[a]);
            assert(!(0 <= a < pre.len() && !spec_exempt(pre[a].0) && (!rec.contains(pre[a])
                || exists|b: int| 0 <= b < a && pre[b] == pre[a])));
            assert forall|b: int| 0 <= b < a implies nxt[b] != nxt[a] by {
                assert(nxt[b] == pre[b]);
            }
        } else {
            assert(nxt[a] == inc[i]);
            assert forall|b: int| 0 <= b < a implies nxt[b] != nxt[a] by {
                assert(nxt[b] == pre[b]);
                if pre[b] == inc[i] {
                    assert(pre.contains(inc[i]));
                    assert(pre.to_set().contains(inc[i]));
                    assert(significant(pre).contains(inc[i]));
                }
            }
        }
    }
}

} // verus!
