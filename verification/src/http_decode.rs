//! The rules applied while an HTTP/1.1 response is decoded: which heads are
//! skipped, how much of a body is kept, and when a response is complete.

use vstd::prelude::*;
use vstd::string::*;
use crate::text::{decimal, push_decimal};
use crate::json::pair_views;
use shiguredo_http11::{BodyKind, DecoderLimits, ResponseDecoder};

verus! {

broadcast use vstd::string::group_string_axioms;

/// How much of a response body is kept.
#[derive(Debug, Clone, Copy, PartialEq, Eq, Structural)]
pub enum BodyLimit {
    /// All of it.
    Unlimited,
    /// At most this many bytes; the rest is dropped.
    Truncate(usize),
    /// At most this many bytes; more is an error.
    Error(usize),
}

/// How the body of a response is delimited.
#[derive(Debug, Clone, Copy, PartialEq, Eq, Structural)]
pub enum BodyFraming {
    ContentLength,
    Chunked,
    CloseDelimited,
    NoBody,
    Tunnel,
}

/// Is this the status of an interim (1xx) response, which precedes the
/// final one and is skipped?
pub fn is_interim_status(status: u16) -> (r: bool)
    ensures
        r == (100 <= status < 200),
{
    100 <= status && status < 200
}

/// Does a body of `held` bytes stay within the limit?
pub open spec fn within_limit(limit: BodyLimit, held: nat) -> bool {
    match limit {
        BodyLimit::Unlimited => true,
        BodyLimit::Truncate(max) => held <= max,
        BodyLimit::Error(max) => held <= max,
    }
}

/// `"output exceeds <max> bytes limit"`.
pub open spec fn body_limit_text(max: nat) -> Seq<char> {
    "output exceeds "@ + decimal(max) + " bytes limit"@
}

/// Adds decoded body bytes to what is held, under the limit: all of them;
/// as many as fit (the rest dropped); or, where they would not all fit, an
/// error and nothing added.
pub fn append_with_limit(limit: BodyLimit, body: &mut Vec<u8>, data: &[u8]) -> (r: Result<(), String>)
    ensures
        match limit {
            BodyLimit::Unlimited => r is Ok && final(body)@ == old(body)@ + data@,
            BodyLimit::Truncate(max) => r is Ok && final(body)@ == old(body)@ + data@.take(
                vstd::math::min(
                    data@.len() as int,
                    if old(body)@.len() < max {
                        max - old(body)@.len()
                    } else {
                        0
                    },
                ),
            ),
            BodyLimit::Error(max) => if vstd::math::min(
                (old(body)@.len() + data@.len()) as int,
                usize::MAX as int,
            ) > max {
                r matches Err(m) && m@ == body_limit_text(max as nat) && final(body)@ == old(body)@
            } else {
                r is Ok && final(body)@ == old(body)@ + data@
            },
        },
{
    let take: usize = match limit {
        BodyLimit::Unlimited => data.len(),
        BodyLimit::Truncate(max) => {
            let remaining: usize = max.saturating_sub(body.len());
            if data.len() < remaining {
                data.len()
            } else {
                remaining
            }
        },
        BodyLimit::Error(max) => {
            if body.len().saturating_add(data.len()) > max {
                let mut m = String::from_str("output exceeds ");
                push_decimal(&mut m, max as u128);
                m.append(" bytes limit");
                return Err(m);
            }
            data.len()
        },
    };
    let ghost start = body@;
    let mut i: usize = 0;
    while i < take
        invariant
            i <= take,
            take <= data@.len(),
            start == old(body)@,
            body@ == start + data@.take(i as int),
            !(limit is Truncate) ==> take == data@.len(),
            limit matches BodyLimit::Truncate(max) ==> take == vstd::math::min(
                data@.len() as int,
                if start.len() < max {
                    max - start.len()
                } else {
                    0
                },
            ),
            limit matches BodyLimit::Error(max) ==> vstd::math::min(
                (start.len() + data@.len()) as int,
                usize::MAX as int,
            ) <= max,
        decreases take - i,
    {
        body.push(data[i]);
        i += 1;
        proof {
            assert(body@ =~= start + data@.take(i as int));
        }
    }
    proof {
        if take == data@.len() {
            assert(data@.take(take as int) =~= data@);
        }
    }
    Ok(())
}

/// A body that starts within the limit stays within it, whatever is
/// appended (as long as the two lengths together fit in memory).
pub proof fn lemma_body_stays_within_limit(limit: BodyLimit, before: Seq<u8>, data: Seq<u8>, after: Seq<u8>)
    requires
        within_limit(limit, before.len()),
        before.len() + data.len() <= usize::MAX,
        match limit {
            BodyLimit::Unlimited => after == before + data,
            BodyLimit::Truncate(max) => after == before + data.take(
                vstd::math::min(
                    data.len() as int,
                    if before.len() < max {
                        max - before.len()
                    } else {
                        0
                    },
                ),
            ),
            BodyLimit::Error(max) => if vstd::math::min(
                (before.len() + data.len()) as int,
                usize::MAX as int,
            ) > max {
                after == before
            } else {
                after == before + data
            },
        },
    ensures
        within_limit(limit, after.len()),
{
}

/// What a decoding step concluded: the response is complete, more bytes
/// are needed, or the response cannot be completed.
#[derive(Debug, PartialEq, Eq)]
pub enum FeedOutcome {
    Complete,
    NeedMore,
    Failed(String),
}

/// The conclusion of a step once the head is read, from how the body is
/// framed (`None`: a framing this library does not know), whether the
/// body has been read whole, and whether the peer closed the connection.
pub fn body_outcome(framing: Option<BodyFraming>, body_done: bool, eof: bool) -> (r: FeedOutcome)
    ensures
        match framing {
            Some(BodyFraming::NoBody) | Some(BodyFraming::Tunnel) => r == FeedOutcome::Complete,
            Some(BodyFraming::CloseDelimited) => r == if body_done || eof {
                FeedOutcome::Complete
            } else {
                FeedOutcome::NeedMore
            },
            Some(BodyFraming::ContentLength) | Some(BodyFraming::Chunked) => if body_done {
                r == FeedOutcome::Complete
            } else if eof {
                r matches FeedOutcome::Failed(m) && m@ == "connection closed before body complete"@
            } else {
                r == FeedOutcome::NeedMore
            },
            None => r matches FeedOutcome::Failed(m) && m@ == "unsupported body kind"@,
        },
{
    match framing {
        Some(BodyFraming::NoBody) | Some(BodyFraming::Tunnel) => FeedOutcome::Complete,
        Some(BodyFraming::CloseDelimited) => if body_done || eof {
            FeedOutcome::Complete
        } else {
            FeedOutcome::NeedMore
        },
        Some(BodyFraming::ContentLength) | Some(BodyFraming::Chunked) => if body_done {
            FeedOutcome::Complete
        } else if eof {
            FeedOutcome::Failed(String::from_str("connection closed before body complete"))
        } else {
            FeedOutcome::NeedMore
        },
        None => FeedOutcome::Failed(String::from_str("unsupported body kind")),
    }
}

/// The conclusion of a step whose head is not complete yet: more bytes,
/// or, if the peer closed the connection, a failure.
pub fn head_outcome(eof: bool) -> (r: FeedOutcome)
    ensures
        eof ==> (r matches FeedOutcome::Failed(m) && m@
            == "connection closed before headers complete"@),
        !eof ==> r == FeedOutcome::NeedMore,
{
    if eof {
        FeedOutcome::Failed(String::from_str("connection closed before headers complete"))
    } else {
        FeedOutcome::NeedMore
    }
}

/// What `shiguredo_http11::ResponseDecoder` makes of `bytes` as the
/// start of a response to a `method` request (body size limited to
/// `max_body` where given, its defaults otherwise): the head's status, how
/// its body is framed (`None`: a framing this library does not know) and
/// where the body starts; nothing while the head is incomplete; or the
/// decoder's error.
pub uninterp spec fn http11_head_decoding(method: Seq<char>, bytes: Seq<u8>, max_body: Option<u64>) -> Result<
    Option<(u16, Option<BodyFraming>, nat)>,
    Seq<char>,
>;

/// The header fields of the head that `http11_head_decoding` reads, in the
/// order received (names as the decoder keeps them); none where there is no
/// complete head.
pub uninterp spec fn http11_header_list(method: Seq<char>, bytes: Seq<u8>, max_body: Option<u64>) -> Seq<
    (Seq<char>, Seq<char>),
>;

/// What `ResponseDecoder::decode` makes of `bytes` as a whole response to
/// a `method` request (after `mark_eof` where `eof`, for a body that the
/// connection's end delimits): its body once it is complete, nothing
/// before, or the decoder's error.
pub uninterp spec fn http11_body_decoding(
    method: Seq<char>,
    bytes: Seq<u8>,
    max_body: Option<u64>,
    eof: bool,
) -> Result<Option<Seq<u8>>, Seq<char>>;

/// `ResponseDecoder::decode_headers` on a fresh decoder given `bytes`.
#[verifier::external_body]
fn http11_decode_head(method: &str, bytes: &[u8], max_body: Option<u64>) -> (r: Result<
    Option<(u16, Option<BodyFraming>, usize)>,
    String,
>)
    ensures
        match http11_head_decoding(method@, bytes@, max_body) {
            Err(e) => r matches Err(m) && m@ == e,
            Ok(None) => r matches Ok(None),
            Ok(Some((status, framing, start))) => r matches Ok(Some((s, f, n))) && s == status && f
                == framing && n == start,
        },
        r matches Ok(Some((_s, _f, n))) ==> 1 <= n <= bytes@.len(),
{
    let limits = max_body.map_or_else(DecoderLimits::default, |m| DecoderLimits { max_body_size: m, ..Default::default() });
    let mut d = ResponseDecoder::with_limits(limits);
    d.set_request_method(method);
    d.feed_unchecked(bytes);
    let head = d.decode_headers().map_err(|e| e.to_string())?;
    Ok(head.map(|(h, kind)| (h.status_code(), match kind { BodyKind::ContentLength(_) => Some(BodyFraming::ContentLength), BodyKind::Chunked => Some(BodyFraming::Chunked), BodyKind::CloseDelimited => Some(BodyFraming::CloseDelimited), BodyKind::None => Some(BodyFraming::NoBody), BodyKind::Tunnel => Some(BodyFraming::Tunnel), _ => None }, bytes.len() - d.remaining().len())))
}

/// The header fields of the head `ResponseDecoder::decode_headers` reads
/// from `bytes` (`ResponseHead::headers`).
#[verifier::external_body]
fn http11_decode_headers(method: &str, bytes: &[u8], max_body: Option<u64>) -> (r: Vec<(String, String)>)
    ensures
        pair_views(r@) == http11_header_list(method@, bytes@, max_body),
{
    let limits = max_body.map_or_else(DecoderLimits::default, |m| DecoderLimits { max_body_size: m, ..Default::default() });
    let mut d = ResponseDecoder::with_limits(limits);
    d.set_request_method(method);
    d.feed_unchecked(bytes);
    let head = d.decode_headers().ok().flatten();
    head.map(|(h, _)| h.headers().iter().map(|(n, v)| (n.as_str().to_string(), v.clone())).collect()).unwrap_or_default()
}

/// `ResponseDecoder::decode` on a fresh decoder given `bytes`, and once
/// more after `mark_eof` where `eof` and the first call found the body
/// incomplete.
#[verifier::external_body]
fn http11_decode_body(method: &str, bytes: &[u8], max_body: Option<u64>, eof: bool) -> (r: Result<Option<Vec<u8>>, String>)
    ensures
        match http11_body_decoding(method@, bytes@, max_body, eof) {
            Err(e) => r matches Err(m) && m@ == e,
            Ok(None) => r matches Ok(None),
            Ok(Some(b)) => r matches Ok(Some(v)) && v@ == b,
        },
{
    let limits = max_body.map_or_else(DecoderLimits::default, |m| DecoderLimits { max_body_size: m, ..Default::default() });
    let mut d = ResponseDecoder::with_limits(limits);
    d.set_request_method(method);
    d.feed_unchecked(bytes);
    let mut response = d.decode().map_err(|e| e.to_string())?;
    if response.is_none() && eof {
        d.mark_eof();
        response = d.decode().map_err(|e| e.to_string())?;
    }
    Ok(response.map(|r| r.body_bytes().unwrap_or(&[]).to_vec()))
}

/// The largest body the decoder itself accepts: the limit of an erring
/// body limit, else the decoder's own default.
pub open spec fn decoder_max_body(limit: BodyLimit) -> Option<u64> {
    match limit {
        BodyLimit::Error(max) => Some(max as u64),
        _ => None,
    }
}

/// What is kept of a complete body under the limit: all of it, its first
/// `max` bytes, or (an erring limit that it exceeds) nothing but the error.
pub open spec fn kept_body(limit: BodyLimit, body: Seq<u8>) -> Result<Seq<u8>, Seq<char>> {
    match limit {
        BodyLimit::Unlimited => Ok(body),
        BodyLimit::Truncate(max) => Ok(body.take(vstd::math::min(body.len() as int, max as int))),
        BodyLimit::Error(max) => if body.len() > max {
            Err(body_limit_text(max as nat))
        } else {
            Ok(body)
        },
    }
}

/// A response read whole: its status, header fields and body (as kept).
#[derive(Debug)]
pub struct DecodedResponse {
    pub status: u16,
    pub headers: Vec<(String, String)>,
    pub body: Vec<u8>,
}

/// What the bytes received so far give: the response, the need for more
/// bytes, or a failure.
#[derive(Debug)]
pub enum ResponseStep {
    Complete(DecodedResponse),
    NeedMore,
    Failed(String),
}

/// The same, as values.
pub enum StepView {
    Complete(u16, Seq<(Seq<char>, Seq<char>)>, Seq<u8>),
    NeedMore,
    Failed(Seq<char>),
}

/// The view of a step.
pub open spec fn step_view(r: ResponseStep) -> StepView {
    match r {
        ResponseStep::Complete(d) => StepView::Complete(d.status, pair_views(d.headers@), d.body@),
        ResponseStep::NeedMore => StepView::NeedMore,
        ResponseStep::Failed(m) => StepView::Failed(m@),
    }
}

/// What the final (non-interim) response whose bytes start `bytes`, with
/// head `status`, `framing` and body start `start`, gives so far.
pub open spec fn final_response_step(
    method: Seq<char>,
    bytes: Seq<u8>,
    eof: bool,
    limit: BodyLimit,
    status: u16,
    framing: Option<BodyFraming>,
    start: nat,
) -> StepView {
    let headers = http11_header_list(method, bytes, decoder_max_body(limit));
    let whole = |b: Seq<u8>|
        match kept_body(limit, b) {
            Ok(k) => StepView::Complete(status, headers, k),
            Err(m) => StepView::Failed(m),
        };
    match framing {
        None => StepView::Failed("unsupported body kind"@),
        Some(BodyFraming::NoBody) | Some(BodyFraming::Tunnel) => StepView::Complete(
            status,
            headers,
            Seq::empty(),
        ),
        Some(BodyFraming::CloseDelimited) => {
            let raw_len = bytes.len() - start;
            if (limit matches BodyLimit::Error(max) && raw_len > max) {
                StepView::Failed(body_limit_text(limit->Error_0 as nat))
            } else {
                match http11_body_decoding(method, bytes, decoder_max_body(limit), eof) {
                    Err(e) => StepView::Failed(e),
                    Ok(None) => StepView::NeedMore,
                    Ok(Some(b)) => whole(b),
                }
            }
        },
        Some(_) => match http11_body_decoding(method, bytes, decoder_max_body(limit), eof) {
            Err(e) => StepView::Failed(e),
            Ok(None) => if eof {
                StepView::Failed("connection closed before body complete"@)
            } else {
                StepView::NeedMore
            },
            Ok(Some(b)) => whole(b),
        },
    }
}

/// What the bytes received so far of a response to a `method` request give
/// (`eof`: the peer has closed the connection): interim (1xx) responses
/// are skipped; a head still incomplete needs more bytes, or fails at the
/// end of the stream; then the body, as `final_response_step` says.
pub open spec fn response_step(method: Seq<char>, bytes: Seq<u8>, eof: bool, limit: BodyLimit) -> StepView
    decreases bytes.len(),
{
    match http11_head_decoding(method, bytes, decoder_max_body(limit)) {
        Err(e) => StepView::Failed(e),
        Ok(None) => if eof {
            StepView::Failed("connection closed before headers complete"@)
        } else {
            StepView::NeedMore
        },
        Ok(Some((status, framing, start))) => if 100 <= status < 200 {
            if 1 <= start <= bytes.len() {
                response_step(method, bytes.skip(start as int), eof, limit)
            } else {
                StepView::NeedMore
            }
        } else {
            final_response_step(method, bytes, eof, limit, status, framing, start)
        },
    }
}

/// Decodes the bytes received so far of a response to a `method` request,
/// under `limit` (see `response_step`).
pub fn decode_response(method: &str, bytes: &[u8], eof: bool, limit: BodyLimit) -> (r: ResponseStep)
    ensures
        step_view(r) == response_step(method@, bytes@, eof, limit),
{
    let max_body: Option<u64> = match limit {
        BodyLimit::Error(max) => Some(max as u64),
        _ => None,
    };
    let mut start: usize = 0;
    proof {
        assert(bytes@.skip(0) =~= bytes@);
    }
    loop
        invariant
            start <= bytes@.len(),
            max_body == decoder_max_body(limit),
            response_step(method@, bytes@, eof, limit) == response_step(
                method@,
                bytes@.skip(start as int),
                eof,
                limit,
            ),
        decreases bytes@.len() - start,
    {
        let rest = &bytes[start..bytes.len()];
        proof {
            assert(rest@ =~= bytes@.skip(start as int));
        }
        let (status, framing, body_start) = match http11_decode_head(method, rest, max_body) {
            Err(e) => {
                return ResponseStep::Failed(e);
            },
            Ok(None) => {
                if eof {
                    return ResponseStep::Failed(String::from_str("connection closed before headers complete"));
                }
                return ResponseStep::NeedMore;
            },
            Ok(Some(h)) => h,
        };
        if is_interim_status(status) {
            proof {
                assert(bytes@.skip(start as int).skip(body_start as int) =~= bytes@.skip(
                    start + body_start,
                ));
            }
            start = start + body_start;
            continue;
        }
        return final_response(method, rest, eof, limit, max_body, status, framing, body_start);
    }
}

fn keep_body(limit: BodyLimit, body: Vec<u8>) -> (r: Result<Vec<u8>, String>)
    ensures
        match kept_body(limit, body@) {
            Ok(k) => r matches Ok(v) && v@ == k,
            Err(m) => r matches Err(x) && x@ == m,
        },
{
    let mut kept: Vec<u8> = Vec::new();
    let n: usize = body.len();
    proof {
        assert(kept@.len() == 0);
        assert(body@.len() == n);
    }
    match append_with_limit(limit, &mut kept, body.as_slice()) {
        Ok(()) => {
            proof {
                assert(Seq::<u8>::empty() + body@ =~= body@);
                if let BodyLimit::Truncate(max) = limit {
                    assert(Seq::<u8>::empty() + body@.take(vstd::math::min(body@.len() as int, max as int)) =~= body@.take(vstd::math::min(body@.len() as int, max as int)));
                }
            }
            Ok(kept)
        },
        Err(m) => Err(m),
    }
}

fn final_response(
    method: &str,
    bytes: &[u8],
    eof: bool,
    limit: BodyLimit,
    max_body: Option<u64>,
    status: u16,
    framing: Option<BodyFraming>,
    start: usize,
) -> (r: ResponseStep)
    requires
        max_body == decoder_max_body(limit),
        start <= bytes@.len(),
    ensures
        step_view(r) == final_response_step(method@, bytes@, eof, limit, status, framing, start as nat),
{
    let headers = http11_decode_headers(method, bytes, max_body);
    let decoded = match framing {
        None => {
            return ResponseStep::Failed(String::from_str("unsupported body kind"));
        },
        Some(BodyFraming::NoBody) | Some(BodyFraming::Tunnel) => {
            let r = ResponseStep::Complete(DecodedResponse { status, headers, body: Vec::new() });
            proof {
                assert(pair_views(headers@) == http11_header_list(method@, bytes@, max_body));
            }
            return r;
        },
        Some(BodyFraming::CloseDelimited) => {
            if let BodyLimit::Error(max) = limit {
                if bytes.len() - start > max {
                    let mut m = String::from_str("output exceeds ");
                    push_decimal(&mut m, max as u128);
                    m.append(" bytes limit");
                    return ResponseStep::Failed(m);
                }
            }
            match http11_decode_body(method, bytes, max_body, eof) {
                Err(e) => {
                    return ResponseStep::Failed(e);
                },
                Ok(None) => {
                    return ResponseStep::NeedMore;
                },
                Ok(Some(b)) => b,
            }
        },
        Some(_) => match http11_decode_body(method, bytes, max_body, eof) {
            Err(e) => {
                return ResponseStep::Failed(e);
            },
            Ok(None) => {
                if eof {
                    return ResponseStep::Failed(String::from_str("connection closed before body complete"));
                }
                return ResponseStep::NeedMore;
            },
            Ok(Some(b)) => b,
        },
    };
    match keep_body(limit, decoded) {
        Ok(body) => ResponseStep::Complete(DecodedResponse { status, headers, body }),
        Err(m) => ResponseStep::Failed(m),
    }
}

} // verus!
