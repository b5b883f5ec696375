//! Docker's multiplexed stream format: frames of an 8-byte header
//! (`stream type`, three reserved bytes, big-endian payload length) and a
//! payload. Type 1 is standard output, 2 standard error; other frames are
//! skipped.

use vstd::prelude::*;
use crate::log_buffer::{SharedLogBuffer, last_n, lemma_last_n_compose};
use crate::error::{io_error_other, io_error_message};
use crate::text::{decimal, push_decimal, before_first, trim_text, eq_ignore_ascii_case_spec, prefix_before, trim_str, eq_ignore_ascii_case};
use vstd::string::*;

verus! {

broadcast use vstd::string::group_string_axioms;

/// Length of a frame header.
pub const FRAME_HEADER_LEN: usize = 8;

/// The payload length of a frame header (bytes 4 to 7, big-endian).
pub open spec fn be32(h: Seq<u8>) -> nat {
    h[4] as nat * 16777216 + h[5] as nat * 65536 + h[6] as nat * 256 + h[7] as nat
}

/// Where the streaming demultiplexer stands: collecting a header, or
/// passing on the payload of a frame of a given type.
pub struct DemuxView {
    pub in_payload: bool,
    pub collected: Seq<u8>,
    pub stream_type: u8,
    pub remaining: nat,
}

/// Waiting for the first byte of a header.
pub open spec fn demux_idle() -> DemuxView {
    DemuxView { in_payload: false, collected: Seq::empty(), stream_type: 0, remaining: 0 }
}

/// One byte through the demultiplexer: the next state, and what it adds to
/// standard output and to standard error.
pub open spec fn demux_step(s: DemuxView, x: u8) -> (DemuxView, Seq<u8>, Seq<u8>) {
    if !s.in_payload {
        let c = s.collected.push(x);
        if c.len() == 8 {
            if be32(c) == 0 {
                (demux_idle(), Seq::empty(), Seq::empty())
            } else {
                (
                    DemuxView { in_payload: true, collected: c, stream_type: c[0], remaining: be32(c) },
                    Seq::empty(),
                    Seq::empty(),
                )
            }
        } else {
            (DemuxView { collected: c, ..s }, Seq::empty(), Seq::empty())
        }
    } else {
        let out = if s.stream_type == 1 {
            seq![x]
        } else {
            Seq::empty()
        };
        let err = if s.stream_type == 2 {
            seq![x]
        } else {
            Seq::empty()
        };
        if s.remaining <= 1 {
            (demux_idle(), out, err)
        } else {
            (DemuxView { remaining: (s.remaining - 1) as nat, ..s }, out, err)
        }
    }
}

/// Bytes through the demultiplexer, one after another: the final state and
/// all that went to standard output and to standard error.
pub open spec fn demux_bytes(s: DemuxView, d: Seq<u8>) -> (DemuxView, Seq<u8>, Seq<u8>)
    decreases d.len(),
{
    if d.len() == 0 {
        (s, Seq::empty(), Seq::empty())
    } else {
        let (s1, o1, e1) = demux_bytes(s, d.drop_last());
        let (s2, o2, e2) = demux_step(s1, d.last());
        (s2, o1 + o2, e1 + e2)
    }
}

/// Feeding bytes in two parts is feeding them at once: the demultiplexer's
/// outcome does not depend on where its input is cut.
pub proof fn lemma_demux_chunking(s: DemuxView, a: Seq<u8>, b: Seq<u8>)
    ensures
        ({
            let (s1, o1, e1) = demux_bytes(s, a);
            let (s2, o2, e2) = demux_bytes(s1, b);
            demux_bytes(s, a + b) == (s2, o1 + o2, e1 + e2)
        }),
    decreases b.len(),
{
    let (s1, o1, e1) = demux_bytes(s, a);
    if b.len() == 0 {
        assert(a + b =~= a);
        assert(o1 + Seq::<u8>::empty() =~= o1);
        assert(e1 + Seq::<u8>::empty() =~= e1);
    } else {
        lemma_demux_chunking(s, a, b.drop_last());
        assert((a + b).drop_last() =~= a + b.drop_last());
        assert((a + b).last() == b.last());
        let (s2, o2, e2) = demux_bytes(s1, b.drop_last());
        let (s3, o3, e3) = demux_step(s2, b.last());
        assert(o1 + o2 + o3 =~= o1 + (o2 + o3));
        assert(e1 + e2 + e3 =~= e1 + (e2 + e3));
    }
}

/// Header bytes that do not complete the header are only collected.
proof fn lemma_demux_header_partial(s: DemuxView, h: Seq<u8>)
    requires
        !s.in_payload,
        s.collected.len() + h.len() < 8,
    ensures
        demux_bytes(s, h) == (
            DemuxView { collected: s.collected + h, ..s },
            Seq::<u8>::empty(),
            Seq::<u8>::empty(),
        ),
    decreases h.len(),
{
    if h.len() == 0 {
        assert(s.collected + h =~= s.collected);
        assert(DemuxView { collected: s.collected + h, ..s } == s);
    } else {
        lemma_demux_header_partial(s, h.drop_last());
        assert((s.collected + h.drop_last()).push(h.last()) =~= s.collected + h);
        assert(Seq::<u8>::empty() + Seq::<u8>::empty() =~= Seq::<u8>::empty());
    }
}

/// The header state a completed header leads to.
pub open spec fn after_header(c: Seq<u8>) -> DemuxView {
    if be32(c) == 0 {
        demux_idle()
    } else {
        DemuxView { in_payload: true, collected: c, stream_type: c[0], remaining: be32(c) }
    }
}

/// Header bytes that complete the header start the payload (or, for an
/// empty payload, the next header).
proof fn lemma_demux_header_complete(s: DemuxView, h: Seq<u8>)
    requires
        !s.in_payload,
        h.len() >= 1,
        s.collected.len() + h.len() == 8,
    ensures
        demux_bytes(s, h) == (after_header(s.collected + h), Seq::<u8>::empty(), Seq::<u8>::empty()),
{
    lemma_demux_header_partial(s, h.drop_last());
    assert((s.collected + h.drop_last()).push(h.last()) =~= s.collected + h);
    assert(Seq::<u8>::empty() + Seq::<u8>::empty() =~= Seq::<u8>::empty());
}

/// What a stream of the given type receives of a payload chunk.
pub open spec fn routed(stream_type: u8, want: u8, chunk: Seq<u8>) -> Seq<u8> {
    if stream_type == want {
        chunk
    } else {
        Seq::empty()
    }
}

/// Payload bytes go to the frame's stream; the frame ends with its last
/// payload byte.
proof fn lemma_demux_payload(s: DemuxView, c: Seq<u8>)
    requires
        s.in_payload,
        c.len() <= s.remaining,
        c.len() < s.remaining ==> s.remaining >= 1,
    ensures
        demux_bytes(s, c) == (
            if c.len() == s.remaining && c.len() > 0 {
                demux_idle()
            } else {
                DemuxView { remaining: (s.remaining - c.len()) as nat, ..s }
            },
            routed(s.stream_type, 1, c),
            routed(s.stream_type, 2, c),
        ),
    decreases c.len(),
{
    if c.len() == 0 {
        assert(DemuxView { remaining: (s.remaining - c.len()) as nat, ..s } == s);
        assert(routed(s.stream_type, 1, c) =~= Seq::<u8>::empty());
        assert(routed(s.stream_type, 2, c) =~= Seq::<u8>::empty());
    } else {
        lemma_demux_payload(s, c.drop_last());
        assert(routed(s.stream_type, 1, c.drop_last()) + routed(s.stream_type, 1, seq![c.last()])
            =~= routed(s.stream_type, 1, c));
        assert(routed(s.stream_type, 2, c.drop_last()) + routed(s.stream_type, 2, seq![c.last()])
            =~= routed(s.stream_type, 2, c));
    }
}

/// The message of a strict buffer's overflow.
pub open spec fn overflow_text(stdout: bool, limit: nat) -> Seq<char> {
    (if stdout {
        "stdout"@
    } else {
        "stderr"@
    }) + " output exceeds "@ + decimal(limit) + " bytes limit"@
}

/// `"<stream> output exceeds <limit> bytes limit"`.
pub fn overflow_message(stdout: bool, limit: usize) -> (r: String)
    ensures
        r@ == overflow_text(stdout, limit as nat),
{
    let mut msg = if stdout {
        String::from_str("stdout")
    } else {
        String::from_str("stderr")
    };
    msg.append(" output exceeds ");
    push_decimal(&mut msg, limit as u128);
    msg.append(" bytes limit");
    msg
}

/// A feed that failed after taking in `done`: each buffer holds what that
/// prefix routed to it.
pub open spec fn feed_failed_at(
    s: DemuxView,
    done: Seq<u8>,
    stdout: SharedLogBuffer,
    stderr: SharedLogBuffer,
    out_after: Seq<u8>,
    err_after: Seq<u8>,
) -> bool {
    let (s2, o, e) = demux_bytes(s, done);
    &&& out_after == content_after(stdout, o)
    &&& err_after == content_after(stderr, e)
}

/// Where a feed stops: after `done`, inside a payload of standard output
/// or standard error whose next bytes (the rest of that payload, within
/// the `rest` bytes left, at least one) would take that stream's strict
/// buffer beyond its limit.
pub open spec fn feed_overflows_at(
    s: DemuxView,
    done: Seq<u8>,
    rest: nat,
    stdout: SharedLogBuffer,
    stderr: SharedLogBuffer,
) -> bool {
    let (s2, o, e) = demux_bytes(s, done);
    let n = vstd::math::min(s2.remaining as int, rest as int);
    &&& s2.in_payload
    &&& n >= 1
    &&& ((s2.stream_type == 1 && strict_overflow(stdout, (o.len() + n) as nat)) || (s2.stream_type
        == 2 && strict_overflow(stderr, (e.len() + n) as nat)))
}

proof fn lemma_feed_stops_at(
    init: DemuxView,
    data: Seq<u8>,
    pos: int,
    out0: SharedLogBuffer,
    err0: SharedLogBuffer,
    out_now: SharedLogBuffer,
    err_now: SharedLogBuffer,
)
    requires
        0 <= pos < data.len(),
        out_now.wf(),
        err_now.wf(),
        out_now.limit == out0.limit && out_now.strict == out0.strict,
        err_now.limit == err0.limit && err_now.strict == err0.strict,
        ({
            let (sv, o, e) = demux_bytes(init, data.take(pos));
            let k = vstd::math::min(sv.remaining as int, data.len() - pos);
            let (_s3, oc, ec) = demux_bytes(sv, data.subrange(pos, pos + k));
            &&& sv.in_payload
            &&& k >= 1
            &&& out_now.content() == content_after(out0, o)
            &&& err_now.content() == content_after(err0, e)
            &&& (strict_overflow(out_now, oc.len()) || strict_overflow(err_now, ec.len()))
        }),
    ensures
        feed_overflows_at(init, data.take(pos), (data.len() - pos) as nat, out0, err0),
{
    let (sv, o, e) = demux_bytes(init, data.take(pos));
    let k = vstd::math::min(sv.remaining as int, data.len() - pos);
    let chunk = data.subrange(pos, pos + k);
    lemma_demux_payload(sv, chunk);
}

/// The message of a feed that failed after taking in `done`: it names the
/// stream of the payload that would have overflowed its buffer.
pub open spec fn feed_failure_text(
    s: DemuxView,
    done: Seq<u8>,
    stdout: SharedLogBuffer,
    stderr: SharedLogBuffer,
) -> Seq<char> {
    if demux_bytes(s, done).0.stream_type == 1 {
        overflow_text(true, stdout.limit as nat)
    } else {
        overflow_text(false, stderr.limit as nat)
    }
}

/// Would appending `added` bytes take a strict buffer beyond its limit?
pub open spec fn strict_overflow(buf: SharedLogBuffer, added: nat) -> bool {
    buf.strict && buf.content().len() + added > buf.limit
}

/// What a buffer holds after `added` was appended to it, piece by piece,
/// without overflowing.
pub open spec fn content_after(buf: SharedLogBuffer, added: Seq<u8>) -> Seq<u8> {
    if buf.strict {
        buf.content() + added
    } else {
        last_n(buf.content() + added, buf.limit as nat)
    }
}

proof fn lemma_content_after_compose(b0: SharedLogBuffer, o: Seq<u8>, c: Seq<u8>)
    ensures
        b0.strict ==> content_after(b0, o) + c == content_after(b0, o + c),
        !b0.strict ==> last_n(content_after(b0, o) + c, b0.limit as nat) == content_after(
            b0,
            o + c,
        ),
{
    assert(b0.content() + o + c =~= b0.content() + (o + c));
    lemma_last_n_compose(b0.content() + o, c, b0.limit as nat);
}

/// Chunks of input, one after another.
pub open spec fn chunks_joined(chunks: Seq<Seq<u8>>) -> Seq<u8>
    decreases chunks.len(),
{
    if chunks.len() == 0 {
        Seq::empty()
    } else {
        chunks_joined(chunks.drop_last()) + chunks.last()
    }
}

/// Feeding the chunks one call after another: the final state and all
/// that went to each stream.
pub open spec fn demux_chunks(s: DemuxView, chunks: Seq<Seq<u8>>) -> (DemuxView, Seq<u8>, Seq<u8>)
    decreases chunks.len(),
{
    if chunks.len() == 0 {
        (s, Seq::empty(), Seq::empty())
    } else {
        let (s1, o1, e1) = demux_chunks(s, chunks.drop_last());
        let (s2, o2, e2) = demux_bytes(s1, chunks.last());
        (s2, o1 + o2, e1 + e2)
    }
}

/// What a buffer holds after the pieces `added` were appended by one call
/// each, as `feed` appends them (strict buffers that never overflow).
pub open spec fn content_chain(b: SharedLogBuffer, added: Seq<Seq<u8>>) -> Seq<u8>
    decreases added.len(),
{
    if added.len() == 0 {
        b.content()
    } else {
        let before = content_chain(b, added.drop_last());
        if b.strict {
            before + added.last()
        } else {
            last_n(before + added.last(), b.limit as nat)
        }
    }
}

/// Feeding a stream in any number of calls, cut anywhere (inside a header
/// or a payload too), routes exactly what one call with the whole stream
/// routes, and leaves each buffer holding what that one call would leave.
pub proof fn lemma_feed_in_any_pieces(
    s: DemuxView,
    chunks: Seq<Seq<u8>>,
    stdout: SharedLogBuffer,
    stderr: SharedLogBuffer,
    outs: Seq<Seq<u8>>,
    errs: Seq<Seq<u8>>,
)
    requires
        stdout.wf(),
        stderr.wf(),
        outs.len() == chunks.len(),
        errs.len() == chunks.len(),
        forall|i: int|
            0 <= i < chunks.len() ==> (#[trigger] outs[i], errs[i]) == ({
                let (si, _oi, _ei) = demux_chunks(s, chunks.take(i));
                let (_s2, o, e) = demux_bytes(si, chunks[i]);
                (o, e)
            }),
    ensures
        demux_chunks(s, chunks) == demux_bytes(s, chunks_joined(chunks)),
        content_chain(stdout, outs) == content_after(stdout, demux_bytes(s, chunks_joined(chunks)).1),
        content_chain(stderr, errs) == content_after(stderr, demux_bytes(s, chunks_joined(chunks)).2),
    decreases chunks.len(),
{
    if chunks.len() == 0 {
        assert(stdout.content() + Seq::<u8>::empty() =~= stdout.content());
        assert(stderr.content() + Seq::<u8>::empty() =~= stderr.content());
        assert(last_n(stdout.content(), stdout.limit as nat) =~= stdout.content());
        assert(last_n(stderr.content(), stderr.limit as nat) =~= stderr.content());
    } else {
        let n = chunks.len() - 1;
        let front = chunks.drop_last();
        assert forall|i: int| 0 <= i < front.len() implies (#[trigger] outs.drop_last()[i],
            errs.drop_last()[i]) == ({
            let (si, _oi, _ei) = demux_chunks(s, front.take(i));
            let (_s2, o, e) = demux_bytes(si, front[i]);
            (o, e)
        }) by {
            assert(front.take(i) =~= chunks.take(i));
            assert(outs.drop_last()[i] == outs[i]);
        }
        lemma_feed_in_any_pieces(s, front, stdout, stderr, outs.drop_last(), errs.drop_last());
        assert(chunks.take(n) =~= front);
        lemma_demux_chunking(s, chunks_joined(front), chunks.last());
        let (s1, o1, e1) = demux_chunks(s, front);
        let (s2, o2, e2) = demux_bytes(s1, chunks.last());
        assert(outs[n] == o2 && errs[n] == e2);
        lemma_content_after_compose(stdout, o1, o2);
        lemma_content_after_compose(stderr, e1, e2);
    }
}

/// The demultiplexer never emits more bytes than it is fed.
pub proof fn lemma_demux_output_len(s: DemuxView, d: Seq<u8>)
    ensures
        demux_bytes(s, d).1.len() + demux_bytes(s, d).2.len() <= d.len(),
    decreases d.len(),
{
    if d.len() > 0 {
        lemma_demux_output_len(s, d.drop_last());
    }
}

/// The streaming demultiplexer. Payload bytes go straight into the stream
/// buffers as they arrive, so a frame is never held whole.
pub struct FrameDemuxer {
    /// Reading a payload (else a header).
    pub in_payload: bool,
    pub header: [u8; 8],
    /// Header bytes collected so far.
    pub header_pos: usize,
    pub stream_type: u8,
    /// Payload bytes still to come.
    pub payload_remaining: usize,
}

impl FrameDemuxer {
    /// The state in terms of `demux_step`.
    pub open spec fn view_state(&self) -> DemuxView {
        DemuxView {
            in_payload: self.in_payload,
            collected: self.header@.take(self.header_pos as int),
            stream_type: self.stream_type,
            remaining: self.payload_remaining as nat,
        }
    }

    /// Either collecting a header (no stream, nothing pending), or inside a
    /// payload with the whole header at hand.
    pub open spec fn wf(&self) -> bool {
        &&& self.header_pos <= 8
        &&& self.in_payload ==> self.header_pos == 8 && self.payload_remaining >= 1
            && self.stream_type == self.header@[0]
        &&& !self.in_payload ==> self.header_pos < 8 && self.payload_remaining == 0
            && self.stream_type == 0
    }

    /// Waiting for the first header.
    pub fn new() -> (r: FrameDemuxer)
        ensures
            r.wf(),
            r.view_state() == demux_idle(),
    {
        let r = FrameDemuxer {
            in_payload: false,
            header: [0u8; 8],
            header_pos: 0,
            stream_type: 0,
            payload_remaining: 0,
        };
        assert(r.view_state().collected =~= Seq::<u8>::empty());
        r
    }

    /// Back to waiting for a header.
    pub fn reset_header(&mut self)
        ensures
            final(self).wf(),
            final(self).view_state() == demux_idle(),
            final(self).header == old(self).header,
    {
        self.in_payload = false;
        self.header_pos = 0;
        self.stream_type = 0;
        self.payload_remaining = 0;
        assert(self.view_state().collected =~= Seq::<u8>::empty());
    }

    /// Moves header bytes from `data[pos..]` into the header: as many as
    /// are missing or there are. Returns how many it took.
    fn take_header_bytes(&mut self, data: &[u8], pos: usize) -> (take: usize)
        requires
            old(self).wf(),
            !old(self).in_payload,
            pos < data@.len(),
        ensures
            1 <= take,
            pos + take <= data@.len(),
            final(self).wf(),
            demux_bytes(old(self).view_state(), data@.subrange(pos as int, pos + take)) == (
                final(self).view_state(),
                Seq::<u8>::empty(),
                Seq::<u8>::empty(),
            ),
    {
        let ghost sv = self.view_state();
        let need: usize = FRAME_HEADER_LEN - self.header_pos;
        let avail: usize = data.len() - pos;
        let take: usize = if need < avail {
            need
        } else {
            avail
        };
        let ghost chunk = data@.subrange(pos as int, pos + take);
        let ghost hp0 = self.header_pos;
        let ghost h0 = self.header@;
        let mut i: usize = 0;
        while i < take
            invariant
                i <= take,
                hp0 + take <= 8,
                pos + take <= data@.len(),
                pos + take <= data.len(),
                self.header_pos == hp0,
                self.in_payload == false,
                self.stream_type == 0,
                self.payload_remaining == 0,
                self.header@.len() == 8,
                h0.len() == 8,
                sv.collected == h0.take(hp0 as int),
                chunk == data@.subrange(pos as int, pos + take),
                forall|k: int| 0 <= k < hp0 ==> self.header@[k] == h0[k],
                forall|k: int| 0 <= k < i ==> #[trigger] self.header@[hp0 + k] == data@[pos + k],
            decreases take - i,
        {
            self.header[self.header_pos + i] = data[pos + i];
            i += 1;
        }
        self.header_pos = self.header_pos + take;
        proof {
            assert forall|k: int| 0 <= k < hp0 + take implies self.header@.take(
                (hp0 + take) as int,
            )[k] == (sv.collected + chunk)[k] by {
                if k >= hp0 {
                    let j = k - hp0;
                    assert(self.header@[hp0 + j] == data@[pos + j]);
                }
            }
            assert(self.header@.take(self.header_pos as int) =~= sv.collected + chunk);
        }
        if self.header_pos == FRAME_HEADER_LEN {
            self.stream_type = self.header[0];
            let len: u32 = self.header[4] as u32 * 16777216 + self.header[5] as u32 * 65536
                + self.header[6] as u32 * 256 + self.header[7] as u32;
            self.payload_remaining = len as usize;
            self.in_payload = true;
            proof {
                lemma_demux_header_complete(sv, chunk);
                assert(self.header@.take(8) =~= self.header@);
            }
            if self.payload_remaining == 0 {
                self.reset_header();
            }
        } else {
            proof {
                lemma_demux_header_partial(sv, chunk);
            }
        }
        take
    }

    /// Moves payload bytes from `data[pos..]` into the buffer of the frame's
    /// stream: as many as the frame has left or there are. Fails when a
    /// strict buffer would overflow.
    fn take_payload_bytes(
        &mut self,
        data: &[u8],
        pos: usize,
        stdout: &mut SharedLogBuffer,
        stderr: &mut SharedLogBuffer,
    ) -> (r: Result<usize, std::io::Error>)
        requires
            old(self).wf(),
            old(self).in_payload,
            pos < data@.len(),
            old(stdout).wf(),
            old(stderr).wf(),
            old(stdout).tail() + (data@.len() - pos) <= u64::MAX,
            old(stderr).tail() + (data@.len() - pos) <= u64::MAX,
        ensures
            final(self).wf(),
            final(stdout).wf(),
            final(stderr).wf(),
            final(stdout).limit == old(stdout).limit && final(stdout).strict == old(stdout).strict,
            final(stderr).limit == old(stderr).limit && final(stderr).strict == old(stderr).strict,
            ({
                let k = vstd::math::min(
                    old(self).payload_remaining as int,
                    data@.len() - pos,
                );
                let chunk = data@.subrange(pos as int, pos + k);
                let (s2, o, e) = demux_bytes(old(self).view_state(), chunk);
                &&& 1 <= k
                &&& r is Err <==> (strict_overflow(*old(stdout), o.len()) || strict_overflow(
                    *old(stderr),
                    e.len(),
                ))
                &&& r matches Err(x) ==> {
                    &&& *final(stdout) == *old(stdout)
                    &&& *final(stderr) == *old(stderr)
                    &&& io_error_message(x) == Some(
                        if old(self).stream_type == 1 {
                            overflow_text(true, old(stdout).limit as nat)
                        } else {
                            overflow_text(false, old(stderr).limit as nat)
                        },
                    )
                }
                &&& r matches Ok(t) ==> {
                    &&& t == k
                    &&& final(self).view_state() == s2
                    &&& final(stdout).content() == content_after(*old(stdout), o)
                    &&& final(stderr).content() == content_after(*old(stderr), e)
                    &&& final(stdout).tail() <= old(stdout).tail() + o.len()
                    &&& final(stderr).tail() <= old(stderr).tail() + e.len()
                }
            }),
    {
        let ghost sv = self.view_state();
        let avail: usize = data.len() - pos;
        let take: usize = if self.payload_remaining < avail {
            self.payload_remaining
        } else {
            avail
        };
        let chunk = &data[pos..pos + take];
        proof {
            lemma_demux_payload(sv, chunk@);
            assert(stdout.content() + Seq::<u8>::empty() =~= stdout.content());
            assert(stderr.content() + Seq::<u8>::empty() =~= stderr.content());
            assert(last_n(stdout.content(), stdout.limit as nat) =~= stdout.content());
            assert(last_n(stderr.content(), stderr.limit as nat) =~= stderr.content());
        }
        if self.stream_type == 1 {
            if !stdout.append(chunk) {
                return Err(io_error_other(overflow_message(true, stdout.limit)));
            }
        } else if self.stream_type == 2 {
            if !stderr.append(chunk) {
                return Err(io_error_other(overflow_message(false, stderr.limit)));
            }
        }
        self.payload_remaining = self.payload_remaining - take;
        if self.payload_remaining == 0 {
            self.reset_header();
        }
        Ok(take)
    }

    /// Demultiplexes `data` into the two buffers, as `demux_bytes` does byte
    /// by byte. Says whether anything was written to each buffer. Fails when
    /// a strict buffer would overflow, at the payload chunk that overflows
    /// it.
    pub fn feed(
        &mut self,
        data: &[u8],
        stdout: &mut SharedLogBuffer,
        stderr: &mut SharedLogBuffer,
    ) -> (r: Result<(bool, bool), std::io::Error>)
        requires
            old(self).wf(),
            old(stdout).wf(),
            old(stderr).wf(),
            old(stdout).tail() + data@.len() <= u64::MAX,
            old(stderr).tail() + data@.len() <= u64::MAX,
        ensures
            final(self).wf(),
            final(stdout).wf(),
            final(stderr).wf(),
            final(stdout).limit == old(stdout).limit && final(stdout).strict == old(stdout).strict,
            final(stderr).limit == old(stderr).limit && final(stderr).strict == old(stderr).strict,
            r matches Err(x) ==> exists|k: int|
                0 <= k <= data@.len() && #[trigger] feed_failed_at(
                    old(self).view_state(),
                    data@.take(k),
                    *old(stdout),
                    *old(stderr),
                    final(stdout).content(),
                    final(stderr).content(),
                ) && feed_overflows_at(
                    old(self).view_state(),
                    data@.take(k),
                    (data@.len() - k) as nat,
                    *old(stdout),
                    *old(stderr),
                ) && io_error_message(x) == Some(
                    feed_failure_text(old(self).view_state(), data@.take(k), *old(stdout), *old(stderr)),
                ),
            ({
                let (s2, out, err) = demux_bytes(old(self).view_state(), data@);
                &&& r is Err <==> (strict_overflow(*old(stdout), out.len()) || strict_overflow(
                    *old(stderr),
                    err.len(),
                ))
                &&& r matches Ok((wrote_out, wrote_err)) ==> {
                    &&& final(self).view_state() == s2
                    &&& wrote_out == (out.len() > 0)
                    &&& wrote_err == (err.len() > 0)
                    &&& final(stdout).content() == content_after(*old(stdout), out)
                    &&& final(stderr).content() == content_after(*old(stderr), err)
                }
            }),
    {
        let ghost init = self.view_state();
        let ghost out0 = *stdout;
        let ghost err0 = *stderr;
        let mut wrote_out = false;
        let mut wrote_err = false;
        let mut pos: usize = 0;
        proof {
            assert(data@.take(0) =~= Seq::<u8>::empty());
            assert(out0.content() + Seq::<u8>::empty() =~= out0.content());
            assert(err0.content() + Seq::<u8>::empty() =~= err0.content());
        }
        while pos < data.len()
            invariant
                self.wf(),
                stdout.wf(),
                stderr.wf(),
                out0.wf(),
                err0.wf(),
                pos <= data@.len(),
                stdout.limit == out0.limit && stdout.strict == out0.strict,
                stderr.limit == err0.limit && stderr.strict == err0.strict,
                ({
                    let (sv, o, e) = demux_bytes(init, data@.take(pos as int));
                    &&& self.view_state() == sv
                    &&& wrote_out == (o.len() > 0)
                    &&& wrote_err == (e.len() > 0)
                    &&& stdout.content() == content_after(out0, o)
                    &&& stderr.content() == content_after(err0, e)
                    &&& !strict_overflow(out0, o.len())
                    &&& !strict_overflow(err0, e.len())
                    &&& stdout.tail() <= out0.tail() + o.len()
                    &&& stderr.tail() <= err0.tail() + e.len()
                    &&& o.len() <= pos
                    &&& e.len() <= pos
                }),
                out0.tail() + data@.len() <= u64::MAX,
                err0.tail() + data@.len() <= u64::MAX,
                out0 == *old(stdout),
                err0 == *old(stderr),
                init == old(self).view_state(),
            decreases data@.len() - pos,
        {
            let ghost (sv, o, e) = demux_bytes(init, data@.take(pos as int));
            proof {
                lemma_demux_output_len(init, data@.take(pos as int));
            }
            if !self.in_payload {
                let take = self.take_header_bytes(data, pos);
                proof {
                    let chunk = data@.subrange(pos as int, pos + take);
                    assert(data@.take(pos + take) =~= data@.take(pos as int) + chunk);
                    lemma_demux_chunking(init, data@.take(pos as int), chunk);
                    assert(o + Seq::<u8>::empty() =~= o);
                    assert(e + Seq::<u8>::empty() =~= e);
                }
                pos = pos + take;
            } else {
                let st: u8 = self.stream_type;
                match self.take_payload_bytes(data, pos, stdout, stderr) {
                    Ok(take) => {
                        proof {
                            let chunk = data@.subrange(pos as int, pos + take);
                            assert(data@.take(pos + take) =~= data@.take(pos as int) + chunk);
                            lemma_demux_chunking(init, data@.take(pos as int), chunk);
                            let (s2, oc, ec) = demux_bytes(sv, chunk);
                            lemma_content_after_compose(out0, o, oc);
                            lemma_content_after_compose(err0, e, ec);
                            lemma_demux_output_len(sv, chunk);
                            lemma_demux_payload(sv, chunk);
                        }
                        wrote_out = wrote_out || (st == 1 && take > 0);
                        wrote_err = wrote_err || (st == 2 && take > 0);
                        pos = pos + take;
                    },
                    Err(err) => {
                        proof {
                            let k = vstd::math::min(
                                sv.remaining as int,
                                data@.len() - pos,
                            );
                            let chunk = data@.subrange(pos as int, pos + k);
                            assert(data@.take(pos + k) =~= data@.take(pos as int) + chunk);
                            lemma_demux_chunking(init, data@.take(pos as int), chunk);
                            let rest = data@.subrange(pos + k, data@.len() as int);
                            lemma_demux_chunking(init, data@.take(pos + k), rest);
                            assert(data@.take(pos + k) + rest =~= data@);
                            assert(feed_failed_at(
                                old(self).view_state(),
                                data@.take(pos as int),
                                *old(stdout),
                                *old(stderr),
                                stdout.content(),
                                stderr.content(),
                            ));
                            assert(io_error_message(err) == Some(
                                feed_failure_text(
                                    old(self).view_state(),
                                    data@.take(pos as int),
                                    *old(stdout),
                                    *old(stderr),
                                ),
                            ));
                            lemma_feed_stops_at(init, data@, pos as int, out0, err0, *stdout, *stderr);
                            assert(feed_overflows_at(
                                old(self).view_state(),
                                data@.take(pos as int),
                                (data@.len() - pos) as nat,
                                *old(stdout),
                                *old(stderr),
                            ));
                        }
                        return Err(err);
                    },
                }
            }
        }
        proof {
            assert(data@.take(pos as int) =~= data@);
        }
        Ok((wrote_out, wrote_err))
    }
}

/// The one-shot demultiplexing of an exec's whole output: frame after
/// frame; a last frame cut short gives what it has, and fewer than eight
/// trailing bytes give nothing.
pub open spec fn exec_demux(d: Seq<u8>) -> (Seq<u8>, Seq<u8>)
    decreases d.len(),
{
    if d.len() < 8 {
        (Seq::empty(), Seq::empty())
    } else {
        let end = vstd::math::min(8 + be32(d) as int, d.len() as int);
        let chunk = d.subrange(8, end);
        let (o, e) = exec_demux(d.subrange(end, d.len() as int));
        (routed(d[0], 1, chunk) + o, routed(d[0], 2, chunk) + e)
    }
}

/// Splits an exec's multiplexed output into standard output and standard
/// error.
pub fn demux_exec_stream(data: &[u8]) -> (r: (Vec<u8>, Vec<u8>))
    ensures
        (r.0@, r.1@) == exec_demux(data@),
{
    let mut stdout: Vec<u8> = Vec::new();
    let mut stderr: Vec<u8> = Vec::new();
    let mut pos: usize = 0;
    proof {
        let (o, e) = exec_demux(data@);
        assert(data@.subrange(0, data@.len() as int) =~= data@);
        assert(stdout@ + o =~= o);
        assert(stderr@ + e =~= e);
    }
    while pos <= data.len() && data.len() - pos >= FRAME_HEADER_LEN
        invariant
            pos <= data@.len(),
            ({
                let (o, e) = exec_demux(data@.subrange(pos as int, data@.len() as int));
                (stdout@ + o, stderr@ + e) == exec_demux(data@)
            }),
        decreases data@.len() - pos,
    {
        let ghost d = data@.subrange(pos as int, data@.len() as int);
        let stream_type: u8 = data[pos];
        let payload_len: u32 = data[pos + 4] as u32 * 16777216 + data[pos + 5] as u32 * 65536
            + data[pos + 6] as u32 * 256 + data[pos + 7] as u32;
        pos = pos + FRAME_HEADER_LEN;
        let end: usize = if payload_len as usize > data.len() - pos {
            data.len()
        } else {
            pos + payload_len as usize
        };
        let chunk = &data[pos..end];
        let ghost before_out = stdout@;
        let ghost before_err = stderr@;
        if stream_type == 1 {
            push_slice(&mut stdout, chunk);
        } else if stream_type == 2 {
            push_slice(&mut stderr, chunk);
        }
        proof {
            let dend = vstd::math::min(8 + be32(d) as int, d.len() as int);
            assert(be32(d) == payload_len);
            assert(dend == end - (pos - 8));
            assert(d.subrange(8, dend) =~= chunk@);
            assert(d.subrange(dend, d.len() as int) =~= data@.subrange(end as int, data@.len() as int));
            let (o, e) = exec_demux(data@.subrange(end as int, data@.len() as int));
            assert(stdout@ + o =~= before_out + (routed(stream_type, 1, chunk@) + o));
            assert(stderr@ + e =~= before_err + (routed(stream_type, 2, chunk@) + e));
        }
        pos = end;
    }
    proof {
        assert(exec_demux(data@.subrange(pos as int, data@.len() as int)) == (Seq::<u8>::empty(), Seq::<u8>::empty()));
        assert(stdout@ + Seq::<u8>::empty() =~= stdout@);
        assert(stderr@ + Seq::<u8>::empty() =~= stderr@);
    }
    (stdout, stderr)
}

fn push_slice(out: &mut Vec<u8>, bytes: &[u8])
    ensures
        final(out)@ == old(out)@ + bytes@,
{
    let ghost start = out@;
    let mut i: usize = 0;
    while i < bytes.len()
        invariant
            i <= bytes@.len(),
            out@ == start + bytes@.take(i as int),
        decreases bytes@.len() - i,
    {
        out.push(bytes[i]);
        i += 1;
        proof {
            assert(out@ =~= start + bytes@.take(i as int));
        }
    }
    assert(bytes@.take(i as int) =~= bytes@);
}

/// The one-shot demultiplexing of a whole exec output and the streaming
/// demultiplexer fed the same bytes send the same bytes to each stream.
pub proof fn lemma_exec_demux_matches_stream(d: Seq<u8>)
    ensures
        exec_demux(d) == (demux_bytes(demux_idle(), d).1, demux_bytes(demux_idle(), d).2),
    decreases d.len(),
{
    let idle = demux_idle();
    if d.len() < 8 {
        if d.len() > 0 {
            lemma_demux_header_partial(idle, d);
        }
    } else {
        let h = d.subrange(0, 8);
        let end = vstd::math::min(8 + be32(d) as int, d.len() as int);
        let chunk = d.subrange(8, end);
        let rest = d.subrange(end, d.len() as int);
        lemma_demux_header_complete(idle, h);
        assert(idle.collected + h =~= h);
        assert(be32(h) == be32(d));
        assert(h[0] == d[0]);
        let s1 = after_header(h);
        assert(demux_bytes(idle, h) == (s1, Seq::<u8>::empty(), Seq::<u8>::empty()));
        assert(h + chunk =~= d.subrange(0, end));
        assert(d.subrange(0, end) + rest =~= d);
        lemma_demux_chunking(idle, h, chunk);
        lemma_demux_chunking(idle, h + chunk, rest);
        let r1 = routed(d[0], 1, chunk);
        let r2 = routed(d[0], 2, chunk);
        if be32(h) == 0 {
            assert(chunk =~= Seq::<u8>::empty());
            assert(r1 =~= Seq::<u8>::empty());
            assert(r2 =~= Seq::<u8>::empty());
            assert(demux_bytes(s1, chunk) == (idle, r1, r2));
        } else {
            lemma_demux_payload(s1, chunk);
            assert(routed(s1.stream_type, 1, chunk) == r1);
            assert(routed(s1.stream_type, 2, chunk) == r2);
        }
        let (s2, o2, e2) = demux_bytes(s1, chunk);
        assert(o2 == r1 && e2 == r2);
        assert(Seq::<u8>::empty() + r1 =~= r1);
        assert(Seq::<u8>::empty() + r2 =~= r2);
        assert(demux_bytes(idle, h + chunk) == (s2, r1, r2));
        let (s3, o3, e3) = demux_bytes(s2, rest);
        assert(demux_bytes(idle, d) == (s3, r1 + o3, r2 + e3));
        if chunk.len() == be32(h) {
            if be32(h) != 0 {
                assert(s2 == idle);
            }
            lemma_exec_demux_matches_stream(rest);
        } else {
            assert(rest =~= Seq::<u8>::empty());
            assert(exec_demux(rest) == (Seq::<u8>::empty(), Seq::<u8>::empty()));
            assert(r1 + o3 =~= r1);
            assert(r2 + e3 =~= r2);
        }
        assert(exec_demux(d) == (r1 + exec_demux(rest).0, r2 + exec_demux(rest).1));
    }
}

/// The media type of a `Content-Type` value: before any parameters, without
/// surrounding white space.
pub open spec fn media_type(content_type: Seq<char>) -> Seq<char> {
    trim_text(before_first(content_type, ';'))
}

/// Can a response with this content type be demultiplexed? A missing or
/// empty type counts, as older engines send none or
/// `application/octet-stream` for multiplexed logs.
pub open spec fn multiplex_content_type(content_type: Option<Seq<char>>) -> bool {
    match content_type {
        None => true,
        Some(ct) => {
            let media = media_type(ct);
            media.len() == 0 || eq_ignore_ascii_case_spec(
                media,
                "application/vnd.docker.multiplexed-stream"@,
            ) || eq_ignore_ascii_case_spec(media, "application/octet-stream"@)
        },
    }
}

/// Whether a response's `Content-Type` marks a multiplexed stream.
pub fn is_multiplex_content_type(content_type: Option<&str>) -> (r: bool)
    ensures
        r == multiplex_content_type(
            match content_type {
                Some(s) => Some(s@),
                None => None,
            },
        ),
{
    match content_type {
        None => true,
        Some(ct) => {
            let before = prefix_before(ct, ';');
            let media = trim_str(before.as_str());
            media.is_empty() || eq_ignore_ascii_case(
                media,
                "application/vnd.docker.multiplexed-stream",
            ) || eq_ignore_ascii_case(media, "application/octet-stream")
        },
    }
}

} // verus!
