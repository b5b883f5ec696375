//! The shared buffer that holds one output stream of a container's logs.
//! Readers keep their own absolute offsets into it; when it is full, the
//! oldest bytes are dropped (or, in strict mode, the append is refused).

use vstd::prelude::*;
use std::collections::VecDeque;

verus! {

/// Default capacity of a log stream buffer: 8 MiB.
pub const DEFAULT_BUFFER_LIMIT: usize = 8388608;

/// How many bytes one read hands out at most.
pub const READ_CHUNK: usize = 8192;

/// The last `limit` bytes of `s` (all of `s` if it is shorter).
pub open spec fn last_n(s: Seq<u8>, limit: nat) -> Seq<u8> {
    if s.len() > limit {
        s.subrange(s.len() - limit, s.len() as int)
    } else {
        s
    }
}

/// How many bytes of the stream are dropped when `data_len` bytes are
/// appended to `held` bytes: all that goes beyond the limit, counted from
/// the oldest (so a chunk longer than the limit loses its own front too).
pub open spec fn dropped_on_append(held: nat, data_len: nat, limit: nat) -> nat {
    if held + data_len > limit {
        (held + data_len - limit) as nat
    } else {
        0
    }
}

/// A byte buffer with the absolute offset of its first byte.
pub struct SharedLogBuffer {
    pub buf: VecDeque<u8>,
    /// Absolute offset of the first byte held; advances as bytes are dropped.
    pub head: u64,
    /// Most bytes held at once.
    pub limit: usize,
    /// Refuse appends beyond the limit instead of dropping old bytes.
    pub strict: bool,
}

impl SharedLogBuffer {
    /// The bytes held.
    pub open spec fn content(&self) -> Seq<u8> {
        self.buf@
    }

    /// Absolute offset just past the last byte held.
    pub open spec fn tail(&self) -> nat {
        self.head as nat + self.buf@.len()
    }

    /// The buffer holds at most `limit` bytes and its offsets fit `u64`.
    pub open spec fn wf(&self) -> bool {
        self.buf@.len() <= self.limit && self.tail() <= u64::MAX
    }

    /// A buffer that drops its oldest bytes when full.
    pub fn new(limit: usize) -> (r: SharedLogBuffer)
        ensures
            r.wf(),
            r.content() == Seq::<u8>::empty(),
            r.head == 0,
            r.limit == limit,
            !r.strict,
    {
        Self::with_mode(limit, false)
    }

    /// A buffer that refuses appends beyond its limit.
    pub fn new_strict(limit: usize) -> (r: SharedLogBuffer)
        ensures
            r.wf(),
            r.content() == Seq::<u8>::empty(),
            r.head == 0,
            r.limit == limit,
            r.strict,
    {
        Self::with_mode(limit, true)
    }

    /// An empty buffer of the given limit and mode.
    pub fn with_mode(limit: usize, strict: bool) -> (r: SharedLogBuffer)
        ensures
            r.wf(),
            r.content() == Seq::<u8>::empty(),
            r.head == 0,
            r.limit == limit,
            r.strict == strict,
    {
        SharedLogBuffer { buf: VecDeque::new(), head: 0, limit, strict }
    }

    /// Appends `data`. In strict mode an append that would take the buffer
    /// beyond its limit is refused whole (`false`). Otherwise the buffer
    /// keeps the last `limit` bytes of its content followed by `data`, and
    /// the head advances by every byte dropped, so that it stays the
    /// absolute offset of the first byte held.
    pub fn append(&mut self, data: &[u8]) -> (r: bool)
        requires
            old(self).wf(),
            old(self).tail() + data@.len() <= u64::MAX,
        ensures
            final(self).wf(),
            r ==> final(self).tail() == old(self).tail() + data@.len(),
            final(self).limit == old(self).limit,
            final(self).strict == old(self).strict,
            r == (data@.len() == 0 || !old(self).strict || old(self).content().len() + data@.len()
                <= old(self).limit),
            !r ==> *final(self) == *old(self),
            r && old(self).strict ==> final(self).content() == old(self).content() + data@
                && final(self).head == old(self).head,
            r && !old(self).strict ==> final(self).content() == last_n(
                old(self).content() + data@,
                old(self).limit as nat,
            ),
            r && !old(self).strict ==> final(self).head == old(self).head + dropped_on_append(
                old(self).content().len(),
                data@.len(),
                old(self).limit as nat,
            ),
    {
        if data.len() == 0 {
            proof {
                assert(old(self).content() + data@ =~= old(self).content());
            }
            return true;
        }
        if self.strict {
            if data.len() > self.limit || data.len() > self.limit - self.buf.len() {
                return false;
            }
            let ghost before = self.buf@;
            let mut i: usize = 0;
            while i < data.len()
                invariant
                    i <= data@.len(),
                    self.buf@ == before + data@.take(i as int),
                    before.len() + data@.len() <= self.limit,
                    before == old(self).buf@,
                    self.head == old(self).head,
                    self.limit == old(self).limit,
                    self.strict == old(self).strict,
                    old(self).tail() + data@.len() <= u64::MAX,
                decreases data@.len() - i,
            {
                self.buf.push_back(data[i]);
                i += 1;
                proof {
                    assert(self.buf@ =~= before + data@.take(i as int));
                }
            }
            proof {
                assert(data@.take(i as int) =~= data@);
            }
            return true;
        }
        let start: usize = if data.len() > self.limit {
            data.len() - self.limit
        } else {
            0
        };
        let ghost before = self.buf@;
        let ghost keep = data@.subrange(start as int, data@.len() as int);
        let mut i: usize = start;
        while i < data.len()
            invariant
                start <= i <= data@.len(),
                keep == data@.subrange(start as int, data@.len() as int),
                self.buf@ == before + data@.subrange(start as int, i as int),
                before.len() <= self.limit,
                keep.len() <= self.limit,
                self.head == old(self).head,
                self.limit == old(self).limit,
                self.strict == old(self).strict,
            decreases data@.len() - i,
        {
            self.buf.push_back(data[i]);
            i += 1;
            proof {
                assert(self.buf@ =~= before + data@.subrange(start as int, i as int));
            }
        }
        let ghost joined = self.buf@;
        proof {
            assert(joined =~= before + keep);
        }
        let ghost head0 = self.head;
        while self.buf.len() > self.limit
            invariant
                joined.len() <= 2 * self.limit,
                self.head >= head0,
                self.buf@ == joined.subrange(self.head - head0, joined.len() as int),
                head0 == old(self).head,
                head0 + before.len() + data@.len() <= u64::MAX,
                self.head - head0 <= before.len(),
                joined == before + keep,
                keep.len() <= self.limit,
                self.limit == old(self).limit,
                self.strict == old(self).strict,
                joined.len() > self.limit ==> self.buf@.len() >= self.limit,
                joined.len() <= self.limit ==> self.head == head0,
            decreases self.buf@.len(),
        {
            self.buf.pop_front();
            self.head = self.head + 1;
            proof {
                assert(self.buf@ =~= joined.subrange(self.head - head0, joined.len() as int));
            }
        }
        self.head = self.head + start as u64;
        proof {
            let all = before + data@;
            if data@.len() > self.limit {
                assert(keep =~= all.subrange(all.len() - self.limit, all.len() as int));
            }
            assert(self.buf@ =~= last_n(all, self.limit as nat));
        }
        true
    }

    /// What a read from absolute offset `reader_offset` into a buffer that
    /// held `before` does: `after` is what the buffer then holds, and `r`
    /// the bytes copied, the next offset and whether bytes were skipped.
    pub open spec fn read_outcome(
        &self,
        reader_offset: u64,
        before: Seq<u8>,
        after: Seq<u8>,
        r: (usize, u64, bool),
    ) -> bool {
        let offset = if reader_offset < self.head {
            self.head
        } else {
            reader_offset
        };
        let (n, next, skipped) = r;
        &&& skipped == (reader_offset < self.head)
        &&& if offset >= self.tail() || before.len() == 0 {
            n == 0 && next == offset && after == before
        } else {
            let start = offset - self.head;
            &&& n == vstd::math::min(self.tail() - offset, before.len() as int)
            &&& next == offset + n
            &&& after == self.content().subrange(start, start + n) + before.subrange(
                n as int,
                before.len() as int,
            )
        }
    }

    /// Copies into `buf` what can be read from absolute offset
    /// `reader_offset` on. A reader behind the head has missed dropped bytes:
    /// it is moved to the head and `skipped` is set. Returns the bytes
    /// copied, the next offset and `skipped`.
    pub fn read_at(&self, reader_offset: u64, buf: &mut [u8]) -> (r: (usize, u64, bool))
        requires
            self.wf(),
        ensures
            self.read_outcome(reader_offset, old(buf)@, final(buf)@, r),
    {
        let tail: u64 = self.head + self.buf.len() as u64;
        let skipped = reader_offset < self.head;
        let offset: u64 = if skipped {
            self.head
        } else {
            reader_offset
        };
        if offset >= tail || buf.len() == 0 {
            return (0, offset, skipped);
        }
        let start: usize = (offset - self.head) as usize;
        let avail: usize = self.buf.len() - start;
        let n: usize = if avail < buf.len() {
            avail
        } else {
            buf.len()
        };
        let ghost orig = buf@;
        let mut i: usize = 0;
        while i < n
            invariant
                i <= n,
                n <= orig.len(),
                start + n <= self.buf@.len(),
                start + n <= self.buf.len(),
                buf@.len() == orig.len(),
                forall|k: int| 0 <= k < i ==> buf@[k] == self.buf@[start + k],
                forall|k: int| i <= k < orig.len() ==> buf@[k] == orig[k],
            decreases n - i,
        {
            buf[i] = self.buf[start + i];
            i += 1;
        }
        proof {
            assert(buf@ =~= self.content().subrange(start as int, start + n) + orig.subrange(
                n as int,
                orig.len() as int,
            ));
        }
        (n, offset + n as u64, skipped)
    }
}

/// After any sequence of appends, a buffer that drops its oldest bytes
/// holds the last `limit` bytes of everything appended: taking the last
/// `limit` bytes after each chunk gives what taking them once at the end
/// gives.
pub proof fn lemma_last_n_compose(s: Seq<u8>, data: Seq<u8>, limit: nat)
    ensures
        last_n(last_n(s, limit) + data, limit) == last_n(s + data, limit),
{
    let a = last_n(s, limit) + data;
    let b = s + data;
    if s.len() > limit {
        let d = s.len() - limit;
        assert(a =~= b.subrange(d, b.len() as int));
        if a.len() > limit {
            assert(last_n(a, limit) =~= last_n(b, limit));
        } else {
            assert(last_n(a, limit) =~= last_n(b, limit));
        }
    } else {
        assert(a =~= b);
    }
}

/// Chunks one after another.
pub open spec fn joined_chunks(chunks: Seq<Seq<u8>>) -> Seq<u8>
    decreases chunks.len(),
{
    if chunks.len() == 0 {
        Seq::empty()
    } else {
        joined_chunks(chunks.drop_last()) + chunks.last()
    }
}

/// What a buffer that drops its oldest bytes holds, and its head, after
/// `chunks` were appended one call each to content `content` at head
/// `head`, as `append` says of each call.
pub open spec fn after_appends(content: Seq<u8>, head: nat, limit: nat, chunks: Seq<Seq<u8>>) -> (
    Seq<u8>,
    nat,
)
    decreases chunks.len(),
{
    if chunks.len() == 0 {
        (content, head)
    } else {
        let (c, h) = after_appends(content, head, limit, chunks.drop_last());
        (
            last_n(c + chunks.last(), limit),
            h + dropped_on_append(c.len(), chunks.last().len(), limit),
        )
    }
}

/// However many appends a buffer that drops its oldest bytes takes, it
/// holds the last `limit` bytes of all that was appended (after what it
/// held), and its head is the absolute offset of the first of them: the
/// count of all bytes ever appended less those it holds.
pub proof fn lemma_appends_keep_the_last(content: Seq<u8>, head: nat, limit: nat, chunks: Seq<Seq<u8>>)
    requires
        content.len() <= limit,
    ensures
        ({
            let all = content + joined_chunks(chunks);
            let (c, h) = after_appends(content, head, limit, chunks);
            &&& c == last_n(all, limit)
            &&& h + c.len() == head + all.len()
        }),
    decreases chunks.len(),
{
    if chunks.len() == 0 {
        assert(content + Seq::<u8>::empty() =~= content);
    } else {
        let front = chunks.drop_last();
        lemma_appends_keep_the_last(content, head, limit, front);
        let before = content + joined_chunks(front);
        lemma_last_n_compose(before, chunks.last(), limit);
        assert(content + joined_chunks(chunks) =~= before + chunks.last());
    }
}

/// Everything the buffer holds, from its head on.
pub fn drain_buffer(buffer: &SharedLogBuffer) -> (r: Vec<u8>)
    requires
        buffer.wf(),
    ensures
        r@ == buffer.content(),
{
    let mut out: Vec<u8> = Vec::new();
    let mut chunk: Vec<u8> = vec![0u8; READ_CHUNK];
    let mut offset: u64 = buffer.head;
    loop
        invariant
            buffer.wf(),
            buffer.head <= offset <= buffer.tail(),
            out@ == buffer.content().subrange(0, offset - buffer.head),
            chunk@.len() == READ_CHUNK,
        ensures
            out@ == buffer.content(),
        decreases buffer.tail() - offset,
    {
        let (n, next, _skipped) = buffer.read_at(offset, chunk.as_mut_slice());
        if n == 0 {
            proof {
                assert(out@ =~= buffer.content());
            }
            break;
        }
        let mut i: usize = 0;
        let ghost before = out@;
        while i < n
            invariant
                i <= n,
                n <= chunk@.len(),
                out@ == before + chunk@.take(i as int),
            decreases n - i,
        {
            out.push(chunk[i]);
            i += 1;
            proof {
                assert(out@ =~= before + chunk@.take(i as int));
            }
        }
        proof {
            let start = offset - buffer.head;
            assert(chunk@.take(n as int) =~= buffer.content().subrange(start, start + n));
            assert(out@ =~= buffer.content().subrange(0, next - buffer.head));
        }
        offset = next;
    }
    out
}

/// A reader that follows a shared log buffer as it grows, at an offset of
/// its own.
#[derive(Debug, Clone, Copy)]
pub struct FollowCursor {
    /// The absolute offset to read from next.
    pub offset: u64,
    /// Whether a skip over dropped bytes was already reported.
    pub warned_skip: bool,
}

/// What one attempt of a following reader to read gives.
#[derive(Debug, Clone, Copy, PartialEq, Eq, Structural)]
pub enum FollowRead {
    /// This many bytes (at least one) were read.
    Data(usize),
    /// Nothing is left and the stream has ended.
    Eof,
    /// Nothing is there yet: wait for more and try again.
    Wait,
}

impl FollowCursor {
    /// A reader at the start of the stream.
    pub fn new() -> (r: FollowCursor)
        ensures
            r.offset == 0,
            !r.warned_skip,
    {
        FollowCursor { offset: 0, warned_skip: false }
    }

    /// One attempt to read into `buf`: bytes where there are; the end
    /// where there are none and the stream has `terminated`; else wait.
    /// The second result says whether to report now that dropped bytes
    /// were skipped, which is done once per reader.
    pub fn read_step(&mut self, buffer: &SharedLogBuffer, terminated: bool, buf: &mut [u8]) -> (r: (
        FollowRead,
        bool,
    ))
        requires
            buffer.wf(),
        ensures
            ({
                let skipped = old(self).offset < buffer.head;
                let n: usize = match r.0 {
                    FollowRead::Data(k) => k,
                    _ => 0,
                };
                &&& buffer.read_outcome(
                    old(self).offset,
                    old(buf)@,
                    final(buf)@,
                    (n, final(self).offset, skipped),
                )
                &&& r.1 == (skipped && !old(self).warned_skip)
                &&& final(self).warned_skip == (old(self).warned_skip || skipped)
                &&& (r.0 matches FollowRead::Data(k) ==> k > 0)
                &&& (!(r.0 is Data) ==> r.0 == if terminated {
                    FollowRead::Eof
                } else {
                    FollowRead::Wait
                })
            }),
    {
        let (n, next, skipped) = buffer.read_at(self.offset, buf);
        self.offset = next;
        let warn = skipped && !self.warned_skip;
        if skipped {
            self.warned_skip = true;
        }
        if n > 0 {
            (FollowRead::Data(n), warn)
        } else if terminated {
            (FollowRead::Eof, warn)
        } else {
            (FollowRead::Wait, warn)
        }
    }
}

} // verus!
