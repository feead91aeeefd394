//! Sending a stretch of a file piece by piece.
use vstd::prelude::*;
use bytes::{Bytes, BytesMut};
use crate::outside::{buffer_bytes, chunk_bytes};

verus! {

/// Makes sure that a buffer has room for `cap` more bytes, and leaves what is in it as it is. How much
/// room there is afterwards is up to the allocator, and is not stated.
pub fn reserve_at_least(buf: &mut BytesMut, cap: usize)
    requires
        buffer_bytes(*old(buf)).len() + cap <= isize::MAX,
    ensures
        buffer_bytes(*final(buf)) == buffer_bytes(*old(buf)),
{
    if lacks_room(buf.capacity(), buf.len(), cap) {
        buf.reserve(cap);
    }
}

/// Whether a buffer with this capacity, of which `len` bytes are taken, has no room for `cap` more.
pub fn lacks_room(capacity: usize, len: usize, cap: usize) -> (r: bool)
    requires
        len <= capacity,
    ensures
        r == (capacity - len < cap),
{
    capacity - len < cap
}

/// Where a file is set to before it is read, if it has to be set at all.
pub fn seek_target(start: u64) -> (r: Option<u64>)
    ensures
        r == (if start != 0 {
            Some(start)
        } else {
            None
        }),
{
    if start != 0 {
        Some(start)
    } else {
        None
    }
}

/// A stretch of a file on its way: what has been read and not yet sent, and how much is still to be
/// sent.
pub struct FileStream {
    pub buf: BytesMut,
    pub remaining: u64,
    pub buf_size: usize,
}

/// What of the bytes just read is sent.
pub open spec fn sent_part(read: Seq<u8>, remaining: nat) -> Seq<u8> {
    if read.len() > remaining {
        read.take(remaining as int)
    } else {
        read
    }
}

impl FileStream {
    /// A stream of the bytes from `start` up to `end`.
    pub fn new(buf_size: usize, start: u64, end: u64) -> (r: FileStream)
        requires
            start <= end,
        ensures
            r.remaining == end - start,
            r.buf_size == buf_size,
            buffer_bytes(r.buf) == Seq::<u8>::empty(),
    {
        FileStream { buf: BytesMut::new(), remaining: end - start, buf_size }
    }

    /// Gets ready to read. The answer is no if nothing is left to be sent.
    pub fn prepare(&mut self) -> (r: bool)
        requires
            buffer_bytes(old(self).buf).len() + old(self).buf_size <= isize::MAX,
        ensures
            r == (old(self).remaining != 0),
            buffer_bytes(final(self).buf) == buffer_bytes(old(self).buf),
            final(self).remaining == old(self).remaining,
            final(self).buf_size == old(self).buf_size,
    {
        if self.remaining == 0 {
            return false;
        }
        reserve_at_least(&mut self.buf, self.buf_size);
        true
    }

    /// Takes what has just been read out of the buffer and cuts it to what is still to be sent. If
    /// nothing has been read the file is shorter than expected, and nothing more is sent.
    pub fn take_chunk(&mut self, n: usize) -> (r: Option<Bytes>)
        requires
            n == buffer_bytes(old(self).buf).len(),
        ensures
            match r {
                Some(chunk) => n > 0 && chunk_bytes(chunk) == sent_part(
                    buffer_bytes(old(self).buf),
                    old(self).remaining as nat,
                ),
                None => n == 0,
            },
            final(self).remaining == old(self).remaining - sent_part(
                buffer_bytes(old(self).buf),
                old(self).remaining as nat,
            ).len(),
            final(self).buf_size == old(self).buf_size,
            buffer_bytes(final(self).buf) == Seq::<u8>::empty(),
            forall|rest: Seq<Seq<u8>>|
                n > 0 ==> stream_output(
                    old(self).remaining as nat,
                    #[trigger] (seq![buffer_bytes(old(self).buf)] + rest),
                ) == sent_part(buffer_bytes(old(self).buf), old(self).remaining as nat)
                    + stream_output(final(self).remaining as nat, rest),
    {
        if n == 0 {
            return None;
        }
        proof {
            let read = buffer_bytes(self.buf);
            assert forall|rest: Seq<Seq<u8>>| stream_output(
                self.remaining as nat,
                #[trigger] (seq![read] + rest),
            ) == sent_part(read, self.remaining as nat) + stream_output(
                (self.remaining - sent_part(read, self.remaining as nat).len()) as nat,
                rest,
            ) by {
                law_chunk_then_rest(self.remaining as nat, read, rest);
            }
        }
        let mut chunk = self.buf.split().freeze();
        if n as u64 > self.remaining {
            chunk = chunk.split_to(self.remaining as usize);
            self.remaining = 0;
        } else {
            self.remaining = self.remaining - n as u64;
        }
        Some(chunk)
    }
}

/// What is sent in all, given what each read brings: until enough has been sent, or a read brings
/// nothing.
pub open spec fn stream_output(remaining: nat, reads: Seq<Seq<u8>>) -> Seq<u8>
    decreases reads.len(),
{
    if remaining == 0 || reads.len() == 0 || reads[0].len() == 0 {
        seq![]
    } else {
        let part = sent_part(reads[0], remaining);
        part + stream_output((remaining - part.len()) as nat, reads.skip(1))
    }
}

/// What is sent in all is what is sent of the first read, followed by what is sent of the others.
pub proof fn law_chunk_then_rest(remaining: nat, read: Seq<u8>, rest: Seq<Seq<u8>>)
    requires
        read.len() > 0,
    ensures
        stream_output(remaining, seq![read] + rest) == sent_part(read, remaining) + stream_output(
            (remaining - sent_part(read, remaining).len()) as nat,
            rest,
        ),
{
    let reads = seq![read] + rest;
    assert(reads.skip(1) =~= rest);
    if remaining == 0 {
        assert(sent_part(read, remaining) =~= seq![]);
        assert(stream_output(0, rest) =~= seq![]);
        assert(sent_part(read, remaining) + stream_output(0, rest) =~= seq![]);
    }
}

/// Whatever pieces a file is read in, what is sent is the beginning of what was read: all that was
/// asked for, or all that there is.
pub proof fn law_stream_sends_prefix(remaining: nat, reads: Seq<Seq<u8>>)
    requires
        forall|i: int| 0 <= i < reads.len() ==> (#[trigger] reads[i]).len() > 0,
    ensures
        stream_output(remaining, reads) == (if reads.flatten().len() <= remaining {
            reads.flatten()
        } else {
            reads.flatten().take(remaining as int)
        }),
    decreases reads.len(),
{
    if reads.len() > 0 {
        assert(reads.skip(1) =~= reads.drop_first());
        assert forall|i: int| 0 <= i < reads.skip(1).len() implies (#[trigger] reads.skip(
            1,
        )[i]).len() > 0 by {
            assert(reads[i + 1].len() > 0);
        }
        assert(reads.flatten() == reads[0] + reads.skip(1).flatten());
        if remaining == 0 {
            assert(reads.flatten().take(0) =~= seq![]);
        } else {
            let part = sent_part(reads[0], remaining);
            let left = (remaining - part.len()) as nat;
            law_stream_sends_prefix(left, reads.skip(1));
            if reads.flatten().len() <= remaining {
            } else if reads[0].len() > remaining {
                assert(stream_output(left, reads.skip(1)) =~= seq![]) by {}
                assert(reads.flatten().take(remaining as int) =~= part);
            } else {
                assert(reads.flatten().take(remaining as int) =~= reads[0]
                    + reads.skip(1).flatten().take(left as int));
            }
        }
    }
}

/// A stretch of a file that is read from its first byte on, in whatever pieces, is sent byte for
/// byte.
pub proof fn law_stream_sends_stretch(data: Seq<u8>, start: int, end: int, reads: Seq<Seq<u8>>)
    requires
        0 <= start <= end <= data.len(),
        forall|i: int| 0 <= i < reads.len() ==> (#[trigger] reads[i]).len() > 0,
        end - start <= reads.flatten().len() <= data.len() - start,
        reads.flatten() == data.subrange(start, start + reads.flatten().len()),
    ensures
        stream_output((end - start) as nat, reads) == data.subrange(start, end),
{
    law_stream_sends_prefix((end - start) as nat, reads);
    let n = reads.flatten().len() as int;
    assert(data.subrange(start, start + n).take(end - start) =~= data.subrange(start, end));
}

} // verus!
