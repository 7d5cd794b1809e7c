//! The byte-level core of the typed stream adapter.
//!
//! `MessageReader` accumulates inbound bytes until a whole frame is present,
//! then yields the decoded message and keeps whatever followed the frame.
//! `WriteBuffer` holds framed outbound bytes with an explicit cursor, so a
//! transport that accepts fewer bytes than offered (a short write) can drain
//! it in as many rounds as it needs.

use vstd::prelude::*;
use crate::error::KvError;
use crate::frame::{
    COMPRESSION_LIMIT, FrameCoder, MAX_FRAME, decode_frame, encode_frame, read_word,
    spec_decode_frame_msg, spec_frame_of_msg, spec_header_len,
};
use crate::frame::deflate_of;
use crate::wire::sub_vec;

verus! {

/// Accumulates inbound bytes and yields one decoded message per complete
/// frame.
pub struct MessageReader {
    pub buf: Vec<u8>,
}

impl View for MessageReader {
    type V = Seq<u8>;

    open spec fn view(&self) -> Seq<u8> {
        self.buf@
    }
}

impl MessageReader {
    /// An empty reader.
    pub fn new() -> (r: Self)
        ensures
            r@ == Seq::<u8>::empty(),
    {
        let r = MessageReader { buf: Vec::new() };
        proof {
            assert(r@ =~= Seq::<u8>::empty());
        }
        r
    }

    /// Appends bytes read from the transport.
    pub fn feed(&mut self, data: &[u8])
        ensures
            final(self)@ == old(self)@ + data@,
    {
        crate::wire::push_slice(&mut self.buf, data);
    }

    /// How many buffered bytes await a complete frame.
    pub fn len(&self) -> (r: usize)
        ensures
            r == self@.len(),
    {
        self.buf.len()
    }

    /// Takes one message when a whole frame has arrived.
    ///
    /// Yields nothing while the header or payload is still incomplete; on a
    /// complete frame, removes exactly its bytes and decodes it. A header
    /// announcing more than `MAX_FRAME` bytes is a frame error that leaves
    /// the buffer untouched (the connection is to be torn down); a frame that
    /// does not decode is consumed and reported as a frame error.
    pub fn try_take<T: FrameCoder>(&mut self) -> (r: Result<Option<T>, KvError>)
        ensures
            match r {
                Ok(None) => final(self)@ == old(self)@ && (match spec_header_len(old(self)@) {
                    None => true,
                    Some(len) => len <= MAX_FRAME && old(self)@.len() < 4 + len,
                }),
                Ok(Some(m)) => (match spec_header_len(old(self)@) {
                    Some(len) => len <= MAX_FRAME && old(self)@.len() >= 4 + len
                        && spec_decode_frame_msg::<T>(old(self)@.take(4 + len)) == Some(m@)
                        && final(self)@ == old(self)@.skip(4 + len),
                    None => false,
                }),
                Err(e) => e@ is FrameError && (match spec_header_len(old(self)@) {
                    Some(len) => (len > MAX_FRAME && final(self)@ == old(self)@) || (len
                        <= MAX_FRAME && old(self)@.len() >= 4 + len && spec_decode_frame_msg::<T>(
                        old(self)@.take(4 + len),
                    ) is None && final(self)@ == old(self)@.skip(4 + len)),
                    None => false,
                }),
            },
    {
        if self.buf.len() < 4 {
            return Ok(None);
        }
        let w = read_word(&self.buf);
        let len = (w % 0x8000_0000) as usize;
        if len > MAX_FRAME {
            return Err(KvError::FrameError(String::from_str("frame too large")));
        }
        let total = 4 + len;
        if self.buf.len() < total {
            return Ok(None);
        }
        let frame = sub_vec(&self.buf, 0, total);
        let rest = sub_vec(&self.buf, total, self.buf.len());
        proof {
            assert(frame@ =~= old(self)@.take(total as int));
            assert(rest@ =~= old(self)@.skip(total as int));
        }
        self.buf = rest;
        match decode_frame::<T>(&frame) {
            Ok(m) => Ok(Some(m)),
            Err(e) => Err(e),
        }
    }
}

/// Framed outbound bytes with an explicit write cursor.
pub struct WriteBuffer {
    pub buf: Vec<u8>,
    pub written: usize,
}

impl WriteBuffer {
    /// The cursor never passes the end of the buffer.
    pub open spec fn wf(&self) -> bool {
        self.written <= self.buf@.len()
    }

    /// The bytes still to be handed to the transport.
    pub open spec fn pending_view(&self) -> Seq<u8> {
        self.buf@.skip(self.written as int)
    }

    /// An empty buffer.
    pub fn new() -> (r: Self)
        ensures
            r.wf(),
            r.pending_view() == Seq::<u8>::empty(),
    {
        let r = WriteBuffer { buf: Vec::new(), written: 0 };
        proof {
            assert(r.pending_view() =~= Seq::<u8>::empty());
        }
        r
    }

    /// Frames one message and appends exactly its frame — `spec_frame_of_msg`,
    /// which decodes back to the message — to the pending bytes. Fails only
    /// where framing itself does (even the compressed payload beyond
    /// `MAX_FRAME`), leaving the buffer unchanged.
    pub fn queue_frame<T: FrameCoder>(&mut self, msg: &T) -> (r: Result<(), KvError>)
        requires
            old(self).wf(),
        ensures
            final(self).wf(),
            match r {
                Ok(()) => final(self).pending_view() == old(self).pending_view()
                    + spec_frame_of_msg::<T>(msg@) && spec_decode_frame_msg::<T>(
                    spec_frame_of_msg::<T>(msg@),
                ) == Some(msg@),
                Err(e) => e@ is FrameError && *final(self) == *old(self)
                    && T::spec_enc_msg(msg@).len() > COMPRESSION_LIMIT && deflate_of(
                    T::spec_enc_msg(msg@),
                ).len() > MAX_FRAME,
            },
    {
        match encode_frame(msg) {
            Ok(f) => {
                let ghost fv = f@;
                crate::wire::push_slice(&mut self.buf, f.as_slice());
                proof {
                    assert(self.pending_view() =~= old(self).pending_view() + fv);
                }
                Ok(())
            },
            Err(e) => Err(e),
        }
    }

    /// A copy of the bytes still to be handed to the transport.
    pub fn pending(&self) -> (r: Vec<u8>)
        requires
            self.wf(),
        ensures
            r@ == self.pending_view(),
    {
        let r = sub_vec(&self.buf, self.written, self.buf.len());
        proof {
            assert(r@ =~= self.pending_view());
        }
        r
    }

    /// Records that the transport accepted `n` more bytes.
    pub fn advance(&mut self, n: usize)
        requires
            old(self).wf(),
            n <= old(self).pending_view().len(),
        ensures
            final(self).wf(),
            final(self).pending_view() == old(self).pending_view().skip(n as int),
    {
        proof {
            broadcast use vstd::std_specs::vec::axiom_spec_len;

            assert(self.buf@.len() == vstd::std_specs::vec::spec_vec_len(&self.buf));
        }
        self.written = self.written + n;
        proof {
            assert(self.pending_view() =~= old(self).pending_view().skip(n as int));
        }
    }

    /// Whether everything queued has been handed to the transport.
    pub fn is_drained(&self) -> (r: bool)
        requires
            self.wf(),
        ensures
            r == (self.pending_view().len() == 0),
    {
        self.written == self.buf.len()
    }

    /// Drops the already-written prefix once a flush has completed.
    pub fn clear(&mut self)
        ensures
            final(self).wf(),
            final(self).pending_view() == Seq::<u8>::empty(),
    {
        self.buf = Vec::new();
        self.written = 0;
        proof {
            assert(self.pending_view() =~= Seq::<u8>::empty());
        }
    }
}

} // verus!
