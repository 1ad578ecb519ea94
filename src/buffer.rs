//! The decoders: scalar values alone, or scalar values with their offsets.
use vstd::prelude::*;
use crate::model::{
    DecoderModel, FillEnd, Status, candidate_len, fill_possible, fill_spec, indexed_step,
    resolve_spec, scan_from, step_spec,
};
use crate::scalar::{decode_scalar, is_utf8_char_boundary};
use crate::source::ByteSource;

verus! {

/// Decodes the bytes of a source into scalar values, holding at most four
/// bytes that are read but not yet resolved.
pub struct CharBuffer<R> {
    inner: R,
    buf: [u8; 4],
    bsz: u8,
    off: usize,
    status: Status,
}

impl<R> View for CharBuffer<R> {
    type V = DecoderModel;

    closed spec fn view(&self) -> DecoderModel {
        DecoderModel {
            pending: self.buf@.take(self.bsz as int),
            offset: self.off as int,
            status: self.status,
        }
    }
}

impl<R> CharBuffer<R> {
    /// The pending count is within the buffer.
    pub closed spec fn wf(&self) -> bool {
        self.bsz <= 4
    }

    /// The byte source that the decoder reads from.
    pub closed spec fn source(&self) -> R {
        self.inner
    }

    /// The full four-byte buffer, of which the pending bytes are the front.
    pub closed spec fn raw(&self) -> [u8; 4] {
        self.buf
    }
}

impl<R: ByteSource> CharBuffer<R> {
    /// A decoder with nothing pending, at offset zero.
    pub fn from_reader(inner: R) -> (r: CharBuffer<R>)
        ensures
            r.wf(),
            r@ == DecoderModel::resumed(Seq::empty(), 0),
            r.source() == inner,
    {
        let r = CharBuffer::from_reader_state([0; 4], 0, inner);
        assert(r@.pending =~= Seq::empty());
        r
    }

    /// A decoder that resumes with the first `buf_len` bytes of `buf` pending.
    pub fn from_reader_state(buf: [u8; 4], buf_len: usize, inner: R) -> (r: CharBuffer<R>)
        requires
            buf_len <= 4,
        ensures
            r.wf(),
            r@ == DecoderModel::resumed(buf@.take(buf_len as int), 0),
            r.raw() == buf,
            r.source() == inner,
    {
        CharBuffer::with_offset(0, buf, buf_len, inner)
    }

    fn with_offset(offset: usize, buf: [u8; 4], buf_len: usize, inner: R) -> (r: CharBuffer<R>)
        requires
            buf_len <= 4,
        ensures
            r.wf(),
            r@ == DecoderModel::resumed(buf@.take(buf_len as int), offset as int),
            r.raw() == buf,
            r.source() == inner,
    {
        CharBuffer { inner, buf, bsz: buf_len as u8, off: offset, status: Status::Open }
    }

    /// Same as `into_reader_state`.
    pub fn into_inner(self) -> (r: Result<([u8; 4], usize, R), ([u8; 4], usize, R)>)
        requires
            self.wf(),
        ensures
            r == extracted(self),
    {
        self.into_reader_state()
    }

    /// Gives back the buffer, the number of pending bytes at its front and the
    /// source: `Err` when the decoder had failed, `Ok` otherwise.
    pub fn into_reader_state(self) -> (r: Result<([u8; 4], usize, R), ([u8; 4], usize, R)>)
        requires
            self.wf(),
        ensures
            r == extracted(self),
    {
        let state = (self.buf, self.bsz as usize, self.inner);
        if self.status == Status::Failed {
            Err(state)
        } else {
            Ok(state)
        }
    }

    /// Reads from the source, one byte per request, until four bytes are
    /// pending, the input ends or a read fails; only while the status is open.
    fn fill(&mut self) -> (res: Ghost<(Seq<u8>, FillEnd)>)
        requires
            old(self).wf(),
        ensures
            final(self).wf(),
            fill_possible(old(self)@, res@.0, res@.1),
            final(self)@ == fill_spec(old(self)@, res@.0, res@.1),
            !old(self)@.wants_bytes() ==> final(self).source() == old(self).source(),
    {
        if !(self.status == Status::Open && self.bsz < 4) {
            return Ghost((Seq::empty(), FillEnd::Full));
        }
        let ghost start = self@;
        let ghost mut got: Seq<u8> = Seq::empty();
        let mut i: usize = self.bsz as usize;
        while i < 4
            invariant
                self.wf(),
                self.bsz as usize == i,
                start.pending.len() <= i <= 4,
                self.status == Status::Open,
                self.off as int == start.offset,
                start == old(self)@,
                start.status == Status::Open,
                start.pending.len() < 4,
                got.len() == i - start.pending.len(),
                self@.pending == start.pending + got,
            decreases 4 - i,
        {
            let mut b: u8 = 0;
            match self.inner.read(&mut b) {
                Ok(0) => {
                    self.status = Status::Ended;
                    return Ghost((got, FillEnd::Ended));
                },
                Ok(1) => {
                    let ghost before = self.buf@;
                    let ghost pend = self@.pending;
                    self.buf[i] = b;
                    assert(self.buf@ == before.update(i as int, b));
                    self.bsz = self.bsz + 1;
                    proof {
                        got = got.push(b);
                    }
                    assert(self@.pending =~= pend.push(b));
                    assert(self@.pending =~= start.pending + got);
                },
                _ => {
                    self.status = Status::Failed;
                    return Ghost((got, FillEnd::Broken));
                },
            }
            i = i + 1;
        }
        Ghost((got, FillEnd::Full))
    }

    /// Resolves the pending bytes into at most one scalar.
    fn resolve(&mut self) -> (r: Option<Result<char, ()>>)
        requires
            old(self).wf(),
        ensures
            final(self).wf(),
            (final(self)@, r) == resolve_spec(old(self)@),
            final(self).source() == old(self).source(),
    {
        if self.status == Status::Failed {
            return Some(Err(()));
        }
        let len = self.bsz as usize;
        if len == 0 {
            return None;
        }
        let ghost p = self@.pending;
        if !is_utf8_char_boundary(self.buf[0]) {
            self.status = Status::Failed;
            return Some(Err(()));
        }
        let mut i: usize = 1;
        while i < len && !is_utf8_char_boundary(self.buf[i])
            invariant
                1 <= i <= len <= 4,
                len == self.bsz,
                p == self@.pending,
                scan_from(p, i as int) == candidate_len(p),
            decreases len - i,
        {
            i = i + 1;
        }
        assert(scan_from(p, i as int) == i);
        assert(p.take(i as int) =~= self.buf@.take(i as int));
        match decode_scalar(&self.buf, i) {
            None => {
                self.status = Status::Failed;
                Some(Err(()))
            },
            Some(c) => {
                if self.off > usize::MAX - i {
                    self.status = Status::Failed;
                    return Some(Err(()));
                }
                self.off = self.off + i;
                let ghost before = self.buf@;
                let mut j: usize = i;
                while j < len
                    invariant
                        i <= j <= len <= 4,
                        len == self.bsz,
                        p == before.take(len as int),
                        self.inner == old(self).inner,
                        self.status == old(self).status,
                        self.off == old(self).off + i,
                        forall|k: int| j <= k < 4 ==> self.buf@[k] == before[k],
                        forall|k: int| 0 <= k < j - i ==> self.buf@[k] == before[k + i],
                    decreases len - j,
                {
                    self.buf[j - i] = self.buf[j];
                    j = j + 1;
                }
                self.bsz = self.bsz - i as u8;
                assert(self@.pending =~= p.skip(i as int));
                Some(Ok(c))
            },
        }
    }

    /// Produces the next unit: `Some(Ok(c))` for a decoded scalar, `None` once
    /// the input is complete, `Some(Err(()))` on a failure, and again on every
    /// later call. Reads from the source only while fewer than four bytes are
    /// pending, never after the end of input or a failure.
    pub fn next(&mut self) -> (r: Option<Result<char, ()>>)
        requires
            old(self).wf(),
        ensures
            final(self).wf(),
            final(self)@.pending.len() <= 4,
            exists|got: Seq<u8>, end: FillEnd|
                fill_possible(old(self)@, got, end) && step_spec(old(self)@, got, end) == (
                    final(self)@,
                    r,
                ),
            old(self)@.status == Status::Failed ==> {
                &&& r == Some(Err::<char, ()>(()))
                &&& final(self)@ == old(self)@
                &&& final(self).source() == old(self).source()
            },
    {
        let got = self.fill();
        let r = self.resolve();
        assert(fill_possible(old(self)@, got@.0, got@.1));
        r
    }
}

/// What extracting the state of `b` gives: its buffer, pending count and source,
/// tagged `Err` exactly when it had failed.
pub open spec fn extracted<R>(b: CharBuffer<R>) -> Result<([u8; 4], usize, R), ([u8; 4], usize, R)> {
    let state = (b.raw(), b@.pending.len() as usize, b.source());
    if b@.status == Status::Failed {
        Err(state)
    } else {
        Ok(state)
    }
}

/// Decodes the bytes of a source into scalar values paired with the offset of
/// their first byte in the stream.
pub struct CharIndicesBuffer<R> {
    buf: CharBuffer<R>,
}

impl<R> View for CharIndicesBuffer<R> {
    type V = DecoderModel;

    closed spec fn view(&self) -> DecoderModel {
        self.buf@
    }
}

impl<R> CharIndicesBuffer<R> {
    /// The pending count is within the buffer.
    pub closed spec fn wf(&self) -> bool {
        self.buf.wf()
    }

    /// The byte source that the decoder reads from.
    pub closed spec fn source(&self) -> R {
        self.buf.source()
    }

    /// The full four-byte buffer, of which the pending bytes are the front.
    pub closed spec fn raw(&self) -> [u8; 4] {
        self.buf.raw()
    }
}

impl<R: ByteSource> CharIndicesBuffer<R> {
    /// A decoder with nothing pending, at offset zero.
    pub fn from_reader(inner: R) -> (r: CharIndicesBuffer<R>)
        ensures
            r.wf(),
            r@ == DecoderModel::resumed(Seq::empty(), 0),
            r.source() == inner,
    {
        let r = CharIndicesBuffer::from_reader_state(0, [0; 4], 0, inner);
        assert(r@.pending =~= Seq::empty());
        r
    }

    /// A decoder that resumes at `offset` with the first `buf_len` bytes of
    /// `buf` pending.
    pub fn from_reader_state(offset: usize, buf: [u8; 4], buf_len: usize, inner: R) -> (r:
        CharIndicesBuffer<R>)
        requires
            buf_len <= 4,
        ensures
            r.wf(),
            r@ == DecoderModel::resumed(buf@.take(buf_len as int), offset as int),
            r.raw() == buf,
            r.source() == inner,
    {
        CharIndicesBuffer { buf: CharBuffer::with_offset(offset, buf, buf_len, inner) }
    }

    /// Same as `into_reader_state`.
    pub fn into_inner(self) -> (r: Result<
        (usize, [u8; 4], usize, R),
        (usize, [u8; 4], usize, R),
    >)
        requires
            self.wf(),
        ensures
            r == extracted_indexed(self),
    {
        self.into_reader_state()
    }

    /// Gives back the offset, the buffer, the number of pending bytes at its
    /// front and the source: `Err` when the decoder had failed, `Ok` otherwise.
    pub fn into_reader_state(self) -> (r: Result<
        (usize, [u8; 4], usize, R),
        (usize, [u8; 4], usize, R),
    >)
        requires
            self.wf(),
        ensures
            r == extracted_indexed(self),
    {
        let b = self.buf;
        let state = (b.off, b.buf, b.bsz as usize, b.inner);
        if b.status == Status::Failed {
            Err(state)
        } else {
            Ok(state)
        }
    }

    /// Produces the next unit: `Some(Ok((offset, c)))` for a decoded scalar and
    /// the offset of its first byte, `None` once the input is complete, and
    /// `Some(Err(offset))` on a failure, with the offset at which it was found,
    /// again on every later call.
    pub fn next(&mut self) -> (r: Option<Result<(usize, char), usize>>)
        requires
            old(self).wf(),
        ensures
            final(self).wf(),
            final(self)@.pending.len() <= 4,
            exists|got: Seq<u8>, end: FillEnd|
                fill_possible(old(self)@, got, end) && indexed_step(old(self)@, got, end) == (
                    final(self)@,
                    r,
                ),
            old(self)@.status == Status::Failed ==> {
                &&& r == Some(Err::<(usize, char), usize>(old(self)@.offset as usize))
                &&& final(self)@ == old(self)@
                &&& final(self).source() == old(self).source()
            },
    {
        let off = self.buf.off;
        match self.buf.next() {
            None => None,
            Some(Err(_)) => Some(Err(self.buf.off)),
            Some(Ok(c)) => Some(Ok((off, c))),
        }
    }
}

/// What extracting the state of `b` gives: its offset, buffer, pending count and
/// source, tagged `Err` exactly when it had failed.
pub open spec fn extracted_indexed<R>(b: CharIndicesBuffer<R>) -> Result<
    (usize, [u8; 4], usize, R),
    (usize, [u8; 4], usize, R),
> {
    let state = (b@.offset as usize, b.raw(), b@.pending.len() as usize, b.source());
    if b@.status == Status::Failed {
        Err(state)
    } else {
        Ok(state)
    }
}

} // verus!
