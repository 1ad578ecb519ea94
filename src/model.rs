//! The decoder's state as mathematical values, and one decoding step over it.
use vstd::prelude::*;
use crate::scalar::{starts_scalar, scalar_of};

verus! {

/// Where a decoder stands with respect to its byte source.
#[derive(PartialEq, Eq, Structural, Clone, Copy, Debug)]
pub enum Status {
    /// The source may still supply bytes.
    Open,
    /// The source has reported the end of its input.
    Ended,
    /// A read failed or the input was malformed: terminal.
    Failed,
}

/// How an attempt to top the pending bytes up to four came to an end.
pub enum FillEnd {
    /// Every byte asked for was supplied (or none was asked for).
    Full,
    /// The source reported the end of its input.
    Ended,
    /// The source reported a read failure or broke its one-byte contract.
    Broken,
}

/// The state of a decoder: the bytes read but not yet resolved, the number of
/// bytes resolved into scalars so far, and the status.
pub struct DecoderModel {
    pub pending: Seq<u8>,
    pub offset: int,
    pub status: Status,
}

impl DecoderModel {
    /// The bounds that every decoder keeps: at most four pending bytes and an
    /// offset that fits in `usize`.
    pub open spec fn wf(self) -> bool {
        &&& self.pending.len() <= 4
        &&& 0 <= self.offset <= usize::MAX
    }

    /// The state a decoder is built in from extracted state: it reads on.
    pub open spec fn resumed(pending: Seq<u8>, offset: int) -> DecoderModel {
        DecoderModel { pending, offset, status: Status::Open }
    }

    pub open spec fn failed(self) -> DecoderModel {
        DecoderModel { status: Status::Failed, ..self }
    }

    /// Whether the next step asks the source for more bytes.
    pub open spec fn wants_bytes(self) -> bool {
        self.status == Status::Open && self.pending.len() < 4
    }
}

/// The index of the first byte of `p` at or after `i` that starts a scalar, or
/// the length of `p` when there is none.
pub open spec fn scan_from(p: Seq<u8>, i: int) -> int
    decreases p.len() - i,
{
    if i >= p.len() {
        p.len() as int
    } else if starts_scalar(p[i]) {
        i
    } else {
        scan_from(p, i + 1)
    }
}

/// The length of the candidate sequence at the front of `p`: its first byte and
/// the continuation bytes that follow it.
pub open spec fn candidate_len(p: Seq<u8>) -> int {
    scan_from(p, 1)
}

/// Whether a fill of `m` may have read `got` and then stopped for `end`: bytes
/// are read only when fewer than four are pending and the source is open, and a
/// fill that was not cut short tops the pending bytes up to four.
pub open spec fn fill_possible(m: DecoderModel, got: Seq<u8>, end: FillEnd) -> bool {
    if m.wants_bytes() {
        &&& m.pending.len() + got.len() <= 4
        &&& (end is Full ==> m.pending.len() + got.len() == 4)
    } else {
        got.len() == 0 && end is Full
    }
}

/// The state after a fill of `m` that read `got` and stopped for `end`.
pub open spec fn fill_spec(m: DecoderModel, got: Seq<u8>, end: FillEnd) -> DecoderModel {
    if m.wants_bytes() {
        DecoderModel {
            pending: m.pending + got,
            offset: m.offset,
            status: match end {
                FillEnd::Full => Status::Open,
                FillEnd::Ended => Status::Ended,
                FillEnd::Broken => Status::Failed,
            },
        }
    } else {
        m
    }
}

/// Resolving the pending bytes of `m` into at most one scalar: the state after
/// it, and `None` (input complete), `Some(Err(()))` (failure) or
/// `Some(Ok(c))`.
pub open spec fn resolve_spec(m: DecoderModel) -> (DecoderModel, Option<Result<char, ()>>) {
    if m.status == Status::Failed {
        (m, Some(Err(())))
    } else if m.pending.len() == 0 {
        (m, None)
    } else if !starts_scalar(m.pending[0]) {
        (m.failed(), Some(Err(())))
    } else {
        let i = candidate_len(m.pending);
        match scalar_of(m.pending.take(i)) {
            None => (m.failed(), Some(Err(()))),
            Some(c) => if m.offset + i > usize::MAX {
                (m.failed(), Some(Err(())))
            } else {
                (
                    DecoderModel {
                        pending: m.pending.skip(i),
                        offset: m.offset + i,
                        status: m.status,
                    },
                    Some(Ok(c)),
                )
            },
        }
    }
}

/// One step of a decoder in state `m` whose fill read `got` and stopped for `end`.
pub open spec fn step_spec(m: DecoderModel, got: Seq<u8>, end: FillEnd) -> (
    DecoderModel,
    Option<Result<char, ()>>,
) {
    resolve_spec(fill_spec(m, got, end))
}

/// What the offset-tracking decoder yields for a step from offset `off` whose
/// scalar-only result was `r`: each scalar with the offset it starts at, and on
/// failure the offset at which it was found.
pub open spec fn with_offset(off: int, r: Option<Result<char, ()>>) -> Option<
    Result<(usize, char), usize>,
> {
    match r {
        None => None,
        Some(Err(_)) => Some(Err(off as usize)),
        Some(Ok(c)) => Some(Ok((off as usize, c))),
    }
}

/// One step of the offset-tracking decoder.
pub open spec fn indexed_step(m: DecoderModel, got: Seq<u8>, end: FillEnd) -> (
    DecoderModel,
    Option<Result<(usize, char), usize>>,
) {
    let (m2, r) = step_spec(m, got, end);
    (m2, with_offset(m.offset, r))
}

} // verus!
