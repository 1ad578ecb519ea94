//! What a decoder yields over a whole stream, when its source holds a given
//! sequence of bytes and hands them out one per request.
use vstd::prelude::*;
use vstd::utf8::*;
use crate::model::{DecoderModel, FillEnd, Status, candidate_len, fill_spec, indexed_step, scan_from};
use crate::scalar::{scalar_of, starts_scalar};

verus! {

/// One unit that the offset-tracking decoder yields.
pub type Unit = Option<Result<(usize, char), usize>>;

/// What a source holding `input`, one byte per request and then the end of
/// input, hands to a fill of `m`: the bytes read and why the fill stopped.
pub open spec fn reply_from(m: DecoderModel, input: Seq<u8>) -> (Seq<u8>, FillEnd) {
    if m.wants_bytes() {
        let need = 4 - m.pending.len();
        if input.len() >= need {
            (input.take(need), FillEnd::Full)
        } else {
            (input, FillEnd::Ended)
        }
    } else {
        (Seq::empty(), FillEnd::Full)
    }
}

/// The state after one step from `m` with `input` left in the source, and
/// what is then left in the source.
pub open spec fn after_step(m: DecoderModel, input: Seq<u8>) -> (DecoderModel, Seq<u8>) {
    let (got, end) = reply_from(m, input);
    (indexed_step(m, got, end).0, input.skip(got.len() as int))
}

/// The units yielded by `n` steps from `m` with `input` left in the source.
pub open spec fn run(m: DecoderModel, input: Seq<u8>, n: nat) -> Seq<Unit>
    decreases n,
{
    if n == 0 {
        Seq::empty()
    } else {
        let (got, end) = reply_from(m, input);
        let next = after_step(m, input);
        seq![indexed_step(m, got, end).1] + run(next.0, next.1, (n - 1) as nat)
    }
}

/// The state, and what is left in the source, after `n` steps.
pub open spec fn state_after(m: DecoderModel, input: Seq<u8>, n: nat) -> (DecoderModel, Seq<u8>)
    decreases n,
{
    if n == 0 {
        (m, input)
    } else {
        let next = after_step(m, input);
        state_after(next.0, next.1, (n - 1) as nat)
    }
}

/// Each scalar of `cs` with the offset of its encoding when the first starts at
/// `off`, then the end of the stream.
pub open spec fn scalars_at(cs: Seq<char>, off: int) -> Seq<Unit>
    decreases cs.len(),
{
    if cs.len() == 0 {
        seq![None]
    } else {
        seq![Some(Ok((off as usize, cs[0])))] + scalars_at(
            cs.drop_first(),
            off + encode_scalar(cs[0] as u32).len(),
        )
    }
}

proof fn lemma_scan(p: Seq<u8>, k: int, l: int)
    requires
        1 <= k <= l <= p.len(),
        forall|j: int| k <= j < l ==> !starts_scalar(#[trigger] p[j]),
        l < p.len() ==> starts_scalar(p[l]),
    ensures
        scan_from(p, k) == l,
    decreases l - k,
{
    if k < l {
        lemma_scan(p, k + 1, l);
    }
}

proof fn lemma_round_trip_from(m: DecoderModel, input: Seq<u8>, cs: Seq<char>)
    requires
        m.wf(),
        m.status != Status::Failed,
        m.status == Status::Ended ==> input.len() == 0,
        m.pending + input == encode_utf8(cs),
        m.offset + encode_utf8(cs).len() <= usize::MAX,
    ensures
        run(m, input, cs.len() + 1) == scalars_at(cs, m.offset),
    decreases cs.len(),
{
    let e = encode_utf8(cs);
    let (got, end) = reply_from(m, input);
    let mid = fill_spec(m, got, end);
    let rest_in = input.skip(got.len() as int);
    assert(mid.pending + rest_in =~= e);
    assert(mid.pending.len() == 4 || (mid.status == Status::Ended && rest_in.len() == 0));
    assert(run(after_step(m, input).0, after_step(m, input).1, 0) == Seq::<Unit>::empty());
    if cs.len() == 0 {
        assert(run(m, input, 1) =~= seq![None]);
    } else {
        let c0 = cs[0];
        let rest = cs.drop_first();
        let l = encode_scalar(c0 as u32).len() as int;
        encode_utf8_first_scalar(cs);
        assert(e == encode_scalar(c0 as u32) + encode_utf8(rest));
        let p = mid.pending;
        assert(1 <= l <= 4);
        assert(l <= p.len());
        assert forall|j: int| 0 <= j < p.len() implies p[j] == e[j] by {
            assert(p[j] == (p + rest_in)[j]);
        }
        assert(starts_scalar(p[0]));
        if l < p.len() {
            assert(rest.len() > 0);
            encode_utf8_first_scalar(rest);
            assert(p[l] == encode_utf8(rest)[0]);
        }
        lemma_scan(p, 1, l);
        assert(candidate_len(p) == l);
        let t = p.take(l);
        assert(t =~= e.take(l));
        assert(valid_first_scalar(t));
        assert(decode_first_scalar(t) == c0 as u32);
        char_u32_cast(c0, decode_first_scalar(t));
        assert(scalar_of(t) == Some(c0));
        let m2 = DecoderModel { pending: p.skip(l), offset: m.offset + l, status: mid.status };
        assert(indexed_step(m, got, end) == (m2, Some(Ok::<(usize, char), usize>((m.offset as usize, c0)))));
        assert(e.skip(l) =~= encode_utf8(rest));
        assert((p + rest_in).skip(l) =~= p.skip(l) + rest_in);
        assert(m2.pending + rest_in =~= encode_utf8(rest));
        lemma_round_trip_from(m2, rest_in, rest);
        assert(run(m, input, cs.len() + 1) =~= seq![Some(Ok::<(usize, char), usize>((m.offset as usize, c0)))] + run(m2, rest_in, rest.len() + 1));
    }
}

/// Feeding the UTF-8 encoding of any scalar sequence `cs` through a fresh
/// decoder, one byte per read, yields every scalar of `cs` in order, each with
/// the total encoded length of the scalars before it as its offset, and then
/// the end of the stream.
pub proof fn lemma_round_trip(cs: Seq<char>)
    requires
        encode_utf8(cs).len() <= usize::MAX,
    ensures
        run(DecoderModel::resumed(Seq::empty(), 0), encode_utf8(cs), cs.len() + 1) == scalars_at(cs, 0),
{
    let m = DecoderModel::resumed(Seq::empty(), 0);
    assert(m.pending + encode_utf8(cs) =~= encode_utf8(cs));
    lemma_round_trip_from(m, encode_utf8(cs), cs);
}

proof fn lemma_run_split(m: DecoderModel, input: Seq<u8>, k: nat, n: nat)
    requires
        k <= n,
    ensures
        run(m, input, n) == run(m, input, k) + run(
            state_after(m, input, k).0,
            state_after(m, input, k).1,
            (n - k) as nat,
        ),
    decreases k,
{
    if k == 0 {
        assert(run(m, input, 0) + run(m, input, n) =~= run(m, input, n));
    } else {
        let next = after_step(m, input);
        lemma_run_split(next.0, next.1, (k - 1) as nat, (n - 1) as nat);
        assert(run(m, input, n) =~= run(m, input, k) + run(
            state_after(m, input, k).0,
            state_after(m, input, k).1,
            (n - k) as nat,
        ));
    }
}

proof fn lemma_run_len(m: DecoderModel, input: Seq<u8>, n: nat)
    ensures
        run(m, input, n).len() == n,
    decreases n,
{
    if n > 0 {
        let next = after_step(m, input);
        lemma_run_len(next.0, next.1, (n - 1) as nat);
    }
}

proof fn lemma_failed_run(m: DecoderModel, input: Seq<u8>, n: nat)
    requires
        m.status == Status::Failed,
    ensures
        run(m, input, n) =~= Seq::new(n, |i: int| Some(Err::<(usize, char), usize>(m.offset as usize))),
    decreases n,
{
    if n > 0 {
        let next = after_step(m, input);
        assert(next.0 == m);
        lemma_failed_run(m, next.1, (n - 1) as nat);
    }
}

/// Once a step yields a failure, every later step yields that same failure
/// (the same offset) again, whatever bytes the source still holds.
pub proof fn lemma_failure_is_sticky(m: DecoderModel, input: Seq<u8>, n: nat, k: int, j: int)
    requires
        0 <= k <= j < n,
        run(m, input, n)[k] matches Some(Err(_)),
    ensures
        run(m, input, n)[j] == run(m, input, n)[k],
{
    lemma_run_split(m, input, k as nat, n);
    lemma_run_len(m, input, k as nat);
    let sk = state_after(m, input, k as nat);
    let tail = run(sk.0, sk.1, (n - k) as nat);
    assert(run(m, input, n)[k] == tail[0]);
    let next = after_step(sk.0, sk.1);
    assert(next.0.status == Status::Failed);
    assert(next.0.offset == sk.0.offset);
    lemma_failed_run(next.0, next.1, (n - k - 1) as nat);
    if j > k {
        assert(run(m, input, n)[j] == tail[j - k]);
        assert(tail[j - k] == run(next.0, next.1, (n - k - 1) as nat)[j - k - 1]);
    }
}

proof fn lemma_ended_means_drained(m: DecoderModel, input: Seq<u8>, k: nat)
    requires
        m.status == Status::Ended ==> input.len() == 0,
    ensures
        state_after(m, input, k).0.status == Status::Ended ==> state_after(m, input, k).1.len()
            == 0,
    decreases k,
{
    if k > 0 {
        let next = after_step(m, input);
        lemma_ended_means_drained(next.0, next.1, (k - 1) as nat);
    }
}

proof fn lemma_same_run(m1: DecoderModel, m2: DecoderModel, input: Seq<u8>, n: nat)
    requires
        m1.pending == m2.pending,
        m1.offset == m2.offset,
        m1.status == m2.status || (m1.status == Status::Ended && m2.status == Status::Open
            && input.len() == 0),
    ensures
        run(m1, input, n) == run(m2, input, n),
    decreases n,
{
    if n > 0 && m1.status != m2.status {
        let (got1, end1) = reply_from(m1, input);
        let (got2, end2) = reply_from(m2, input);
        let next1 = after_step(m1, input);
        let next2 = after_step(m2, input);
        if m2.wants_bytes() {
            assert(fill_spec(m2, got2, end2).pending =~= m1.pending);
            assert(fill_spec(m2, got2, end2) == fill_spec(m1, got1, end1));
        }
        assert(indexed_step(m1, got1, end1).1 == indexed_step(m2, got2, end2).1);
        assert(next1.1 =~= next2.1);
        lemma_same_run(next1.0, next2.0, next1.1, (n - 1) as nat);
    }
}

/// Decoding a stream in one pass yields the same units, offsets included, as
/// decoding `k` steps, extracting the pending bytes and the offset, building a
/// decoder from them over the same source and decoding the rest; for every
/// split point at which the decoder has not failed.
pub proof fn lemma_resume(m: DecoderModel, input: Seq<u8>, k: nat, n: nat)
    requires
        m.status == Status::Open,
        k <= n,
        state_after(m, input, k).0.status != Status::Failed,
    ensures
        ({
            let (sk, rest) = state_after(m, input, k);
            run(m, input, n) == run(m, input, k) + run(
                DecoderModel::resumed(sk.pending, sk.offset),
                rest,
                (n - k) as nat,
            )
        }),
{
    lemma_run_split(m, input, k, n);
    lemma_ended_means_drained(m, input, k);
    let (sk, rest) = state_after(m, input, k);
    lemma_same_run(sk, DecoderModel::resumed(sk.pending, sk.offset), rest, (n - k) as nat);
}

} // verus!
