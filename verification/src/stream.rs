//! Comparing two byte streams and digesting them, in one pass and in chunks
//! of at most four kibibytes.

use crate::digest::hasher_finish;
use crate::digest::hasher_len;
use crate::digest::hasher_new;
use crate::digest::hasher_write;
use crate::digest::DIGEST_LIMIT;
use crate::error::Error;
use crate::error::Result;
use crate::fs::ByteStream;
use fasthash::murmur3::Hasher128_x64;
use vstd::prelude::*;
use vstd::slice::slice_subrange;

verus! {

/// The most bytes asked of a stream at once.
pub const CHUNK_SIZE: usize = 4096;

/// The byte string is short enough for the hash function.
pub open spec fn fits(data: Seq<u8>) -> bool {
    data.len() <= DIGEST_LIMIT
}

/// Both byte strings are too long for the hash function, and they agree
/// further than it can take.
pub open spec fn agree_beyond_limit(a: Seq<u8>, b: Seq<u8>) -> bool {
    &&& a.len() > DIGEST_LIMIT
    &&& b.len() > DIGEST_LIMIT
    &&& a.take(DIGEST_LIMIT + 1) == b.take(DIGEST_LIMIT + 1)
}

/// What a comparison reports: whether the streams hold the same bytes, and
/// the digests of both unless the comparison stopped at a difference.
pub open spec fn comparison(a: Seq<u8>, b: Seq<u8>, short_circuit: bool) -> (
    bool,
    Option<(u128, u128)>,
) {
    if a != b && short_circuit {
        (false, None)
    } else {
        (
            a == b,
            Some((crate::digest::murmur3_x64_128(a), crate::digest::murmur3_x64_128(b))),
        )
    }
}

/// Whether `n` bytes of `a` from `i` on equal `n` bytes of `b` from `j` on.
fn same_bytes(a: &Vec<u8>, i: usize, b: &Vec<u8>, j: usize, n: usize) -> (r: bool)
    requires
        i + n <= a.len(),
        j + n <= b.len(),
    ensures
        r == (a@.subrange(i as int, i + n) == b@.subrange(j as int, j + n)),
{
    let mut k: usize = 0;
    while k < n
        invariant
            k <= n,
            i + n <= a.len(),
            j + n <= b.len(),
            forall|m: int| i <= m < i + k ==> #[trigger] a@[m] == b@[m - i + j],
        decreases n - k,
    {
        if a[i + k] != b[j + k] {
            proof {
                let x = a@.subrange(i as int, i + n);
                let y = b@.subrange(j as int, j + n);
                assert(x[k as int] != y[k as int]);
            }
            return false;
        }
        k += 1;
    }
    proof {
        assert(a@.subrange(i as int, i + n) =~= b@.subrange(j as int, j + n));
    }
    true
}

/// Writes `bytes[from..to]` to the hasher unless that takes it over the
/// limit of the hash function.
fn feed(h: &mut Hasher128_x64, bytes: &Vec<u8>, from: usize, to: usize) -> (r: Result<()>)
    requires
        from <= to <= bytes@.len(),
        crate::digest::hasher_bytes(*old(h)).len() <= DIGEST_LIMIT,
    ensures
        r matches Err(e) ==> !(e is Consistency),
        crate::digest::hasher_bytes(*final(h)).len() <= DIGEST_LIMIT,
        r is Ok ==> crate::digest::hasher_bytes(*final(h)) == crate::digest::hasher_bytes(*old(h))
            + bytes@.subrange(from as int, to as int),
        r is Err ==> crate::digest::hasher_bytes(*final(h)) == crate::digest::hasher_bytes(
            *old(h),
        ),
        r is Ok <==> crate::digest::hasher_bytes(*old(h)).len() + (to - from) <= DIGEST_LIMIT,
        crate::digest::hasher_seeded(*final(h)) == crate::digest::hasher_seeded(*old(h)),
{
    let held = hasher_len(h);
    if to - from > DIGEST_LIMIT - held {
        return Err(Error::Generic("file too large to digest".to_owned()));
    }
    hasher_write(h, slice_subrange(bytes.as_slice(), from, to));
    Ok(())
}

/// Reads the stream to its end and writes all of it to the hasher. Where
/// no read fails, that goes through exactly where the hasher can take all
/// of it.
fn drain<S: ByteStream>(s: &mut S, h: &mut Hasher128_x64) -> (r: Result<()>)
    requires
        crate::digest::hasher_bytes(*old(h)).len() <= DIGEST_LIMIT,
    ensures
        r matches Err(e) ==> !(e is Consistency),
        crate::digest::hasher_bytes(*final(h)).len() <= DIGEST_LIMIT,
        r is Ok ==> crate::digest::hasher_bytes(*final(h)) == crate::digest::hasher_bytes(*old(h))
            + old(s).remaining(),
        final(s).unfailing() == old(s).unfailing(),
        old(s).unfailing() ==> (r is Ok <==> crate::digest::hasher_bytes(*old(h)).len() + old(
            s,
        ).remaining().len() <= DIGEST_LIMIT),
        crate::digest::hasher_seeded(*final(h)) == crate::digest::hasher_seeded(*old(h)),
{
    let ghost held_before = crate::digest::hasher_bytes(*h);
    let ghost unread = s.remaining();
    loop
        invariant
            crate::digest::hasher_bytes(*h).len() <= DIGEST_LIMIT,
            crate::digest::hasher_bytes(*h) + s.remaining() == held_before + unread,
            held_before == crate::digest::hasher_bytes(*old(h)),
            unread == old(s).remaining(),
            s.unfailing() == old(s).unfailing(),
            crate::digest::hasher_seeded(*h) == crate::digest::hasher_seeded(*old(h)),
        decreases s.remaining().len(),
    {
        proof {
            assert((crate::digest::hasher_bytes(*h) + s.remaining()).len() == (held_before
                + unread).len());
        }
        let ghost before = s.remaining();
        let ghost held = crate::digest::hasher_bytes(*h);
        let chunk = match s.read(CHUNK_SIZE) {
            Ok(c) => c,
            Err(e) => {
                return Err(e);
            },
        };
        if chunk.len() == 0 {
            proof {
                assert(held + before =~= held);
            }
            return Ok(());
        }
        match feed(h, &chunk, 0, chunk.len()) {
            Ok(()) => {},
            Err(e) => {
                return Err(e);
            },
        }
        proof {
            assert(chunk@.subrange(0, chunk@.len() as int) =~= chunk@);
            assert(before =~= chunk@ + s.remaining());
            assert(crate::digest::hasher_bytes(*h) + s.remaining() =~= held + before);
        }
    }
}

/// The digest of all bytes that the stream still holds. Where no read
/// fails, it is had exactly of a stream that is short enough for the hash
/// function.
pub fn digest_stream<S: ByteStream>(s: &mut S) -> (r: Result<u128>)
    ensures
        r matches Err(e) ==> !(e is Consistency),
        r matches Ok(d) ==> d == crate::digest::murmur3_x64_128(old(s).remaining()),
        final(s).unfailing() == old(s).unfailing(),
        old(s).unfailing() ==> (r is Ok <==> fits(old(s).remaining())),
{
    let mut h = hasher_new();
    match drain(s, &mut h) {
        Ok(()) => {},
        Err(e) => {
            return Err(e);
        },
    }
    proof {
        assert(Seq::<u8>::empty() + old(s).remaining() =~= old(s).remaining());
    }
    Ok(hasher_finish(&h))
}

/// Digests both streams to their ends, after what the two hashers and the
/// two pending chunks already hold of them. Where no read fails, that goes
/// through exactly where both streams are short enough for the hash
/// function.
fn digest_rest<A: ByteStream, B: ByteStream>(
    a: &mut A,
    b: &mut B,
    ha: Hasher128_x64,
    hb: Hasher128_x64,
    pa: &Vec<u8>,
    ia: usize,
    pb: &Vec<u8>,
    ib: usize,
) -> (r: Result<(u128, u128)>)
    requires
        ia <= pa@.len(),
        ib <= pb@.len(),
        crate::digest::hasher_bytes(ha).len() <= DIGEST_LIMIT,
        crate::digest::hasher_bytes(hb).len() <= DIGEST_LIMIT,
        !crate::digest::hasher_seeded(ha),
        !crate::digest::hasher_seeded(hb),
    ensures
        r matches Err(e) ==> !(e is Consistency),
        r matches Ok(d) ==> {
            &&& d.0 == crate::digest::murmur3_x64_128(
                crate::digest::hasher_bytes(ha) + pa@.skip(ia as int) + old(a).remaining(),
            )
            &&& d.1 == crate::digest::murmur3_x64_128(
                crate::digest::hasher_bytes(hb) + pb@.skip(ib as int) + old(b).remaining(),
            )
        },
        final(a).unfailing() == old(a).unfailing(),
        final(b).unfailing() == old(b).unfailing(),
        old(a).unfailing() && old(b).unfailing() ==> (r is Ok <==> fits(
            crate::digest::hasher_bytes(ha) + pa@.skip(ia as int) + old(a).remaining(),
        ) && fits(crate::digest::hasher_bytes(hb) + pb@.skip(ib as int) + old(b).remaining())),
{
    let mut ha = ha;
    let mut hb = hb;
    match feed(&mut ha, pa, ia, pa.len()) {
        Ok(()) => {},
        Err(e) => {
            return Err(e);
        },
    }
    match drain(a, &mut ha) {
        Ok(()) => {},
        Err(e) => {
            return Err(e);
        },
    }
    match feed(&mut hb, pb, ib, pb.len()) {
        Ok(()) => {},
        Err(e) => {
            return Err(e);
        },
    }
    match drain(b, &mut hb) {
        Ok(()) => {},
        Err(e) => {
            return Err(e);
        },
    }
    proof {
        assert(pa@.subrange(ia as int, pa@.len() as int) =~= pa@.skip(ia as int));
        assert(pb@.subrange(ib as int, pb@.len() as int) =~= pb@.skip(ib as int));
    }
    Ok((hasher_finish(&ha), hasher_finish(&hb)))
}

/// A stream is what was consumed of it, what is pending of the chunk read
/// last from `at` on, and what it still holds.
#[verifier::opaque]
spec fn split(whole: Seq<u8>, seen: Seq<u8>, chunk: Seq<u8>, at: int, rest: Seq<u8>) -> bool {
    0 <= at <= chunk.len() && whole == seen + chunk.skip(at) + rest
}

/// A stream of which nothing was read is all in what it still holds.
proof fn lemma_start(whole: Seq<u8>)
    ensures
        split(whole, Seq::empty(), Seq::empty(), 0, whole),
{
    reveal(split);
    assert(whole =~= Seq::<u8>::empty() + Seq::<u8>::empty().skip(0) + whole);
}

/// What a split stream is made of.
proof fn lemma_whole(whole: Seq<u8>, seen: Seq<u8>, chunk: Seq<u8>, at: int, rest: Seq<u8>)
    requires
        split(whole, seen, chunk, at, rest),
    ensures
        0 <= at <= chunk.len(),
        whole == seen + chunk.skip(at) + rest,
        whole.len() == seen.len() + (chunk.len() - at) + rest.len(),
{
    reveal(split);
}

/// Reading a chunk into an empty buffer keeps the split of the stream.
proof fn lemma_refill(
    whole: Seq<u8>,
    seen: Seq<u8>,
    old_chunk: Seq<u8>,
    before: Seq<u8>,
    chunk: Seq<u8>,
    after: Seq<u8>,
)
    requires
        split(whole, seen, old_chunk, old_chunk.len() as int, before),
        chunk.len() <= before.len(),
        chunk == before.take(chunk.len() as int),
        after == before.skip(chunk.len() as int),
    ensures
        split(whole, seen, chunk, 0, after),
{
    reveal(split);
    assert(old_chunk.skip(old_chunk.len() as int) =~= Seq::<u8>::empty());
    assert(before =~= chunk + after);
    assert(chunk.skip(0) =~= chunk);
    assert(seen + old_chunk.skip(old_chunk.len() as int) + before =~= seen + chunk.skip(0)
        + after);
}

/// Consuming `n` pending bytes keeps the split of the stream.
proof fn lemma_advance(whole: Seq<u8>, seen: Seq<u8>, chunk: Seq<u8>, at: int, n: int, rest: Seq<u8>)
    requires
        split(whole, seen, chunk, at, rest),
        0 <= n,
        at + n <= chunk.len(),
    ensures
        split(whole, seen + chunk.subrange(at, at + n), chunk, at + n, rest),
        whole.subrange(seen.len() as int, seen.len() + n) == chunk.subrange(at, at + n),
        seen.len() + n <= whole.len(),
        whole.take(seen.len() as int) == seen,
{
    reveal(split);
    assert(whole.take(seen.len() as int) =~= seen);
    assert(chunk.skip(at) =~= chunk.subrange(at, at + n) + chunk.skip(at + n));
    assert(seen + chunk.skip(at) + rest =~= (seen + chunk.subrange(at, at + n)) + chunk.skip(
        at + n,
    ) + rest);
    assert(whole.subrange(seen.len() as int, seen.len() + n) =~= chunk.subrange(at, at + n));
}

/// With nothing pending and nothing left, the stream is what was consumed;
/// with something pending it is more.
proof fn lemma_at_end(whole: Seq<u8>, seen: Seq<u8>, chunk: Seq<u8>, at: int, rest: Seq<u8>)
    requires
        split(whole, seen, chunk, at, rest),
    ensures
        at == chunk.len() && rest.len() == 0 ==> whole == seen,
        at < chunk.len() ==> whole.len() > seen.len(),
{
    reveal(split);
    if at == chunk.len() && rest.len() == 0 {
        assert(seen + chunk.skip(at) + rest =~= seen);
    }
}

/// Two byte strings that begin alike and go on alike for `n` bytes agree
/// on all that; where that is more than the hash function takes, they agree
/// beyond its limit.
proof fn lemma_agree(a: Seq<u8>, b: Seq<u8>, seen: Seq<u8>, n: int)
    requires
        0 <= n,
        seen.len() + n <= a.len(),
        seen.len() + n <= b.len(),
        a.take(seen.len() as int) == seen,
        b.take(seen.len() as int) == seen,
        a.subrange(seen.len() as int, seen.len() + n) == b.subrange(
            seen.len() as int,
            seen.len() + n,
        ),
    ensures
        seen.len() + n > DIGEST_LIMIT ==> agree_beyond_limit(a, b),
{
    let m = seen.len() + n;
    if m > DIGEST_LIMIT {
        let l = DIGEST_LIMIT + 1;
        assert forall|i: int| 0 <= i < l implies a.take(l)[i] == b.take(l)[i] by {
            if i < seen.len() {
                assert(a.take(seen.len() as int)[i] == b.take(seen.len() as int)[i]);
            } else {
                assert(a.subrange(seen.len() as int, m)[i - seen.len()] == b.subrange(
                    seen.len() as int,
                    m,
                )[i - seen.len()]);
            }
        }
        assert(a.take(l) =~= b.take(l));
    }
}

/// What a comparison of the streams `a` and `b` owes: the report of
/// `comparison` where it succeeds; and where no read fails, success unless
/// a stream is too long to be digested. Streams that differ are compared
/// without error in any case where the comparison may stop at the
/// difference and the difference comes before the limit of the hash
/// function.
pub open spec fn verdict(
    a: Seq<u8>,
    b: Seq<u8>,
    short_circuit: bool,
    unfailing: bool,
    r: Result<(bool, Option<(u128, u128)>)>,
) -> bool {
    &&& r matches Ok(c) ==> c == comparison(a, b, short_circuit)
    &&& unfailing ==> if short_circuit && a != b {
        !agree_beyond_limit(a, b) ==> r is Ok
    } else {
        r is Ok <==> fits(a) && fits(b)
    }
}

/// Fills the buffer of a stream with the next chunk where the buffer is
/// used up.
fn refill<S: ByteStream>(
    s: &mut S,
    chunk: &mut Vec<u8>,
    at: &mut usize,
    Ghost(whole): Ghost<Seq<u8>>,
    Ghost(seen): Ghost<Seq<u8>>,
) -> (r: Result<()>)
    requires
        split(whole, seen, old(chunk)@, *old(at) as int, old(s).remaining()),
    ensures
        r matches Err(e) ==> !(e is Consistency),
        final(s).unfailing() == old(s).unfailing(),
        old(s).unfailing() ==> r is Ok,
        r is Ok ==> split(whole, seen, final(chunk)@, *final(at) as int, final(s).remaining()),
        r is Ok ==> *final(at) <= final(chunk)@.len(),
        r is Ok && *final(at) == final(chunk)@.len() ==> final(s).remaining().len() == 0,
{
    proof {
        lemma_whole(whole, seen, chunk@, *at as int, s.remaining());
    }
    if *at == chunk.len() {
        let ghost before = s.remaining();
        let ghost old_chunk = chunk@;
        let next = match s.read(CHUNK_SIZE) {
            Ok(c) => c,
            Err(e) => {
                return Err(e);
            },
        };
        proof {
            lemma_refill(whole, seen, old_chunk, before, next@, s.remaining());
        }
        *chunk = next;
        *at = 0;
    }
    Ok(())
}

/// Ends a comparison that has come to a difference or to the end of a
/// stream: reports the difference at once where it may, and else digests
/// what is left of both streams.
fn conclude<A: ByteStream, B: ByteStream>(
    a: &mut A,
    b: &mut B,
    ha: Hasher128_x64,
    hb: Hasher128_x64,
    pa: &Vec<u8>,
    ia: usize,
    pb: &Vec<u8>,
    ib: usize,
    same: bool,
    short_circuit: bool,
    Ghost(a0): Ghost<Seq<u8>>,
    Ghost(b0): Ghost<Seq<u8>>,
) -> (r: Result<(bool, Option<(u128, u128)>)>)
    requires
        split(a0, crate::digest::hasher_bytes(ha), pa@, ia as int, old(a).remaining()),
        split(b0, crate::digest::hasher_bytes(hb), pb@, ib as int, old(b).remaining()),
        crate::digest::hasher_bytes(ha).len() <= DIGEST_LIMIT,
        crate::digest::hasher_bytes(hb).len() <= DIGEST_LIMIT,
        !crate::digest::hasher_seeded(ha),
        !crate::digest::hasher_seeded(hb),
        same == (a0 == b0),
    ensures
        r matches Err(e) ==> !(e is Consistency),
        final(a).unfailing() == old(a).unfailing(),
        final(b).unfailing() == old(b).unfailing(),
        verdict(a0, b0, short_circuit, old(a).unfailing() && old(b).unfailing(), r),
{
    proof {
        lemma_whole(a0, crate::digest::hasher_bytes(ha), pa@, ia as int, a.remaining());
        lemma_whole(b0, crate::digest::hasher_bytes(hb), pb@, ib as int, b.remaining());
    }
    if !same && short_circuit {
        return Ok((false, None));
    }
    match digest_rest(a, b, ha, hb, pa, ia, pb, ib) {
        Ok(d) => Ok((same, Some(d))),
        Err(e) => Err(e),
    }
}

/// Walks both streams in step and reports whether they hold the same bytes,
/// with the digest of each. With `short_circuit` it stops at the first
/// difference and reports no digests; without, it reads both to their ends.
/// It fails where a read fails or a stream is too long to be digested, as
/// `verdict` says.
#[verifier::rlimit(50)]
pub fn compare_streams<A: ByteStream, B: ByteStream>(
    a: &mut A,
    b: &mut B,
    short_circuit: bool,
) -> (r: Result<(bool, Option<(u128, u128)>)>)
    ensures
        r matches Err(e) ==> !(e is Consistency),
        final(a).unfailing() == old(a).unfailing(),
        final(b).unfailing() == old(b).unfailing(),
        verdict(
            old(a).remaining(),
            old(b).remaining(),
            short_circuit,
            old(a).unfailing() && old(b).unfailing(),
            r,
        ),
{
    let ghost a0 = a.remaining();
    let ghost b0 = b.remaining();
    let mut ha = hasher_new();
    let mut hb = hasher_new();
    let mut pa: Vec<u8> = Vec::new();
    let mut pb: Vec<u8> = Vec::new();
    let mut ia: usize = 0;
    let mut ib: usize = 0;
    proof {
        lemma_start(a0);
        lemma_start(b0);
    }
    loop
        invariant
            ia <= pa.len(),
            ib <= pb.len(),
            crate::digest::hasher_bytes(ha) == crate::digest::hasher_bytes(hb),
            crate::digest::hasher_bytes(ha).len() <= DIGEST_LIMIT,
            !crate::digest::hasher_seeded(ha),
            !crate::digest::hasher_seeded(hb),
            split(a0, crate::digest::hasher_bytes(ha), pa@, ia as int, a.remaining()),
            split(b0, crate::digest::hasher_bytes(hb), pb@, ib as int, b.remaining()),
            a0 == old(a).remaining(),
            b0 == old(b).remaining(),
            a.unfailing() == old(a).unfailing(),
            b.unfailing() == old(b).unfailing(),
        decreases a0.len() - crate::digest::hasher_bytes(ha).len(),
    {
        let ghost seen = crate::digest::hasher_bytes(ha);
        match refill(a, &mut pa, &mut ia, Ghost(a0), Ghost(seen)) {
            Ok(()) => {},
            Err(e) => {
                return Err(e);
            },
        }
        match refill(b, &mut pb, &mut ib, Ghost(b0), Ghost(seen)) {
            Ok(()) => {},
            Err(e) => {
                return Err(e);
            },
        }
        let la = pa.len() - ia;
        let lb = pb.len() - ib;
        if la == 0 || lb == 0 {
            let same = la == 0 && lb == 0;
            proof {
                lemma_at_end(a0, seen, pa@, ia as int, a.remaining());
                lemma_at_end(b0, seen, pb@, ib as int, b.remaining());
            }
            return conclude(a, b, ha, hb, &pa, ia, &pb, ib, same, short_circuit, Ghost(a0), Ghost(b0));
        }
        let n = if la < lb {
            la
        } else {
            lb
        };
        proof {
            lemma_advance(a0, seen, pa@, ia as int, n as int, a.remaining());
            lemma_advance(b0, seen, pb@, ib as int, n as int, b.remaining());
        }
        if !same_bytes(&pa, ia, &pb, ib, n) {
            return conclude(a, b, ha, hb, &pa, ia, &pb, ib, false, short_circuit, Ghost(a0), Ghost(b0));
        }
        proof {
            lemma_agree(a0, b0, seen, n as int);
        }
        match feed(&mut ha, &pa, ia, ia + n) {
            Ok(()) => {},
            Err(e) => {
                return Err(e);
            },
        }
        match feed(&mut hb, &pb, ib, ib + n) {
            Ok(()) => {},
            Err(e) => {
                return Err(e);
            },
        }
        ia += n;
        ib += n;
    }
}

} // verus!
