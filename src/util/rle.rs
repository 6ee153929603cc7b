use vstd::prelude::*;

verus! {

/// The bytes that the run-length stream `src` decodes to from `pos` on, after
/// `out`; `None` when a run needs more bytes than remain.
///
/// A control byte with its high bit set is followed by one byte, repeated
/// `(low 7 bits) + 3` times; otherwise `(low 7 bits) + 1` bytes follow verbatim.
pub open spec fn rle_from(src: Seq<u8>, pos: int, out: Seq<u8>) -> Option<Seq<u8>>
    decreases src.len() - pos,
{
    if pos >= src.len() || pos < 0 {
        Some(out)
    } else {
        let ctrl = src[pos];
        if ctrl >= 0x80 {
            if pos + 2 > src.len() {
                None
            } else {
                let n = (ctrl - 0x80) + 3;
                rle_from(src, pos + 2, out + Seq::new(n as nat, |i: int| src[pos + 1]))
            }
        } else {
            let n = ctrl + 1;
            if pos + 1 + n > src.len() {
                None
            } else {
                rle_from(src, pos + 1 + n, out + src.subrange(pos + 1, pos + 1 + n))
            }
        }
    }
}

/// The literal-only run-length stream of `s`: runs of at most 128 bytes, each
/// behind its length minus one.
pub open spec fn literal_runs(s: Seq<u8>) -> Seq<u8>
    decreases s.len(),
{
    if s.len() == 0 {
        Seq::empty()
    } else {
        let n = if s.len() < 128 { s.len() } else { 128 };
        seq![(n - 1) as u8] + s.take(n as int) + literal_runs(s.skip(n as int))
    }
}

/// Decodes the run-length stream held in `src` from byte `start` on.
pub fn decode_runs(src: &[u8], start: usize) -> (r: Option<Vec<u8>>)
    ensures
        r matches Some(v) ==> rle_from(src@, start as int, Seq::empty()) == Some(v@),
        r is None <==> rle_from(src@, start as int, Seq::empty()) is None,
{
    let mut out: Vec<u8> = Vec::new();
    let mut pos: usize = start;
    let ghost whole = rle_from(src@, start as int, Seq::empty());
    assert(out@ =~= Seq::<u8>::empty());
    while pos < src.len()
        invariant
            rle_from(src@, pos as int, out@) == whole,
            whole == rle_from(src@, start as int, Seq::empty()),
        decreases src@.len() - pos,
    {
        let ctrl = src[pos];
        if ctrl >= 0x80 {
            if src.len() - pos < 2 {
                return None;
            }
            let b = src[pos + 1];
            let n = (ctrl - 0x80) as usize + 3;
            let ghost before = out@;
            let mut k: usize = 0;
            while k < n
                invariant
                    k <= n,
                    n == (ctrl - 0x80) + 3,
                    out@ =~= before + Seq::new(k as nat, |i: int| b),
                decreases n - k,
            {
                out.push(b);
                k = k + 1;
            }
            assert(src@[pos + 1] == b);
            assert(out@ =~= before + Seq::new(n as nat, |i: int| src@[pos + 1]));
            pos = pos + 2;
        } else {
            let n = ctrl as usize + 1;
            if src.len() - pos - 1 < n {
                return None;
            }
            let ghost before = out@;
            let mut k: usize = 0;
            while k < n
                invariant
                    k <= n,
                    pos + 1 + n <= src@.len(),
                    pos < src@.len(),
                    src@.len() <= usize::MAX,
                    n == ctrl + 1,
                    out@ =~= before + src@.subrange(pos + 1, pos + 1 + k),
                decreases n - k,
            {
                out.push(src[pos + 1 + k]);
                k = k + 1;
                assert(out@ =~= before + src@.subrange(pos + 1, pos + 1 + k));
            }
            pos = pos + 1 + n;
        }
    }
    Some(out)
}

/// A literal-only run-length stream decodes back to the bytes it was built
/// from, after whatever was decoded before it.
pub proof fn lemma_literal_runs_from(data: Seq<u8>, pos: int, out: Seq<u8>, s: Seq<u8>)
    requires
        0 <= pos <= data.len(),
        data.subrange(pos, data.len() as int) == literal_runs(s),
    ensures
        rle_from(data, pos, out) == Some(out + s),
    decreases s.len(),
{
    if s.len() == 0 {
        assert(data.subrange(pos, data.len() as int).len() == 0);
        assert(out + s =~= out);
    } else {
        let n: int = if s.len() < 128 { s.len() as int } else { 128 };
        let tail = data.subrange(pos, data.len() as int);
        assert(tail =~= seq![(n - 1) as u8] + s.take(n) + literal_runs(s.skip(n)));
        assert(data[pos] == tail[0]);
        assert(data[pos] == (n - 1) as u8);
        assert(data.subrange(pos + 1, pos + 1 + n) =~= s.take(n)) by {
            assert forall|j: int| 0 <= j < n implies data.subrange(pos + 1, pos + 1 + n)[j] == s.take(n)[j] by {
                assert(data[pos + 1 + j] == tail[1 + j]);
            }
        }
        assert(data.subrange(pos + 1 + n, data.len() as int) =~= literal_runs(s.skip(n))) by {
            assert forall|j: int| 0 <= j < data.len() - (pos + 1 + n) implies data.subrange(
                pos + 1 + n,
                data.len() as int,
            )[j] == literal_runs(s.skip(n))[j] by {
                assert(data[pos + 1 + n + j] == tail[1 + n + j]);
            }
        }
        lemma_literal_runs_from(data, pos + 1 + n, out + s.take(n), s.skip(n));
        assert(out + s.take(n) + s.skip(n) =~= out + s);
    }
}

} // verus!
