use vstd::prelude::*;

verus! {

/// Size of the circular history window.
pub const WINDOW_SIZE: usize = 0x10000;

/// Window slot where the first output byte is written.
pub const WINDOW_BASE: usize = 0xFEFD;

/// `true` when bit `bit` of `flags` marks a literal token.
pub open spec fn is_literal(flags: u8, bit: int) -> bool {
    (flags as int / vstd::arithmetic::power2::pow2(bit as nat) as int) % 2 == 1
}

/// Copies `count` bytes from window slot `from` on, one at a time, to the
/// cursor and the output, stopping early once the output holds `cap` bytes.
/// Returns the window, the cursor and the output afterwards.
pub open spec fn copy_back(
    window: Seq<u8>,
    cursor: int,
    out: Seq<u8>,
    from: int,
    count: nat,
    cap: nat,
) -> (Seq<u8>, int, Seq<u8>)
    decreases count,
{
    if count == 0 || out.len() >= cap {
        (window, cursor, out)
    } else {
        let b = window[from];
        copy_back(
            window.update(cursor, b),
            (cursor + 1) % WINDOW_SIZE as int,
            out.push(b),
            (from + 1) % WINDOW_SIZE as int,
            (count - 1) as nat,
            cap,
        )
    }
}

/// The output of the token machine from the given state on: `pos` is the next
/// input byte and `bit` the next token of the flag byte `flags` (8: a new flag
/// byte comes first). It stops when the output holds `cap` bytes, when the
/// input is exhausted, or when a back-reference lacks its three bytes.
pub open spec fn lz_run(
    src: Seq<u8>,
    cap: nat,
    window: Seq<u8>,
    cursor: int,
    out: Seq<u8>,
    pos: int,
    flags: u8,
    bit: int,
) -> Seq<u8>
    decreases src.len() - pos,
{
    if out.len() >= cap || pos >= src.len() || pos < 0 {
        out
    } else if bit >= 8 {
        lz_run(src, cap, window, cursor, out, pos + 1, src[pos], 0)
    } else if is_literal(flags, bit) {
        let b = src[pos];
        lz_run(
            src,
            cap,
            window.update(cursor, b),
            (cursor + 1) % WINDOW_SIZE as int,
            out.push(b),
            pos + 1,
            flags,
            bit + 1,
        )
    } else if pos + 3 > src.len() {
        out
    } else {
        let from = src[pos] as int + src[pos + 1] as int * 256;
        let count = src[pos + 2] as nat + 4;
        let (w, c, o) = copy_back(window, cursor, out, from, count, cap);
        lz_run(src, cap, w, c, o, pos + 3, flags, bit + 1)
    }
}

/// The window before the first byte: all zeros.
pub open spec fn zero_window() -> Seq<u8> {
    Seq::new(WINDOW_SIZE as nat, |i: int| 0u8)
}

/// `s` followed by zeros up to length `n`.
pub open spec fn zero_padded(s: Seq<u8>, n: nat) -> Seq<u8> {
    s + Seq::new((n - s.len()) as nat, |i: int| 0u8)
}

/// The decompressed bytes of `src`: exactly `dst_len` of them, zero where the
/// input ran out before the output was full.
pub open spec fn lzss_output(src: Seq<u8>, dst_len: nat) -> Seq<u8> {
    zero_padded(
        lz_run(
            src,
            dst_len,
            zero_window(),
            WINDOW_BASE as int,
            Seq::empty(),
            0,
            0,
            8,
        ),
        dst_len,
    )
}

proof fn lemma_copy_back_len(
    window: Seq<u8>,
    cursor: int,
    out: Seq<u8>,
    from: int,
    count: nat,
    cap: nat,
)
    requires
        out.len() <= cap,
        window.len() == WINDOW_SIZE,
        0 <= cursor < WINDOW_SIZE,
        0 <= from < WINDOW_SIZE,
    ensures
        ({
            let (w, c, o) = copy_back(window, cursor, out, from, count, cap);
            &&& w.len() == WINDOW_SIZE
            &&& 0 <= c < WINDOW_SIZE
            &&& out.len() <= o.len() <= cap
        }),
    decreases count,
{
    if count > 0 && out.len() < cap {
        let b = window[from];
        lemma_copy_back_len(
            window.update(cursor, b),
            (cursor + 1) % WINDOW_SIZE as int,
            out.push(b),
            (from + 1) % WINDOW_SIZE as int,
            (count - 1) as nat,
            cap,
        );
    }
}

fn flag_bit_set(flags: u8, bit: u32) -> (r: bool)
    requires
        bit < 8,
    ensures
        r == is_literal(flags, bit as int),
{
    let r = (flags >> bit) & 1 == 1;
    assert(r == is_literal(flags, bit as int)) by {
        vstd::arithmetic::power2::lemma_pow2(bit as nat);
        vstd::bits::lemma_u8_shr_is_div(flags, bit as u8);
        vstd::bits::lemma_u8_pow2_no_overflow(bit as nat);
        let shifted: u8 = flags >> bit;
        assert(shifted & 1 == shifted % 2) by (bit_vector);
    }
    r
}

/// Runs one back-reference: `count` bytes from window slot `start` on.
fn copy_back_exec(
    window: &mut Vec<u8>,
    cursor: &mut usize,
    out: &mut Vec<u8>,
    start: usize,
    count: usize,
    cap: usize,
)
    requires
        old(window)@.len() == WINDOW_SIZE,
        *old(cursor) < WINDOW_SIZE,
        start < WINDOW_SIZE,
        old(out)@.len() <= cap,
    ensures
        (final(window)@, *final(cursor) as int, final(out)@) == copy_back(
            old(window)@,
            *old(cursor) as int,
            old(out)@,
            start as int,
            count as nat,
            cap as nat,
        ),
        final(window)@.len() == WINDOW_SIZE,
        *final(cursor) < WINDOW_SIZE,
        final(out)@.len() <= cap,
{
    let mut from = start;
    let mut left = count;
    while left > 0 && out.len() < cap
        invariant
            window@.len() == WINDOW_SIZE,
            *cursor < WINDOW_SIZE,
            from < WINDOW_SIZE,
            out@.len() <= cap,
            copy_back(window@, *cursor as int, out@, from as int, left as nat, cap as nat)
                == copy_back(
                old(window)@,
                *old(cursor) as int,
                old(out)@,
                start as int,
                count as nat,
                cap as nat,
            ),
        decreases left,
    {
        let b = window[from];
        window.set(*cursor, b);
        out.push(b);
        *cursor = (*cursor + 1) % WINDOW_SIZE;
        from = (from + 1) % WINDOW_SIZE;
        left = left - 1;
    }
}

/// Decompresses the sliding-window stream `src` into exactly `dst_len` bytes.
///
/// Each flag byte governs the next eight tokens, lowest bit first: a set bit is
/// one literal byte, a clear bit a three-byte back-reference (absolute window
/// slot, little-endian, then length minus four). Short input is no error: the
/// rest of the output stays zero.
pub fn decompress(src: &[u8], dst_len: usize) -> (dst: Vec<u8>)
    ensures
        dst@ == lzss_output(src@, dst_len as nat),
        dst@.len() == dst_len,
{
    let mut window: Vec<u8> = vec![0u8; WINDOW_SIZE];
    let mut cursor: usize = WINDOW_BASE;
    let mut out: Vec<u8> = Vec::new();
    let mut pos: usize = 0;
    let mut flags: u8 = 0;
    let mut bit: u32 = 8;
    assert(window@ =~= zero_window());
    let ghost start = lz_run(src@, dst_len as nat, window@, cursor as int, out@, 0, 0, 8);
    assert(out@ =~= Seq::<u8>::empty());
    assert(zero_padded(start, dst_len as nat) == lzss_output(src@, dst_len as nat));
    while out.len() < dst_len && pos < src.len()
        invariant
            window@.len() == WINDOW_SIZE,
            cursor < WINDOW_SIZE,
            pos <= src@.len(),
            bit <= 8,
            out@.len() <= dst_len,
            lz_run(src@, dst_len as nat, window@, cursor as int, out@, pos as int, flags, bit as int)
                == start,
            zero_padded(start, dst_len as nat) == lzss_output(src@, dst_len as nat),
        decreases src@.len() - pos,
    {
        if bit >= 8 {
            flags = src[pos];
            pos = pos + 1;
            bit = 0;
        } else if flag_bit_set(flags, bit) {
            let b = src[pos];
            window.set(cursor, b);
            out.push(b);
            cursor = (cursor + 1) % WINDOW_SIZE;
            pos = pos + 1;
            bit = bit + 1;
        } else if src.len() - pos < 3 {
            assert(lz_run(src@, dst_len as nat, window@, cursor as int, out@, pos as int, flags, bit as int)
                == out@);
            return pad_zeros(out, dst_len);
        } else {
            let from = src[pos] as usize + src[pos + 1] as usize * 256;
            let count = src[pos + 2] as usize + 4;
            copy_back_exec(&mut window, &mut cursor, &mut out, from, count, dst_len);
            pos = pos + 3;
            bit = bit + 1;
        }
    }
    pad_zeros(out, dst_len)
}

/// Appends zeros to `out` up to length `n`.
fn pad_zeros(out: Vec<u8>, n: usize) -> (r: Vec<u8>)
    requires
        out@.len() <= n,
    ensures
        r@ == zero_padded(out@, n as nat),
        r@.len() == n,
{
    let mut r = out;
    while r.len() < n
        invariant
            out@.len() <= r@.len() <= n,
            r@ == zero_padded(out@, r@.len() as nat),
        decreases n - r@.len(),
    {
        r.push(0);
        assert(r@ =~= zero_padded(out@, r@.len() as nat));
    }
    r
}

proof fn lemma_lz_run_len(
    src: Seq<u8>,
    cap: nat,
    window: Seq<u8>,
    cursor: int,
    out: Seq<u8>,
    pos: int,
    flags: u8,
    bit: int,
)
    requires
        out.len() <= cap,
        window.len() == WINDOW_SIZE,
        0 <= cursor < WINDOW_SIZE,
    ensures
        lz_run(src, cap, window, cursor, out, pos, flags, bit).len() <= cap,
    decreases src.len() - pos,
{
    if out.len() >= cap || pos >= src.len() || pos < 0 {
    } else if bit >= 8 {
        lemma_lz_run_len(src, cap, window, cursor, out, pos + 1, src[pos], 0);
    } else if is_literal(flags, bit) {
        let b = src[pos];
        lemma_lz_run_len(
            src,
            cap,
            window.update(cursor, b),
            (cursor + 1) % WINDOW_SIZE as int,
            out.push(b),
            pos + 1,
            flags,
            bit + 1,
        );
    } else if pos + 3 > src.len() {
    } else {
        let from = src[pos] as int + src[pos + 1] as int * 256;
        let count = src[pos + 2] as nat + 4;
        lemma_copy_back_len(window, cursor, out, from, count, cap);
        let (w, c, o) = copy_back(window, cursor, out, from, count, cap);
        lemma_lz_run_len(src, cap, w, c, o, pos + 3, flags, bit + 1);
    }
}

/// Decompression is a function of its input: two buffers with the same bytes
/// decompress to the same output, of exactly the requested length.
pub proof fn lemma_decompress_deterministic(first: Seq<u8>, second: Seq<u8>, dst_len: nat)
    requires
        first == second,
    ensures
        lzss_output(first, dst_len) == lzss_output(second, dst_len),
        lzss_output(first, dst_len).len() == dst_len,
{
    lemma_lz_run_len(first, dst_len, zero_window(), WINDOW_BASE as int, Seq::empty(), 0, 0, 8);
}

} // verus!
