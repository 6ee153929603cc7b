use vstd::prelude::*;

use crate::util::io::{read_u32_le, u32_le};

verus! {

/// The index of the first zero byte of `data` at or after `from`, or
/// `data.len()` when there is none.
pub open spec fn zero_at(data: Seq<u8>, from: int) -> int
    decreases data.len() - from,
{
    if from >= data.len() {
        data.len() as int
    } else if data[from] == 0 {
        from
    } else {
        zero_at(data, from + 1)
    }
}

/// The line that starts at byte `start`: up to its zero terminator; a line
/// that runs to the end of the data without one loses its last byte.
pub open spec fn line_at(data: Seq<u8>, start: int) -> Seq<u8> {
    if start >= data.len() {
        Seq::empty()
    } else if zero_at(data, start) < data.len() {
        data.subrange(start, zero_at(data, start))
    } else {
        data.subrange(start, data.len() - 1)
    }
}

/// Where line `i` of a line table starts.
pub open spec fn line_start(data: Seq<u8>, i: int) -> int {
    4 + 4 * u32_le(data, 0) + u32_le(data, 4 + 4 * i)
}

/// The first `k` lines of the table, each followed by a newline.
pub open spec fn lines_text(data: Seq<u8>, k: nat) -> Seq<u8>
    decreases k,
{
    if k == 0 {
        Seq::empty()
    } else {
        lines_text(data, (k - 1) as nat) + line_at(data, line_start(data, k - 1)) + seq![10u8]
    }
}

/// The text of a line table, or `None` when the table does not fit.
pub open spec fn text_output(data: Seq<u8>) -> Option<Seq<u8>> {
    if data.len() < 4 || data.len() < 4 + 4 * u32_le(data, 0) {
        None
    } else {
        Some(lines_text(data, u32_le(data, 0) as nat))
    }
}

/// The zero search ends at or after where it starts, on a zero byte unless it
/// ran off the end.
pub(crate) proof fn lemma_zero_at(data: Seq<u8>, from: int)
    requires
        0 <= from,
    ensures
        from <= zero_at(data, from) || from > data.len(),
        zero_at(data, from) < data.len() ==> data[zero_at(data, from)] == 0,
    decreases data.len() - from,
{
    if from < data.len() && data[from] != 0 {
        lemma_zero_at(data, from + 1);
    }
}

/// Appends the line that starts at byte `start`: see `line_at`.
fn push_line(out: &mut Vec<u8>, data: &[u8], start: usize)
    ensures
        final(out)@ == old(out)@ + line_at(data@, start as int),
{
    let len = data.len();
    if start >= len {
        assert(line_at(data@, start as int) =~= Seq::<u8>::empty());
        assert(old(out)@ + Seq::<u8>::empty() =~= old(out)@);
        return;
    }
    let mut end = start;
    while end < len && data[end] != 0
        invariant
            start <= end <= len,
            data@.len() == len,
            zero_at(data@, end as int) == zero_at(data@, start as int),
        decreases len - end,
    {
        end = end + 1;
    }
    proof {
        lemma_zero_at(data@, start as int);
    }
    let stop = if end < len { end } else { len - 1 };
    let ghost before = out@;
    let mut k = start;
    while k < stop
        invariant
            start <= k,
            k <= stop || stop < start,
            stop <= len,
            data@.len() == len,
            out@ =~= before + data@.subrange(start as int, k as int),
        decreases stop - k,
    {
        out.push(data[k]);
        k = k + 1;
        assert(out@ =~= before + data@.subrange(start as int, k as int));
    }
}

/// Rewrites a line table as text: a `u32` line count, one `u32` offset per
/// line (counted from the end of the table), then zero-terminated lines. The
/// lines come out in table order, each followed by a newline. `None` when the
/// table itself does not fit in `data`.
pub fn extract_lines(data: &[u8]) -> (r: Option<Vec<u8>>)
    ensures
        r is None <==> text_output(data@) is None,
        r matches Some(v) ==> text_output(data@) == Some(v@),
{
    let len = data.len();
    if len < 4 {
        return None;
    }
    let count = read_u32_le(data, 0) as usize;
    if (len - 4) / 4 < count {
        return None;
    }
    let mut out: Vec<u8> = Vec::new();
    let mut i: usize = 0;
    assert(out@ =~= lines_text(data@, 0));
    while i < count
        invariant
            i <= count,
            count == u32_le(data@, 0),
            data@.len() == len,
            4 + 4 * count <= len,
            out@ == lines_text(data@, i as nat),
        decreases count - i,
    {
        let at = (4 + 4 * count) as u64 + read_u32_le(data, 4 + 4 * i) as u64;
        let start = if at < len as u64 { at as usize } else { len };
        push_line(&mut out, data, start);
        assert(line_at(data@, start as int) == line_at(data@, line_start(data@, i as int)));
        out.push(10);
        i = i + 1;
        assert(out@ =~= lines_text(data@, i as nat));
    }
    Some(out)
}

} // verus!
