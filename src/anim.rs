use vstd::prelude::*;

use crate::error::DecodeError;
use crate::palette::{lookup, palette_color};
use crate::util::Color;

verus! {

/// Length of the one payload that uses the bracelet rules.
pub const BRACELET_PAYLOAD_LEN: usize = 49540;

/// Which rules a frame's control bytes follow.
#[derive(Clone, Copy, Debug, PartialEq, Eq, Structural)]
pub enum CodecVariant {
    /// `1x` copy, `01` solid and `00` literal runs.
    Standard,
    /// `1x` copy runs; every other control byte starts a literal run of its low
    /// seven bits.
    Bracelet,
}

impl CodecVariant {
    /// The variant that a payload of `len` bytes is decoded with.
    pub open spec fn of_len(len: int) -> CodecVariant {
        if len == BRACELET_PAYLOAD_LEN {
            CodecVariant::Bracelet
        } else {
            CodecVariant::Standard
        }
    }

    /// Picks the variant by the payload's length: the bracelet payload is the
    /// only one of its length.
    pub fn for_payload_len(len: usize) -> (v: CodecVariant)
        ensures
            v == CodecVariant::of_len(len as int),
    {
        if len == BRACELET_PAYLOAD_LEN {
            CodecVariant::Bracelet
        } else {
            CodecVariant::Standard
        }
    }
}

/// What a control byte asks for, with its pixel count.
#[derive(Clone, Copy, Debug, PartialEq, Eq, Structural)]
pub enum RunKind {
    /// Pixels copied from the previous frame at the same position.
    CopyRun(u8),
    /// One palette index, repeated.
    SolidRun(u8),
    /// One palette index per pixel.
    LiteralRun(u8),
}

/// The run that control byte `ctrl` starts.
pub open spec fn run_of(ctrl: u8, variant: CodecVariant) -> RunKind {
    if ctrl >= 0x80 {
        RunKind::CopyRun((ctrl - 0x80) as u8)
    } else if variant == CodecVariant::Bracelet {
        RunKind::LiteralRun(ctrl)
    } else if ctrl >= 0x40 {
        RunKind::SolidRun((ctrl - 0x40) as u8)
    } else {
        RunKind::LiteralRun(ctrl)
    }
}

/// Splits a control byte into its run kind and count.
pub fn classify(ctrl: u8, variant: CodecVariant) -> (k: RunKind)
    ensures
        k == run_of(ctrl, variant),
{
    if ctrl >= 0x80 {
        RunKind::CopyRun(ctrl - 0x80)
    } else {
        match variant {
            CodecVariant::Bracelet => RunKind::LiteralRun(ctrl),
            CodecVariant::Standard => {
                if ctrl >= 0x40 {
                    RunKind::SolidRun(ctrl - 0x40)
                } else {
                    RunKind::LiteralRun(ctrl)
                }
            },
        }
    }
}

/// `n` pixels of color `c`, as RGBA bytes.
pub open spec fn repeat_color(c: Color, n: nat) -> Seq<u8>
    decreases n,
{
    if n == 0 {
        Seq::empty()
    } else {
        repeat_color(c, (n - 1) as nat) + c.bytes()
    }
}

/// The RGBA bytes of the palette entries that `indices` name.
pub open spec fn indexed_pixels(indices: Seq<u8>, palette: Seq<Color>) -> Seq<u8>
    decreases indices.len(),
{
    if indices.len() == 0 {
        Seq::empty()
    } else {
        indexed_pixels(indices.drop_last(), palette) + palette_color(
            palette,
            indices.last() as int,
        ).bytes()
    }
}

/// The frame that the control stream `input` decodes to from `pos` on, after
/// the bytes `out`. Copy runs read `prev` at the current output position, or
/// repeat the `default_index` color when there is no previous frame.
pub open spec fn frame_from(
    input: Seq<u8>,
    pos: int,
    out: Seq<u8>,
    prev: Option<Seq<u8>>,
    palette: Seq<Color>,
    default_index: int,
    variant: CodecVariant,
) -> Result<Seq<u8>, DecodeError>
    decreases input.len() - pos,
{
    if pos < 0 || pos >= input.len() {
        Ok(out)
    } else {
        match run_of(input[pos], variant) {
            RunKind::CopyRun(n) => {
                if n == 0 {
                    Err(DecodeError::InvalidRunLength)
                } else {
                    match prev {
                        Some(p) => {
                            if out.len() + 4 * n > p.len() {
                                Err(DecodeError::TruncatedInput)
                            } else {
                                frame_from(
                                    input,
                                    pos + 1,
                                    out + p.subrange(out.len() as int, out.len() + 4 * n),
                                    prev,
                                    palette,
                                    default_index,
                                    variant,
                                )
                            }
                        },
                        None => frame_from(
                            input,
                            pos + 1,
                            out + repeat_color(palette_color(palette, default_index), n as nat),
                            prev,
                            palette,
                            default_index,
                            variant,
                        ),
                    }
                }
            },
            RunKind::SolidRun(n) => {
                if n == 0 {
                    Err(DecodeError::InvalidRunLength)
                } else if pos + 2 > input.len() {
                    Err(DecodeError::TruncatedInput)
                } else {
                    frame_from(
                        input,
                        pos + 2,
                        out + repeat_color(palette_color(palette, input[pos + 1] as int), n as nat),
                        prev,
                        palette,
                        default_index,
                        variant,
                    )
                }
            },
            RunKind::LiteralRun(n) => {
                if n == 0 {
                    Err(DecodeError::InvalidRunLength)
                } else if pos + 1 + n > input.len() {
                    Err(DecodeError::TruncatedInput)
                } else {
                    frame_from(
                        input,
                        pos + 1 + n,
                        out + indexed_pixels(input.subrange(pos + 1, pos + 1 + n), palette),
                        prev,
                        palette,
                        default_index,
                        variant,
                    )
                }
            },
        }
    }
}

/// The frame that the control stream `input` decodes to.
#[verifier::opaque]
pub open spec fn frame_output(
    input: Seq<u8>,
    prev: Option<Seq<u8>>,
    palette: Seq<Color>,
    default_index: int,
    variant: CodecVariant,
) -> Result<Seq<u8>, DecodeError> {
    frame_from(input, 0, Seq::empty(), prev, palette, default_index, variant)
}

/// The contents of an optional borrowed frame.
pub open spec fn frame_view(frame: Option<&Vec<u8>>) -> Option<Seq<u8>> {
    match frame {
        Some(f) => Some(f@),
        None => None,
    }
}

/// Appends `n` pixels of color `c`.
fn push_repeat(out: &mut Vec<u8>, c: Color, n: u8)
    ensures
        final(out)@ == old(out)@ + repeat_color(c, n as nat),
{
    let ghost before = old(out)@;
    let mut k: u8 = 0;
    assert(out@ =~= before + repeat_color(c, 0));
    while k < n
        invariant
            k <= n,
            out@ == before + repeat_color(c, k as nat),
        decreases n - k,
    {
        out.push(c.r);
        out.push(c.g);
        out.push(c.b);
        out.push(c.a);
        k = k + 1;
        assert(out@ =~= before + repeat_color(c, k as nat));
    }
}

/// Appends one pixel per index byte of `input[start..start + n]`.
pub(crate) fn push_indexed(out: &mut Vec<u8>, input: &[u8], start: usize, n: usize, palette: &[Color])
    requires
        palette@.len() > 0,
        start + n <= input@.len(),
    ensures
        final(out)@ == old(out)@ + indexed_pixels(
            input@.subrange(start as int, start + n),
            palette@,
        ),
{
    let ghost before = old(out)@;
    let mut k: usize = 0;
    let input_len = input.len();
    assert(out@ =~= before + indexed_pixels(input@.subrange(start as int, start as int), palette@));
    while k < n
        invariant
            k <= n,
            start + n <= input@.len(),
            input@.len() == input_len,
            palette@.len() > 0,
            out@ == before + indexed_pixels(input@.subrange(start as int, start + k), palette@),
        decreases n - k,
    {
        let c = lookup(palette, input[start + k] as usize);
        out.push(c.r);
        out.push(c.g);
        out.push(c.b);
        out.push(c.a);
        let ghost old_k = k;
        k = k + 1;
        assert(input@.subrange(start as int, start + k).drop_last() =~= input@.subrange(
            start as int,
            start + old_k,
        ));
        assert(out@ =~= before + indexed_pixels(input@.subrange(start as int, start + k), palette@));
    }
}

/// Appends `n` bytes of `prev` from `start` on.
fn push_copied(out: &mut Vec<u8>, prev: &Vec<u8>, start: usize, n: usize)
    requires
        start + n <= prev@.len(),
    ensures
        final(out)@ == old(out)@ + prev@.subrange(start as int, start + n),
{
    let ghost before = old(out)@;
    let mut k: usize = 0;
    let prev_len = prev.len();
    while k < n
        invariant
            k <= n,
            start + n <= prev@.len(),
            prev@.len() == prev_len,
            out@ =~= before + prev@.subrange(start as int, start + k),
        decreases n - k,
    {
        out.push(prev[start + k]);
        k = k + 1;
        assert(out@ =~= before + prev@.subrange(start as int, start + k));
    }
}

/// Decodes one frame's control stream into RGBA bytes.
///
/// Copy runs take pixels from `prev` at the current output position, or repeat
/// the `default_color_index` color when there is no previous frame; solid and
/// literal runs look their colors up in `palette`, wrapping around. A run of
/// zero pixels is `InvalidRunLength`; a run that needs more bytes than the
/// stream or the previous frame holds is `TruncatedInput`. The frame's length
/// is not checked against any raster size.
pub fn decode_frame(
    input: &[u8],
    prev: Option<&Vec<u8>>,
    palette: &[Color],
    default_color_index: usize,
    variant: CodecVariant,
) -> (r: Result<Vec<u8>, DecodeError>)
    requires
        palette@.len() > 0,
    ensures
        r matches Ok(v) ==> frame_output(
            input@,
            frame_view(prev),
            palette@,
            default_color_index as int,
            variant,
        ) == Ok::<Seq<u8>, DecodeError>(v@),
        r matches Err(e) ==> frame_output(
            input@,
            frame_view(prev),
            palette@,
            default_color_index as int,
            variant,
        ) == Err::<Seq<u8>, DecodeError>(e),
{
    reveal(frame_output);
    let default_color = lookup(palette, default_color_index);
    let mut out: Vec<u8> = Vec::new();
    let mut pos: usize = 0;
    let input_len = input.len();
    let ghost whole = frame_output(
        input@,
        frame_view(prev),
        palette@,
        default_color_index as int,
        variant,
    );
    assert(out@ =~= Seq::<u8>::empty());
    while pos < input_len
        invariant
            input@.len() == input_len,
            pos <= input_len,
            palette@.len() > 0,
            default_color == palette_color(palette@, default_color_index as int),
            whole == frame_output(
                input@,
                frame_view(prev),
                palette@,
                default_color_index as int,
                variant,
            ),
            frame_from(
                input@,
                pos as int,
                out@,
                frame_view(prev),
                palette@,
                default_color_index as int,
                variant,
            ) == whole,
        decreases input_len - pos,
    {
        match classify(input[pos], variant) {
            RunKind::CopyRun(n) => {
                if n == 0 {
                    return Err(DecodeError::InvalidRunLength);
                }
                match prev {
                    Some(p) => {
                        let bytes = n as usize * 4;
                        if out.len() > p.len() || p.len() - out.len() < bytes {
                            return Err(DecodeError::TruncatedInput);
                        }
                        let start = out.len();
                        push_copied(&mut out, p, start, bytes);
                    },
                    None => {
                        push_repeat(&mut out, default_color, n);
                    },
                }
                pos = pos + 1;
            },
            RunKind::SolidRun(n) => {
                if n == 0 {
                    return Err(DecodeError::InvalidRunLength);
                }
                if input_len - pos < 2 {
                    return Err(DecodeError::TruncatedInput);
                }
                let c = lookup(palette, input[pos + 1] as usize);
                push_repeat(&mut out, c, n);
                pos = pos + 2;
            },
            RunKind::LiteralRun(n) => {
                if n == 0 {
                    return Err(DecodeError::InvalidRunLength);
                }
                if input_len - pos - 1 < n as usize {
                    return Err(DecodeError::TruncatedInput);
                }
                push_indexed(&mut out, input, pos + 1, n as usize, palette);
                pos = pos + 1 + n as usize;
            },
        }
    }
    Ok(out)
}

/// Decodes one frame with the rules that its payload length selects.
/// `width` and `height` only size the buffer: the frame is not checked
/// against them.
pub fn decompress_frame(
    input: &[u8],
    width: u16,
    height: u16,
    maybe_prev_frame: Option<&Vec<u8>>,
    palette: &[Color],
    default_color_index: usize,
) -> (r: Result<Vec<u8>, DecodeError>)
    requires
        palette@.len() > 0,
    ensures
        r matches Ok(v) ==> frame_output(
            input@,
            frame_view(maybe_prev_frame),
            palette@,
            default_color_index as int,
            CodecVariant::of_len(input@.len() as int),
        ) == Ok::<Seq<u8>, DecodeError>(v@),
        r matches Err(e) ==> frame_output(
            input@,
            frame_view(maybe_prev_frame),
            palette@,
            default_color_index as int,
            CodecVariant::of_len(input@.len() as int),
        ) == Err::<Seq<u8>, DecodeError>(e),
{
    let variant = CodecVariant::for_payload_len(input.len());
    decode_frame(input, maybe_prev_frame, palette, default_color_index, variant)
}

/// The pixel count of a run.
pub open spec fn run_count(k: RunKind) -> u8 {
    match k {
        RunKind::CopyRun(n) => n,
        RunKind::SolidRun(n) => n,
        RunKind::LiteralRun(n) => n,
    }
}

/// A run of zero pixels, of any kind and wherever it stands in the stream,
/// fails the frame with `InvalidRunLength`.
pub proof fn lemma_zero_run_rejected(
    input: Seq<u8>,
    pos: int,
    out: Seq<u8>,
    prev: Option<Seq<u8>>,
    palette: Seq<Color>,
    default_index: int,
    variant: CodecVariant,
)
    requires
        0 <= pos < input.len(),
        run_count(run_of(input[pos], variant)) == 0,
    ensures
        frame_from(input, pos, out, prev, palette, default_index, variant) == Err::<
            Seq<u8>,
            DecodeError,
        >(DecodeError::InvalidRunLength),
{
}

} // verus!
