use vstd::prelude::*;

use crate::anim::{decode_frame, frame_output, frame_view, CodecVariant};
use crate::error::DecodeError;
use crate::overlay::MASK_BYTES;
use crate::util::io::{read_u16_le, read_u32_le, u16_le, u32_le};
use crate::util::{copy_range, ChannelOrder, Color};

verus! {

/// Bytes of the fixed header fields read before the frame table.
pub const HEADER_LEN: usize = 26;

/// Offset of the frame table.
pub const TABLE_START: usize = 32;

/// Bytes of one frame table entry: offset, length, eight reserved bytes.
pub const TABLE_ENTRY_LEN: usize = 16;

/// Bytes of a frame record's header: zero marker, control stream length,
/// palette byte length, one reserved word.
pub const RECORD_HEADER_LEN: usize = 16;

/// Bytes of the overlay file's header: frame count and reserved bytes.
pub const OVERLAY_HEADER_LEN: usize = 32;

/// Bytes of one packed overlay mask: one color word per texel.
pub const PACKED_MASK_LEN: usize = 1122;

/// A decoded animation: frames of RGBA bytes on one canvas.
pub struct Animation {
    pub width: u16,
    pub height: u16,
    pub frames: Vec<Vec<u8>>,
}

/// The contents of each frame.
pub open spec fn frames_view(frames: Seq<Vec<u8>>) -> Seq<Seq<u8>> {
    frames.map_values(|f: Vec<u8>| f@)
}

/// The frame count that the header declares.
pub open spec fn frame_count(data: Seq<u8>) -> int {
    u32_le(data, 4)
}

/// `true` when `data` holds the header and every frame table entry's offset and
/// length.
pub open spec fn table_fits(data: Seq<u8>) -> bool {
    &&& data.len() >= HEADER_LEN
    &&& frame_count(data) == 0 || data.len() >= TABLE_START + TABLE_ENTRY_LEN * (frame_count(
        data,
    ) - 1) + 8
}

/// The `count` colors packed in `words`, two bytes each, lowest field red.
pub open spec fn palette_of(words: Seq<u8>, count: nat) -> Seq<Color> {
    Seq::new(count, |e: int| Color::of_word(words[2 * e], words[2 * e + 1], ChannelOrder::Rgb))
}

/// The control stream and palette of the frame record `rec`.
pub open spec fn record_parts(rec: Seq<u8>) -> Result<(Seq<u8>, Seq<Color>), DecodeError> {
    if rec.len() < RECORD_HEADER_LEN {
        Err(DecodeError::TruncatedInput)
    } else if u32_le(rec, 0) != 0 {
        Err(DecodeError::MalformedFrameHeader)
    } else {
        let control_len = u32_le(rec, 4);
        let count = u32_le(rec, 8) / 2;
        if RECORD_HEADER_LEN + control_len > rec.len() {
            Err(DecodeError::TruncatedInput)
        } else {
            let words = rec.subrange(RECORD_HEADER_LEN + control_len, rec.len() as int);
            if 2 * count > words.len() {
                Err(DecodeError::TruncatedInput)
            } else if count == 0 {
                Err(DecodeError::EmptyPalette)
            } else {
                Ok(
                    (
                        rec.subrange(RECORD_HEADER_LEN as int, RECORD_HEADER_LEN + control_len),
                        palette_of(words, count as nat),
                    ),
                )
            }
        }
    }
}

/// The bytes of frame record `i`, as its table entry locates them.
pub open spec fn record_at(data: Seq<u8>, i: int) -> Option<Seq<u8>> {
    let at = u32_le(data, TABLE_START + TABLE_ENTRY_LEN * i);
    let len = u32_le(data, TABLE_START + TABLE_ENTRY_LEN * i + 4);
    if at + len > data.len() {
        None
    } else {
        Some(data.subrange(at, at + len))
    }
}

/// Frame `i` of the animation, decoded after `prev`.
pub open spec fn frame_at(data: Seq<u8>, i: int, prev: Option<Seq<u8>>) -> Result<Seq<u8>, DecodeError> {
    match record_at(data, i) {
        None => Err(DecodeError::TruncatedInput),
        Some(rec) => match record_parts(rec) {
            Err(e) => Err(e),
            Ok((control, palette)) => frame_output(
                control,
                prev,
                palette,
                u32_le(data, 12),
                CodecVariant::of_len(control.len() as int),
            ),
        },
    }
}

/// The last frame of `frames`, if any.
pub open spec fn last_frame(frames: Seq<Seq<u8>>) -> Option<Seq<u8>> {
    if frames.len() == 0 {
        None
    } else {
        Some(frames.last())
    }
}

/// The frames that decode among the first `k` table entries, in order. Each
/// is decoded after the last one that decoded before it; one that fails is
/// left out.
pub open spec fn decoded_frames(data: Seq<u8>, k: nat) -> Seq<Seq<u8>>
    decreases k,
{
    if k == 0 {
        Seq::empty()
    } else {
        let before = decoded_frames(data, (k - 1) as nat);
        match frame_at(data, k - 1, last_frame(before)) {
            Ok(f) => before.push(f),
            Err(_) => before,
        }
    }
}

/// Reads the palette of `count` words from `data[start..]`.
pub fn read_palette(data: &[u8], start: usize, count: usize) -> (p: Vec<Color>)
    requires
        start + 2 * count <= data@.len(),
    ensures
        p@ == palette_of(data@.subrange(start as int, data@.len() as int), count as nat),
{
    let ghost words = data@.subrange(start as int, data@.len() as int);
    let mut p: Vec<Color> = Vec::new();
    let mut e: usize = 0;
    let len = data.len();
    while e < count
        invariant
            e <= count,
            start + 2 * count <= data@.len(),
            data@.len() == len,
            words == data@.subrange(start as int, data@.len() as int),
            p@ =~= palette_of(words, e as nat),
        decreases count - e,
    {
        let at = start + 2 * e;
        let c = Color::from_rgb555([data[at], data[at + 1]]);
        p.push(c);
        e = e + 1;
        assert(p@ =~= palette_of(words, e as nat));
    }
    p
}

/// Splits a frame record into its control stream and palette.
pub fn parse_record(rec: &[u8]) -> (r: Result<(Vec<u8>, Vec<Color>), DecodeError>)
    ensures
        r matches Ok((c, p)) ==> record_parts(rec@) == Ok::<(Seq<u8>, Seq<Color>), DecodeError>(
            (c@, p@),
        ),
        r matches Err(e) ==> record_parts(rec@) == Err::<(Seq<u8>, Seq<Color>), DecodeError>(e),
{
    let len = rec.len();
    if len < RECORD_HEADER_LEN {
        return Err(DecodeError::TruncatedInput);
    }
    if read_u32_le(rec, 0) != 0 {
        return Err(DecodeError::MalformedFrameHeader);
    }
    let control_len = read_u32_le(rec, 4) as usize;
    let count = (read_u32_le(rec, 8) / 2) as usize;
    if len - RECORD_HEADER_LEN < control_len {
        return Err(DecodeError::TruncatedInput);
    }
    let words_start = RECORD_HEADER_LEN + control_len;
    if (len - words_start) / 2 < count {
        return Err(DecodeError::TruncatedInput);
    }
    if count == 0 {
        return Err(DecodeError::EmptyPalette);
    }
    let control = copy_range(rec, RECORD_HEADER_LEN, control_len);
    let palette = read_palette(rec, words_start, count);
    Ok((control, palette))
}

/// Decodes frame `i` of the animation in `data` after `prev`.
fn decode_frame_at(data: &[u8], i: usize, prev: Option<&Vec<u8>>) -> (r: Result<Vec<u8>, DecodeError>)
    requires
        data@.len() >= TABLE_START + TABLE_ENTRY_LEN * i + 8,
        data@.len() >= HEADER_LEN,
    ensures
        r matches Ok(v) ==> frame_at(data@, i as int, frame_view(prev)) == Ok::<Seq<u8>, DecodeError>(v@),
        r matches Err(e) ==> frame_at(data@, i as int, frame_view(prev)) == Err::<Seq<u8>, DecodeError>(e),
{
    let data_len = data.len();
    assert(TABLE_START + TABLE_ENTRY_LEN * i <= data_len);
    let entry = TABLE_START + TABLE_ENTRY_LEN * i;
    let at = read_u32_le(data, entry) as usize;
    let len = read_u32_le(data, entry + 4) as usize;
    if at > data.len() || data.len() - at < len {
        return Err(DecodeError::TruncatedInput);
    }
    let rec = copy_range(data, at, len);
    assert(record_at(data@, i as int) == Some(rec@));
    match parse_record(rec.as_slice()) {
        Err(e) => Err(e),
        Ok((control, palette)) => {
            assert(palette@.len() > 0);
            let variant = CodecVariant::for_payload_len(control.len());
            let default_index = read_u32_le(data, 12) as usize;
            let r = decode_frame(control.as_slice(), prev, palette.as_slice(), default_index, variant);
            assert(frame_at(data@, i as int, frame_view(prev)) == frame_output(
                control@,
                frame_view(prev),
                palette@,
                default_index as int,
                variant,
            ));
            r
        },
    }
}

/// The last frame decoded so far, if any.
fn last_of(frames: &Vec<Vec<u8>>) -> (r: Option<&Vec<u8>>)
    ensures
        frame_view(r) == last_frame(frames_view(frames@)),
{
    if frames.len() == 0 {
        None
    } else {
        Some(&frames[frames.len() - 1])
    }
}

/// Decodes an animation file held whole in `data`: the header gives the frame
/// count, the default palette index and the canvas size; each table entry
/// locates a frame record, decoded after the last frame that decoded. A frame
/// that fails to decode is left out; a header or table that does not fit is
/// `TruncatedInput`.
pub fn decode_animation(data: &[u8]) -> (r: Result<Animation, DecodeError>)
    ensures
        r is Err <==> !table_fits(data@),
        r matches Err(e) ==> e == DecodeError::TruncatedInput,
        r matches Ok(a) ==> {
            &&& a.width as int == u16_le(data@, 16)
            &&& a.height as int == u16_le(data@, 18)
            &&& frames_view(a.frames@) == decoded_frames(data@, frame_count(data@) as nat)
        },
{
    let len = data.len();
    if len < HEADER_LEN {
        return Err(DecodeError::TruncatedInput);
    }
    let count = read_u32_le(data, 4) as usize;
    if count > 0 && (len < TABLE_START + 8 || (len - TABLE_START - 8) / TABLE_ENTRY_LEN < count - 1) {
        return Err(DecodeError::TruncatedInput);
    }
    let width = read_u16_le(data, 16);
    let height = read_u16_le(data, 18);
    let mut frames: Vec<Vec<u8>> = Vec::new();
    let mut i: usize = 0;
    assert(frames_view(frames@) =~= decoded_frames(data@, 0));
    while i < count
        invariant
            i <= count,
            count == frame_count(data@),
            data@.len() == len,
            len >= HEADER_LEN,
            count == 0 || len >= TABLE_START + TABLE_ENTRY_LEN * (count - 1) + 8,
            frames_view(frames@) == decoded_frames(data@, i as nat),
        decreases count - i,
    {
        let result = decode_frame_at(data, i, last_of(&frames));
        match result {
            Ok(f) => {
                frames.push(f);
            },
            Err(_) => {},
        }
        i = i + 1;
        assert(frames_view(frames@) =~= decoded_frames(data@, i as nat));
    }
    Ok(Animation { width, height, frames })
}

/// The RGBA bytes of the first `n` texels packed in `words`.
pub open spec fn mask_texels(words: Seq<u8>, n: nat) -> Seq<u8>
    decreases n,
{
    if n == 0 {
        Seq::empty()
    } else {
        mask_texels(words, (n - 1) as nat) + Color::of_word(
            words[2 * (n - 1)],
            words[2 * (n - 1) + 1],
            ChannelOrder::Rgb,
        ).bytes()
    }
}

/// Mask `f` of an overlay file.
pub open spec fn overlay_mask(data: Seq<u8>, f: int) -> Seq<u8> {
    let start = OVERLAY_HEADER_LEN + PACKED_MASK_LEN * f;
    mask_texels(data.subrange(start, start + PACKED_MASK_LEN), (PACKED_MASK_LEN / 2) as nat)
}

/// The masks of an overlay file, or `None` when it is shorter than its
/// header and declared masks.
pub open spec fn overlay_output(data: Seq<u8>) -> Option<Seq<Seq<u8>>> {
    if data.len() < OVERLAY_HEADER_LEN {
        None
    } else if data.len() < OVERLAY_HEADER_LEN + PACKED_MASK_LEN * u32_le(data, 0) {
        None
    } else {
        Some(Seq::new(u32_le(data, 0) as nat, |f: int| overlay_mask(data, f)))
    }
}

proof fn lemma_mask_texels_len(words: Seq<u8>, n: nat)
    ensures
        mask_texels(words, n).len() == 4 * n,
    decreases n,
{
    if n > 0 {
        lemma_mask_texels_len(words, (n - 1) as nat);
    }
}

/// Unpacks one mask from the color words at `data[start..]`.
fn read_mask(data: &[u8], start: usize) -> (m: Vec<u8>)
    requires
        start + PACKED_MASK_LEN <= data@.len(),
    ensures
        m@ == mask_texels(
            data@.subrange(start as int, start + PACKED_MASK_LEN),
            (PACKED_MASK_LEN / 2) as nat,
        ),
        m@.len() == MASK_BYTES,
{
    let ghost words = data@.subrange(start as int, start + PACKED_MASK_LEN);
    let mut m: Vec<u8> = Vec::new();
    let mut t: usize = 0;
    let len = data.len();
    while t < PACKED_MASK_LEN / 2
        invariant
            t <= PACKED_MASK_LEN / 2,
            start + PACKED_MASK_LEN <= data@.len(),
            data@.len() == len,
            words == data@.subrange(start as int, start + PACKED_MASK_LEN),
            m@ == mask_texels(words, t as nat),
        decreases PACKED_MASK_LEN / 2 - t,
    {
        let at = start + 2 * t;
        let c = Color::from_rgb555([data[at], data[at + 1]]);
        m.push(c.r);
        m.push(c.g);
        m.push(c.b);
        m.push(c.a);
        t = t + 1;
        assert(m@ =~= mask_texels(words, t as nat));
    }
    proof {
        lemma_mask_texels_len(words, (PACKED_MASK_LEN / 2) as nat);
    }
    m
}

/// Reads the overlay masks of an overlay file held whole in `data`: a frame
/// count, reserved bytes, then per frame one packed color word per texel.
pub fn parse_overlay_frames(data: &[u8]) -> (r: Option<Vec<Vec<u8>>>)
    ensures
        r is None <==> overlay_output(data@) is None,
        r matches Some(v) ==> overlay_output(data@) == Some(frames_view(v@)),
        r matches Some(v) ==> forall|f: int| 0 <= f < v@.len() ==> (#[trigger] v@[f])@.len() == MASK_BYTES,
{
    let len = data.len();
    if len < OVERLAY_HEADER_LEN {
        return None;
    }
    let count = read_u32_le(data, 0) as usize;
    if (len - OVERLAY_HEADER_LEN) / PACKED_MASK_LEN < count {
        return None;
    }
    let mut masks: Vec<Vec<u8>> = Vec::new();
    let mut f: usize = 0;
    while f < count
        invariant
            f <= count,
            count == u32_le(data@, 0),
            data@.len() == len,
            len >= OVERLAY_HEADER_LEN + PACKED_MASK_LEN * count,
            masks@.len() == f,
            forall|g: int| 0 <= g < f ==> (#[trigger] masks@[g])@ == overlay_mask(data@, g),
            forall|g: int| 0 <= g < f ==> (#[trigger] masks@[g])@.len() == MASK_BYTES,
        decreases count - f,
    {
        let m = read_mask(data, OVERLAY_HEADER_LEN + PACKED_MASK_LEN * f);
        masks.push(m);
        f = f + 1;
    }
    assert(frames_view(masks@) =~= Seq::new(count as nat, |g: int| overlay_mask(data@, g)));
    Some(masks)
}

} // verus!
