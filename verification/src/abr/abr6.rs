//! The decoder of generation-6 libraries: brush records behind 32-bit
//! lengths, each beginning on a 4-byte boundary, inside the sample section of
//! a stream of resource blocks.

use super::helper::{pixel_data, read_pixel_data, tell};
use super::source::{be_u16_at, be_u32_at, ByteSource, IoError};
use super::{brush_io, open_io, outcome_view, BrushError, BrushView, OpenError, SampleBrush};
use vstd::prelude::*;

verus! {

/// A generation-6 decoder as mathematics: the bytes it reads, the
/// sub-variant of their layout, where the sample section ends and where the
/// next brush begins. It is exhausted once `next` has reached `end`.
pub struct Gen6State {
    pub bytes: Seq<u8>,
    pub subversion: u16,
    pub end: int,
    pub next: int,
}

/// The decoder of a generation-6 library.
pub struct Abr6Decoder {
    rdr: ByteSource,
    subversion: u16,
    sample_section_end: u64,
    next_brush_pos: u64,
}

impl View for Abr6Decoder {
    type V = Gen6State;

    closed spec fn view(&self) -> Gen6State {
        Gen6State {
            bytes: self.rdr.bytes(),
            subversion: self.subversion,
            end: self.sample_section_end as int,
            next: self.next_brush_pos as int,
        }
    }
}

/// Whether the four bytes at `at` spell `8bim`.
pub open spec fn is_8bim(bytes: Seq<u8>, at: int) -> bool {
    bytes[at] == 0x38 && bytes[at + 1] == 0x62 && bytes[at + 2] == 0x69 && bytes[at + 3] == 0x6d
}

/// Whether the four bytes at `at` spell `samp`.
pub open spec fn is_samp(bytes: Seq<u8>, at: int) -> bool {
    bytes[at] == 0x73 && bytes[at + 1] == 0x61 && bytes[at + 2] == 0x6d && bytes[at + 3] == 0x70
}

/// The offset just behind the tag of the sample section, found by walking
/// the resource blocks from `at`.
///
/// A block is a 4-byte signature, a 4-byte tag, a 32-bit length and as many
/// bytes as the length says. The walk ends at the first block tagged `samp`.
/// It fails at a block signed `8bim`, and where the source ends first.
pub open spec fn sample_section(bytes: Seq<u8>, at: int) -> Result<int, OpenError>
    decreases
        (if at <= bytes.len() {
            bytes.len() - at
        } else {
            0
        }),
{
    if at < 0 || at + 4 > bytes.len() {
        Err(OpenError::IoError(IoError::UnexpectedEof))
    } else if is_8bim(bytes, at) {
        Err(OpenError::Found8bim)
    } else if at + 8 > bytes.len() {
        Err(OpenError::IoError(IoError::UnexpectedEof))
    } else if is_samp(bytes, at + 4) {
        Ok(at + 8)
    } else if at + 12 > bytes.len() {
        Err(OpenError::IoError(IoError::UnexpectedEof))
    } else {
        sample_section(bytes, at + 12 + be_u32_at(bytes, at + 8))
    }
}

/// The decoder that opening at `at` gives: its first brush stands behind the
/// 32-bit length of the sample section, and the section ends that many bytes
/// later.
pub open spec fn opened(bytes: Seq<u8>, at: int, subversion: u16) -> Result<Gen6State, OpenError> {
    match sample_section(bytes, at) {
        Ok(len_at) => if len_at + 4 > bytes.len() {
            Err(OpenError::IoError(IoError::UnexpectedEof))
        } else {
            Ok(
                Gen6State {
                    bytes,
                    subversion,
                    end: len_at + 4 + be_u32_at(bytes, len_at),
                    next: len_at + 4,
                },
            )
        },
        Err(e) => Err(e),
    }
}

/// The first multiple of 4 that is not below `x`.
pub open spec fn align4(x: int) -> int {
    (x + 3) / 4 * 4
}

/// Where the record after the one at `at` begins: on the first 4-byte
/// boundary behind the 32-bit length at `at` and the bytes it counts.
pub open spec fn brush_length(bytes: Seq<u8>, at: int) -> Result<int, IoError> {
    if at + 4 > bytes.len() {
        Err(IoError::UnexpectedEof)
    } else {
        Ok(align4(at + 4 + be_u32_at(bytes, at)))
    }
}

/// How many bytes of a record body stand before the bounds.
pub open spec fn body_skip(subversion: u16) -> int {
    if subversion == 1 {
        47
    } else {
        301
    }
}

/// The brush whose record body begins at `at`: bytes that are passed over,
/// four 32-bit bounds (top, left, bottom, right), the 16-bit depth, the
/// compression flag and the pixel data.
pub open spec fn brush_body(bytes: Seq<u8>, at: int, subversion: u16) -> Result<
    BrushView,
    BrushError,
> {
    let f = at + body_skip(subversion);
    let top = be_u32_at(bytes, f);
    let left = be_u32_at(bytes, f + 4);
    let bottom = be_u32_at(bytes, f + 8);
    let right = be_u32_at(bytes, f + 12);
    let depth = be_u16_at(bytes, f + 16);
    if f + 18 > bytes.len() {
        Err(BrushError::IoError(IoError::UnexpectedEof))
    } else if depth != 8 {
        Err(BrushError::UnsupportedBitDepth { depth: depth as u16 })
    } else if f + 19 > bytes.len() {
        Err(BrushError::IoError(IoError::UnexpectedEof))
    } else if right < left || bottom < top {
        Err(BrushError::InvalidBounds)
    } else {
        match pixel_data(bytes, f + 19, bytes[f + 18] != 0, right - left, bottom - top) {
            Ok(pixels) => Ok(
                BrushView {
                    width: (right - left) as u32,
                    height: (bottom - top) as u32,
                    depth: 8,
                    data: pixels.data,
                },
            ),
            Err(e) => Err(e),
        }
    }
}

/// One call for the next brush: the state it leaves and what it returns.
///
/// An exhausted decoder stays as it is and returns nothing. Where the
/// record's length cannot be read the decoder jumps to the end of the section
/// and so becomes exhausted. Where it can, the next record's offset is settled
/// before the body is looked at, so that a body at fault costs that one brush
/// only.
pub open spec fn step(s: Gen6State) -> (Gen6State, Option<Result<BrushView, BrushError>>) {
    if s.next >= s.end {
        (s, None)
    } else {
        match brush_length(s.bytes, s.next) {
            Ok(next) => (
                Gen6State { next, ..s },
                Some(brush_body(s.bytes, s.next + 4, s.subversion)),
            ),
            Err(e) => (Gen6State { next: s.end, ..s }, Some(Err(BrushError::IoError(e)))),
        }
    }
}

/// Opens a decoder on `rdr`, whose cursor stands at the first resource block
/// of a library of sub-variant `subversion`.
pub fn open(rdr: ByteSource, subversion: u16) -> (r: Result<Abr6Decoder, OpenError>)
    ensures
        match opened(rdr.bytes(), rdr.position() as int, subversion) {
            Ok(s) => r is Ok && r->Ok_0@ == s,
            Err(e) => r is Err && r->Err_0 == e,
        },
{
    let ghost bytes = rdr.bytes();
    let ghost start = rdr.position() as int;
    let mut src = rdr;
    // Find the sample section.
    loop
        invariant_except_break
            sample_section(bytes, start) == sample_section(bytes, src.position() as int),
        invariant
            src.bytes() == bytes,
            bytes == rdr.bytes(),
            start == rdr.position(),
        ensures
            sample_section(bytes, start) == Ok::<int, OpenError>(src.position() as int),
        decreases
            (if src.position() <= bytes.len() {
                bytes.len() - src.position()
            } else {
                0
            }),
    {
        let buf = open_io(src.read_exact(4))?;
        if buf[0] == 0x38 && buf[1] == 0x62 && buf[2] == 0x69 && buf[3] == 0x6d {
            return Err(OpenError::Found8bim);
        }
        let buf = open_io(src.read_exact(4))?;
        if buf[0] == 0x73 && buf[1] == 0x61 && buf[2] == 0x6d && buf[3] == 0x70 {
            break;
        }
        let len = open_io(src.read_u32_be())?;
        proof {
            use_type_invariant(&src);
        }
        open_io(src.skip(len as u64))?;
    }
    let len = open_io(src.read_u32_be())? as u64;
    let cur = tell(&src);
    proof {
        use_type_invariant(&src);
    }
    Ok(Abr6Decoder { rdr: src, subversion, sample_section_end: cur + len, next_brush_pos: cur })
}

/// Decodes the next brush, or returns `None` once the decoder is exhausted.
pub fn next_brush(dec: &mut Abr6Decoder) -> (r: Option<Result<SampleBrush, BrushError>>)
    ensures
        final(dec)@ == step(old(dec)@).0,
        outcome_view(r) == step(old(dec)@).1,
        r matches Some(Ok(brush)) ==> brush@.wf(),
{
    // Is iteration over?
    if dec.next_brush_pos >= dec.sample_section_end {
        return None;
    }
    // Process the length; without it there is no resuming on the next brush,
    // so the iteration is flagged as over by moving to the end of the section.
    match process_brush_length(dec) {
        Ok(next_brush_pos) => {
            dec.next_brush_pos = next_brush_pos;
        },
        Err(e) => {
            dec.next_brush_pos = dec.sample_section_end;
            return Some(Err(BrushError::IoError(e)));
        },
    }

    Some(process_brush_body(dec))
}

/// Gets the reader prepped to begin reading out a brush. Returns the position
/// where the next brush starts.
fn process_brush_length(dec: &mut Abr6Decoder) -> (r: Result<u64, IoError>)
    ensures
        final(dec)@ == old(dec)@,
        match brush_length(old(dec)@.bytes, old(dec)@.next) {
            Ok(next) => r == Ok::<u64, IoError>(next as u64) && next <= u64::MAX
                && final(dec).rdr.position() == old(dec)@.next + 4,
            Err(e) => r == Err::<u64, IoError>(e),
        },
{
    let brush_pos = dec.next_brush_pos;
    dec.rdr.seek_to(brush_pos);

    let len = dec.rdr.read_u32_be()? as u64;
    proof {
        use_type_invariant(&dec.rdr);
    }
    // We are now at brush_pos + 4.
    let end_pos = (brush_pos + 4) + len;
    // Brushes are aligned to 4-byte boundaries; round up to get to one.
    let bumped = end_pos + 3;
    let next_brush_pos = bumped & !3;
    assert(bumped & !3 == bumped - bumped % 4) by (bit_vector);

    Ok(next_brush_pos)
}

/// With `dec` positioned by `process_brush_length`, reads out a brush.
fn process_brush_body(dec: &mut Abr6Decoder) -> (r: Result<SampleBrush, BrushError>)
    requires
        old(dec).rdr.position() <= old(dec).rdr.bytes().len(),
    ensures
        final(dec)@ == old(dec)@,
        match brush_body(old(dec)@.bytes, old(dec).rdr.position() as int, old(dec)@.subversion) {
            Ok(brush) => r is Ok && r->Ok_0@ == brush,
            Err(e) => r == Err::<SampleBrush, BrushError>(e),
        },
        r matches Ok(brush) ==> brush@.wf(),
{
    // Skip over what this decoder does not model.
    proof {
        use_type_invariant(&dec.rdr);
    }
    brush_io(dec.rdr.skip(if dec.subversion == 1 { 47 } else { 301 }))?;

    let top = brush_io(dec.rdr.read_u32_be())?;
    let left = brush_io(dec.rdr.read_u32_be())?;
    let bottom = brush_io(dec.rdr.read_u32_be())?;
    let right = brush_io(dec.rdr.read_u32_be())?;

    let depth = brush_io(dec.rdr.read_u16_be())?;
    if depth != 8 {
        return Err(BrushError::UnsupportedBitDepth { depth });
    }
    let compressed = brush_io(dec.rdr.read_u8())? != 0;

    if right < left || bottom < top {
        return Err(BrushError::InvalidBounds);
    }
    let width = right - left;
    let height = bottom - top;
    let data = read_pixel_data(&mut dec.rdr, compressed, width, height)?;

    Ok(SampleBrush { width, height, depth, data })
}

/// The state that `k` calls for the next brush leave.
pub open spec fn after(s: Gen6State, k: nat) -> Gen6State
    decreases k,
{
    if k == 0 {
        s
    } else {
        step(after(s, (k - 1) as nat)).0
    }
}

/// Whether each of the first `n` calls finds the decoder exhausted or can
/// read the length of the record it visits.
pub open spec fn lengths_readable(s: Gen6State, n: nat) -> bool {
    forall|k: nat|
        k < n && (#[trigger] after(s, k)).next < s.end ==> brush_length(
            s.bytes,
            after(s, k).next,
        ) is Ok
}

proof fn lemma_after_keeps(s: Gen6State, k: nat)
    ensures
        after(s, k).bytes == s.bytes,
        after(s, k).subversion == s.subversion,
        after(s, k).end == s.end,
    decreases k,
{
    if k > 0 {
        lemma_after_keeps(s, (k - 1) as nat);
    }
}

proof fn lemma_align4(x: int)
    ensures
        align4(x) % 4 == 0,
        x <= align4(x) < x + 4,
{
}

proof fn lemma_step_on_grid(s: Gen6State)
    requires
        s.next < s.end ==> brush_length(s.bytes, s.next) is Ok,
    ensures
        step(s).0.next == s.next || step(s).0.next % 4 == 0,
{
    if s.next < s.end {
        lemma_align4(s.next + 4 + be_u32_at(s.bytes, s.next));
    }
}

/// An exhausted decoder stays exhausted: every call leaves it as it is and
/// returns nothing.
pub proof fn law_exhaustion_is_final(s: Gen6State, k: nat)
    requires
        s.next >= s.end,
    ensures
        after(s, k) == s,
        step(after(s, k)).1 is None,
    decreases k,
{
    if k > 0 {
        law_exhaustion_is_final(s, (k - 1) as nat);
    }
}

/// A record whose length cannot be read yields an end of file and ends the
/// iteration: every later call finds the decoder exhausted.
pub proof fn law_unreadable_length_is_final(s: Gen6State, k: nat)
    requires
        s.next < s.end,
        brush_length(s.bytes, s.next) is Err,
        k >= 1,
    ensures
        step(s).1 == Some(
            Err::<BrushView, BrushError>(BrushError::IoError(IoError::UnexpectedEof)),
        ),
        after(s, k).next == s.end,
        step(after(s, k)).1 is None,
    decreases k,
{
    lemma_after_keeps(s, k);
    if k > 1 {
        law_unreadable_length_is_final(s, (k - 1) as nat);
        lemma_after_keeps(s, (k - 1) as nat);
    } else {
        assert(after(s, 0) == s);
    }
}

/// The offsets that successive calls visit never decrease, whatever the
/// records hold.
pub proof fn law_offsets_never_decrease(s: Gen6State, j: nat, k: nat)
    requires
        j <= k,
    ensures
        after(s, j).next <= after(s, k).next,
    decreases k,
{
    if j < k {
        law_offsets_never_decrease(s, j, (k - 1) as nat);
        lemma_after_keeps(s, (k - 1) as nat);
    }
}

/// Where the length of every record visited can be read, every offset that
/// the decoder moves on to is a multiple of 4: it leaves the offset it was
/// opened at for the 4-byte grid and stays on it.
pub proof fn law_offsets_on_grid(s: Gen6State, k: nat)
    requires
        lengths_readable(s, k),
    ensures
        after(s, k).next == s.next || after(s, k).next % 4 == 0,
    decreases k,
{
    if k > 0 {
        let before = after(s, (k - 1) as nat);
        assert(lengths_readable(s, (k - 1) as nat));
        law_offsets_on_grid(s, (k - 1) as nat);
        lemma_after_keeps(s, (k - 1) as nat);
        assert(before.next < before.end ==> brush_length(before.bytes, before.next) is Ok);
        lemma_step_on_grid(before);
    }
}

/// Where the sample section starts on a multiple of 4 and the length of
/// every record visited can be read, every offset visited lies a multiple of
/// 4 behind the start of the section.
pub proof fn law_offsets_aligned(s: Gen6State, k: nat)
    requires
        s.next % 4 == 0,
        lengths_readable(s, k),
    ensures
        (after(s, k).next - s.next) % 4 == 0,
{
    law_offsets_on_grid(s, k);
}

/// A record whose length can be read and whose fields are there as far as
/// the depth, but whose depth is not 8, yields the error that names the
/// depth, and costs one brush only: the decoder goes on to the record behind
/// it as it would after a brush it could decode.
pub proof fn law_unsupported_depth_is_local(s: Gen6State)
    requires
        0 <= s.next < s.end,
        s.next + 4 + body_skip(s.subversion) + 18 <= s.bytes.len(),
        be_u16_at(s.bytes, s.next + 4 + body_skip(s.subversion) + 16) != 8,
    ensures
        step(s).1 == Some(
            Err::<BrushView, BrushError>(
                BrushError::UnsupportedBitDepth {
                    depth: be_u16_at(s.bytes, s.next + 4 + body_skip(s.subversion) + 16) as u16,
                },
            ),
        ),
        step(s).0 == (Gen6State {
            next: align4(s.next + 4 + be_u32_at(s.bytes, s.next)),
            ..s
        }),
{
}

} // verus!
