//! The decoder of legacy libraries, versions 1 and 2: a fixed count of
//! brushes stored back to back, each behind a 16-bit length.

use super::helper::{pixel_data, read_pixel_data, tell};
use super::source::{be_u16_at, be_u32_at, ByteSource, IoError};
use super::{brush_io, outcome_view, BrushError, BrushView, ImageBrush, OpenError};
use vstd::prelude::*;

verus! {

/// A legacy decoder as mathematics: the bytes it reads, the version of their
/// layout, how many brushes are still to come and where the next one begins.
/// It is exhausted once `remaining` is zero.
pub struct LegacyState {
    pub bytes: Seq<u8>,
    pub version: u16,
    pub remaining: nat,
    pub next: int,
}

/// The decoder of a legacy library.
pub struct Decoder {
    rdr: ByteSource,
    version: u16,
    count: u16,
    next_brush_pos: u64,
}

impl View for Decoder {
    type V = LegacyState;

    closed spec fn view(&self) -> LegacyState {
        LegacyState {
            bytes: self.rdr.bytes(),
            version: self.version,
            remaining: self.count as nat,
            next: self.next_brush_pos as int,
        }
    }
}

/// Where the record after the one at `at` begins: behind the 16-bit length at
/// `at` and the bytes it counts.
pub open spec fn brush_head(bytes: Seq<u8>, at: int) -> Result<int, IoError> {
    if at + 2 > bytes.len() {
        Err(IoError::UnexpectedEof)
    } else {
        Ok(at + 2 + be_u16_at(bytes, at))
    }
}

/// Where the fields of the record body at `at` begin: behind the type tag
/// and six bytes that are passed over and, in version 2, behind a name of as
/// many 16-bit characters as the 32-bit number before it says.
pub open spec fn fields_offset(bytes: Seq<u8>, at: int, version: u16) -> int {
    if version == 2 {
        at + 12 + 2 * be_u32_at(bytes, at + 8)
    } else {
        at + 8
    }
}

/// The brush whose fields begin at `at`: the anti-aliasing flag, four 16-bit
/// bounds (top, left, bottom, right), the same bounds again as four 32-bit
/// numbers that are passed over, the 16-bit depth, which must be 8, the
/// compression flag and the pixel data.
pub open spec fn brush_fields(bytes: Seq<u8>, at: int) -> Result<BrushView, BrushError> {
    let top = be_u16_at(bytes, at + 1);
    let left = be_u16_at(bytes, at + 3);
    let bottom = be_u16_at(bytes, at + 5);
    let right = be_u16_at(bytes, at + 7);
    let depth = be_u16_at(bytes, at + 25);
    if at + 27 > bytes.len() {
        Err(BrushError::IoError(IoError::UnexpectedEof))
    } else if depth != 8 {
        Err(BrushError::UnsupportedBitDepth { depth: depth as u16 })
    } else if at + 28 > bytes.len() {
        Err(BrushError::IoError(IoError::UnexpectedEof))
    } else if right < left || bottom < top {
        Err(BrushError::InvalidBounds)
    } else {
        match pixel_data(bytes, at + 28, bytes[at + 27] != 0, right - left, bottom - top) {
            Ok(pixels) => Ok(
                BrushView {
                    width: (right - left) as u32,
                    height: (bottom - top) as u32,
                    depth: 8,
                    data: pixels.data,
                },
            ),
            Err(e) => Err(e),
        }
    }
}

/// The brush whose record body begins at `at`: a 16-bit type tag, which must
/// be 2, then what [`fields_offset`] passes over, then the fields of
/// [`brush_fields`].
pub open spec fn brush_body(bytes: Seq<u8>, at: int, version: u16) -> Result<
    BrushView,
    BrushError,
> {
    if at + 2 > bytes.len() {
        Err(BrushError::IoError(IoError::UnexpectedEof))
    } else if be_u16_at(bytes, at) != 2 {
        Err(BrushError::UnsupportedBrushType { ty: be_u16_at(bytes, at) as u16 })
    } else if at + 8 > bytes.len() || (version == 2 && at + 12 > bytes.len()) {
        Err(BrushError::IoError(IoError::UnexpectedEof))
    } else {
        brush_fields(bytes, fields_offset(bytes, at, version))
    }
}

/// One call for the next brush: the state it leaves and what it returns.
///
/// An exhausted decoder stays as it is and returns nothing. Otherwise one
/// brush fewer remains. Where the record's length cannot be read the decoder
/// becomes exhausted, for there is no telling where the next record begins.
/// Where it can, the next record's offset is settled before the body is
/// looked at, so that a body at fault costs that one brush only.
pub open spec fn step(s: LegacyState) -> (LegacyState, Option<Result<BrushView, BrushError>>) {
    if s.remaining == 0 {
        (s, None)
    } else {
        match brush_head(s.bytes, s.next) {
            Ok(next) => (
                LegacyState { remaining: (s.remaining - 1) as nat, next, ..s },
                Some(brush_body(s.bytes, s.next + 2, s.version)),
            ),
            Err(e) => (LegacyState { remaining: 0, ..s }, Some(Err(BrushError::IoError(e)))),
        }
    }
}

/// The state that `k` calls for the next brush leave.
pub open spec fn after(s: LegacyState, k: nat) -> LegacyState
    decreases k,
{
    if k == 0 {
        s
    } else {
        step(after(s, (k - 1) as nat)).0
    }
}

/// Whether the length of each of the records that `s` still declares can be
/// read where the lengths before it say that it stands.
pub open spec fn lengths_readable(s: LegacyState) -> bool {
    forall|k: nat| k < s.remaining ==> brush_head(s.bytes, #[trigger] after(s, k).next) is Ok
}

/// Opens a decoder on `rdr`, whose cursor stands at the first of `count`
/// brush records laid out as `version` has them.
pub fn open(rdr: ByteSource, version: u16, count: u16) -> (r: Result<Decoder, OpenError>)
    ensures
        r matches Ok(dec) && dec@ == (LegacyState {
            bytes: rdr.bytes(),
            version,
            remaining: count as nat,
            next: rdr.position() as int,
        }),
{
    let cur_pos = tell(&rdr);
    Ok(Decoder { rdr, version, count, next_brush_pos: cur_pos })
}

/// Decodes the next brush, or returns `None` once the decoder is exhausted.
pub fn next_brush(dec: &mut Decoder) -> (r: Option<Result<ImageBrush, BrushError>>)
    ensures
        final(dec)@ == step(old(dec)@).0,
        outcome_view(r) == step(old(dec)@).1,
        r matches Some(Ok(brush)) ==> brush@.wf(),
{
    if dec.count == 0 {
        return None;
    }
    dec.count = dec.count - 1;

    Some(
        match do_brush_head(dec) {
            Ok(res) => {
                dec.next_brush_pos = res.next_brush_pos;
                do_brush_body(dec)
            },
            Err(e) => {
                // Without the next brush's position there is no resuming on
                // the next brush: the iteration is over.
                dec.count = 0;
                Err(BrushError::IoError(e))
            },
        },
    )
}

struct BrushHeadResult {
    next_brush_pos: u64,
}

/// Moves `dec` into position to read out the next brush with `do_brush_body`.
/// Returns where the brush after this one is located.
fn do_brush_head(dec: &mut Decoder) -> (r: Result<BrushHeadResult, IoError>)
    ensures
        final(dec)@ == old(dec)@,
        match brush_head(old(dec)@.bytes, old(dec)@.next) {
            Ok(next) => r is Ok && r->Ok_0.next_brush_pos == next && final(dec).rdr.position()
                == old(dec)@.next + 2,
            Err(e) => r == Err::<BrushHeadResult, IoError>(e),
        },
{
    let brush_pos = dec.next_brush_pos;
    dec.rdr.seek_to(brush_pos);

    let len = dec.rdr.read_u16_be()? as u64;
    proof {
        use_type_invariant(&dec.rdr);
    }
    // We are now at brush_pos + 2.
    let next_brush_pos = (brush_pos + 2) + len;

    Ok(BrushHeadResult { next_brush_pos })
}

/// With `dec` positioned by `do_brush_head`, reads out a brush.
fn do_brush_body(dec: &mut Decoder) -> (r: Result<ImageBrush, BrushError>)
    ensures
        final(dec)@ == old(dec)@,
        match brush_body(old(dec)@.bytes, old(dec).rdr.position() as int, old(dec)@.version) {
            Ok(brush) => r is Ok && r->Ok_0@ == brush,
            Err(e) => r == Err::<ImageBrush, BrushError>(e),
        },
        r matches Ok(brush) ==> brush@.wf(),
{
    let ty = brush_io(dec.rdr.read_u16_be())?;
    if ty != 2 {
        return Err(BrushError::UnsupportedBrushType { ty });
    }
    let _misc = brush_io(dec.rdr.read_u32_be())?;
    let _spacing = brush_io(dec.rdr.read_u16_be())?;

    if dec.version == 2 {
        // Skip over a length-prefixed UCS2 string.
        let len = brush_io(dec.rdr.read_u32_be())? as u64;
        let len_in_bytes = 2 * len;
        proof {
            use_type_invariant(&dec.rdr);
        }
        brush_io(dec.rdr.skip(len_in_bytes))?;
    }
    let _antialiasing = brush_io(dec.rdr.read_u8())?;

    let top = brush_io(dec.rdr.read_u16_be())?;
    let left = brush_io(dec.rdr.read_u16_be())?;
    let bottom = brush_io(dec.rdr.read_u16_be())?;
    let right = brush_io(dec.rdr.read_u16_be())?;

    let _topl = brush_io(dec.rdr.read_u32_be())?;
    let _leftl = brush_io(dec.rdr.read_u32_be())?;
    let _bottoml = brush_io(dec.rdr.read_u32_be())?;
    let _rightl = brush_io(dec.rdr.read_u32_be())?;

    let depth = brush_io(dec.rdr.read_u16_be())?;
    if depth != 8 {
        return Err(BrushError::UnsupportedBitDepth { depth });
    }
    let compressed = brush_io(dec.rdr.read_u8())? != 0;

    if right < left || bottom < top {
        return Err(BrushError::InvalidBounds);
    }
    let width = (right - left) as u32;
    let height = (bottom - top) as u32;
    let data = read_pixel_data(&mut dec.rdr, compressed, width, height)?;

    Ok(ImageBrush { width, height, depth, data })
}

proof fn lemma_after_counts_down(s: LegacyState, k: nat)
    requires
        lengths_readable(s),
        k <= s.remaining,
    ensures
        after(s, k).remaining == s.remaining - k,
        after(s, k).bytes == s.bytes,
        after(s, k).version == s.version,
    decreases k,
{
    if k > 0 {
        lemma_after_counts_down(s, (k - 1) as nat);
        assert(brush_head(s.bytes, after(s, (k - 1) as nat).next) is Ok);
    }
}

proof fn lemma_after_bounded(s: LegacyState, k: nat)
    ensures
        after(s, k).remaining + k <= s.remaining || after(s, k).remaining == 0,
    decreases k,
{
    if k > 0 {
        lemma_after_bounded(s, (k - 1) as nat);
    }
}

/// Whatever the records hold, a decoder opened for `remaining` brushes
/// answers at most that many calls with a brush or an error: every later call
/// finds it exhausted.
pub proof fn law_at_most_declared_count(s: LegacyState, k: nat)
    requires
        k >= s.remaining,
    ensures
        after(s, k).remaining == 0,
        step(after(s, k)).1 is None,
{
    lemma_after_bounded(s, k);
}

/// Where the lengths of all the declared records can be read, each of the
/// first `remaining` calls returns a brush or that brush's error, whatever is
/// wrong with the bodies, and the call after them finds the decoder
/// exhausted.
pub proof fn law_exactly_declared_count(s: LegacyState, k: nat)
    requires
        lengths_readable(s),
    ensures
        k < s.remaining ==> step(after(s, k)).1 is Some,
        k == s.remaining ==> step(after(s, k)).1 is None,
{
    if k <= s.remaining {
        lemma_after_counts_down(s, k);
    }
}

/// A record whose length cannot be read yields an end of file and ends the
/// iteration: every later call finds the decoder exhausted.
pub proof fn law_unreadable_length_is_final(s: LegacyState, k: nat)
    requires
        s.remaining > 0,
        brush_head(s.bytes, s.next) is Err,
        k >= 1,
    ensures
        step(s).1 == Some(
            Err::<BrushView, BrushError>(BrushError::IoError(IoError::UnexpectedEof)),
        ),
        after(s, k).remaining == 0,
        step(after(s, k)).1 is None,
    decreases k,
{
    if k > 1 {
        law_unreadable_length_is_final(s, (k - 1) as nat);
    } else {
        assert(after(s, 0) == s);
    }
}

/// A record whose length can be read and whose type tag is not 2 yields the
/// error that names the tag, and costs one brush only: the decoder goes on to
/// the record behind it as it would after a brush it could decode.
pub proof fn law_unsupported_type_is_local(s: LegacyState)
    requires
        s.remaining > 0,
        0 <= s.next,
        s.next + 4 <= s.bytes.len(),
        be_u16_at(s.bytes, s.next + 2) != 2,
    ensures
        step(s).1 == Some(
            Err::<BrushView, BrushError>(
                BrushError::UnsupportedBrushType { ty: be_u16_at(s.bytes, s.next + 2) as u16 },
            ),
        ),
        step(s).0 == (LegacyState {
            remaining: (s.remaining - 1) as nat,
            next: s.next + 2 + be_u16_at(s.bytes, s.next),
            ..s
        }),
{
}

/// A record whose length can be read, whose type tag is 2 and whose fields
/// are there as far as the depth, but whose depth is not 8, yields the error
/// that names the depth, and costs one brush only.
pub proof fn law_unsupported_depth_is_local(s: LegacyState)
    requires
        s.remaining > 0,
        0 <= s.next,
        s.next + 10 <= s.bytes.len(),
        s.version == 2 ==> s.next + 14 <= s.bytes.len(),
        be_u16_at(s.bytes, s.next + 2) == 2,
        fields_offset(s.bytes, s.next + 2, s.version) + 27 <= s.bytes.len(),
        be_u16_at(s.bytes, fields_offset(s.bytes, s.next + 2, s.version) + 25) != 8,
    ensures
        step(s).1 == Some(
            Err::<BrushView, BrushError>(
                BrushError::UnsupportedBitDepth {
                    depth: be_u16_at(
                        s.bytes,
                        fields_offset(s.bytes, s.next + 2, s.version) + 25,
                    ) as u16,
                },
            ),
        ),
        step(s).0 == (LegacyState {
            remaining: (s.remaining - 1) as nat,
            next: s.next + 2 + be_u16_at(s.bytes, s.next),
            ..s
        }),
{
}

} // verus!
