//! The brush-library format: its two generations, their brush records and
//! their errors.

use vstd::prelude::*;

pub mod abr12;
pub mod abr6;
pub mod helper;
pub mod source;

use abr12::{Decoder, LegacyState};
use abr6::{Abr6Decoder, Gen6State};
use source::{be_u16_at, ByteSource, IoError};

verus! {

/// What a brush record holds, as mathematics: the view of both
/// [`ImageBrush`] and [`SampleBrush`].
pub struct BrushView {
    pub width: u32,
    pub height: u32,
    pub depth: u16,
    pub data: Seq<u8>,
}

impl BrushView {
    /// A brush holds one sample of `depth` bits for each pixel, row by row.
    pub open spec fn wf(self) -> bool {
        self.data.len() == self.width * self.height * (self.depth / 8)
    }
}

/// A brush of a legacy library.
#[derive(Clone, Debug, PartialEq, Eq)]
pub struct ImageBrush {
    pub width: u32,
    pub height: u32,
    pub depth: u16,
    pub data: Vec<u8>,
}

impl View for ImageBrush {
    type V = BrushView;

    open spec fn view(&self) -> BrushView {
        BrushView { width: self.width, height: self.height, depth: self.depth, data: self.data@ }
    }
}

/// A brush of the sample section of a generation-6 library.
#[derive(Clone, Debug, PartialEq, Eq)]
pub struct SampleBrush {
    pub width: u32,
    pub height: u32,
    pub depth: u16,
    pub data: Vec<u8>,
}

impl View for SampleBrush {
    type V = BrushView;

    open spec fn view(&self) -> BrushView {
        BrushView { width: self.width, height: self.height, depth: self.depth, data: self.data@ }
    }
}

/// Why one brush could not be decoded.
#[derive(Clone, Copy, Debug, PartialEq, Eq, Structural)]
pub enum BrushError {
    /// The source ended, or could not be navigated, inside the record.
    IoError(IoError),
    /// The record's type tag is not that of a raster sample.
    UnsupportedBrushType { ty: u16 },
    /// The record does not hold 8 bits per sample.
    UnsupportedBitDepth { depth: u16 },
    /// The record's right or bottom bound lies before its left or top one.
    InvalidBounds,
    /// The compressed pixel data is malformed or does not expand to as many
    /// bytes as the record's bounds call for.
    DecompressionSizeMismatch,
}

/// Why a decoder could not be opened.
#[derive(Clone, Copy, Debug, PartialEq, Eq, Structural)]
pub enum OpenError {
    /// The source ended, or could not be navigated, before the decoder had
    /// found its first record.
    IoError(IoError),
    /// A resource block signed `8bim` came before any sample section: the
    /// library holds no generation-6 brushes.
    Found8bim,
    /// The library's header names a version that is none of 1, 2 and 6.
    UnsupportedVersion { version: u16 },
}

/// What a call for the next brush gave, with the brush taken by its view.
pub open spec fn outcome_view<B: View<V = BrushView>>(r: Option<Result<B, BrushError>>) -> Option<
    Result<BrushView, BrushError>,
> {
    match r {
        Some(Ok(brush)) => Some(Ok(brush@)),
        Some(Err(e)) => Some(Err(e)),
        None => None,
    }
}

/// Turns the failure of a read inside a brush record into the brush's error.
pub fn brush_io<T>(r: Result<T, IoError>) -> (out: Result<T, BrushError>)
    ensures
        out == match r {
            Ok(v) => Ok::<T, BrushError>(v),
            Err(e) => Err(BrushError::IoError(e)),
        },
{
    match r {
        Ok(v) => Ok(v),
        Err(e) => Err(BrushError::IoError(e)),
    }
}

/// Turns the failure of a read made while opening into the opening's error.
pub fn open_io<T>(r: Result<T, IoError>) -> (out: Result<T, OpenError>)
    ensures
        out == match r {
            Ok(v) => Ok::<T, OpenError>(v),
            Err(e) => Err(OpenError::IoError(e)),
        },
{
    match r {
        Ok(v) => Ok(v),
        Err(e) => Err(OpenError::IoError(e)),
    }
}

/// The decoder that fits a library's header.
pub enum Opened {
    /// The library is of version 1 or 2.
    Legacy(Decoder),
    /// The library is of version 6.
    Generation6(Abr6Decoder),
}

/// An [`Opened`] as mathematics.
pub enum OpenedView {
    Legacy(LegacyState),
    Generation6(Gen6State),
}

impl View for Opened {
    type V = OpenedView;

    open spec fn view(&self) -> OpenedView {
        match self {
            Opened::Legacy(dec) => OpenedView::Legacy(dec@),
            Opened::Generation6(dec) => OpenedView::Generation6(dec@),
        }
    }
}

/// The decoder that the library whose header stands at `at` calls for.
///
/// The header is two 16-bit numbers. The first is the version. In versions 1
/// and 2 the second counts the brushes, which follow at once. In version 6
/// the second is the sub-variant, and the resource blocks follow.
pub open spec fn opened(bytes: Seq<u8>, at: int) -> Result<OpenedView, OpenError> {
    let version = be_u16_at(bytes, at);
    let second = be_u16_at(bytes, at + 2);
    if at + 2 > bytes.len() {
        Err(OpenError::IoError(IoError::UnexpectedEof))
    } else if version != 1 && version != 2 && version != 6 {
        Err(OpenError::UnsupportedVersion { version: version as u16 })
    } else if at + 4 > bytes.len() {
        Err(OpenError::IoError(IoError::UnexpectedEof))
    } else if version == 6 {
        match abr6::opened(bytes, at + 4, second as u16) {
            Ok(state) => Ok(OpenedView::Generation6(state)),
            Err(e) => Err(e),
        }
    } else {
        Ok(
            OpenedView::Legacy(
                LegacyState {
                    bytes,
                    version: version as u16,
                    remaining: second as nat,
                    next: at + 4,
                },
            ),
        )
    }
}

/// Reads the header of the library at the cursor of `rdr` and opens the
/// decoder it calls for.
pub fn open(rdr: ByteSource) -> (r: Result<Opened, OpenError>)
    ensures
        match opened(rdr.bytes(), rdr.position() as int) {
            Ok(state) => r is Ok && r->Ok_0@ == state,
            Err(e) => r is Err && r->Err_0 == e,
        },
{
    let mut src = rdr;
    let version = open_io(src.read_u16_be())?;
    if version != 1 && version != 2 && version != 6 {
        return Err(OpenError::UnsupportedVersion { version });
    }
    let second = open_io(src.read_u16_be())?;
    if version == 6 {
        match abr6::open(src, second) {
            Ok(dec) => Ok(Opened::Generation6(dec)),
            Err(e) => Err(e),
        }
    } else {
        match abr12::open(src, version, second) {
            Ok(dec) => Ok(Opened::Legacy(dec)),
            Err(e) => Err(e),
        }
    }
}

} // verus!
