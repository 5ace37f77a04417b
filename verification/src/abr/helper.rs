//! What the two decoders share: telling the position of a source, and the
//! run-length codec of compressed pixel data.
//!
//! Compressed pixel data is a table of big-endian 16-bit lengths, one for each
//! scanline, followed by the scanlines' packet streams in the same order. Each
//! stream is PackBits: a control byte below 128 announces that many bytes plus
//! one to copy, a control byte above 128 announces that the next byte is to be
//! repeated 257 minus that many times, and 128 itself does nothing.

use super::source::{be_u16, be_u16_at, ByteSource, IoError};
use super::BrushError;
use vstd::prelude::*;
use vstd::slice::slice_subrange;

verus! {

/// The expansion of the complete packet stream `s`, or `None` where its last
/// packet is cut short.
pub open spec fn unpack(s: Seq<u8>) -> Option<Seq<u8>>
    decreases s.len(),
{
    if s.len() == 0 {
        Some(Seq::empty())
    } else if s[0] < 128 {
        let n = s[0] + 1;
        if s.len() < 1 + n {
            None
        } else {
            prefixed(s.subrange(1, 1 + n), unpack(s.skip(1 + n)))
        }
    } else if s[0] == 128 {
        unpack(s.skip(1))
    } else if s.len() < 2 {
        None
    } else {
        prefixed(Seq::new((257 - s[0]) as nat, |i: int| s[1]), unpack(s.skip(2)))
    }
}

/// `head` put in front of `tail`, where there is a `tail`.
pub open spec fn prefixed(head: Seq<u8>, tail: Option<Seq<u8>>) -> Option<Seq<u8>> {
    match tail {
        Some(rest) => Some(head + rest),
        None => None,
    }
}

/// Pixel data, and the offset just past the bytes it was read from.
pub struct Unpacked {
    pub data: Seq<u8>,
    pub end: int,
}

/// `head` put in front of the data of `tail`, where `tail` is no error.
pub open spec fn prepend(head: Seq<u8>, tail: Result<Unpacked, BrushError>) -> Result<
    Unpacked,
    BrushError,
> {
    match tail {
        Ok(u) => Ok(Unpacked { data: head + u.data, end: u.end }),
        Err(e) => Err(e),
    }
}

/// The expansion of `rows` scanlines whose lengths stand in the table at
/// `table` and whose packet streams begin at `frame`, as long as it stays
/// within `room` bytes.
///
/// The scanlines are taken in order, and the first one at fault decides the
/// error: one that reaches beyond the last byte is an end of file, and one with
/// a packet cut short by its own length, or that expands beyond `room`, is a
/// size mismatch.
pub open spec fn unpack_rows(
    bytes: Seq<u8>,
    table: int,
    frame: int,
    rows: nat,
    room: int,
) -> Result<Unpacked, BrushError>
    decreases rows,
{
    if rows == 0 {
        Ok(Unpacked { data: Seq::empty(), end: frame })
    } else {
        let n = be_u16_at(bytes, table);
        if frame + n > bytes.len() {
            Err(BrushError::IoError(IoError::UnexpectedEof))
        } else {
            match unpack(bytes.subrange(frame, frame + n)) {
                Some(row) if row.len() <= room => prepend(
                    row,
                    unpack_rows(bytes, table + 2, frame + n, (rows - 1) as nat, room - row.len()),
                ),
                _ => Err(BrushError::DecompressionSizeMismatch),
            }
        }
    }
}

/// What reading `rows` compressed scanlines at `at` gives when `size` bytes
/// are expected: the expansion of all of them, if it has exactly that length.
pub open spec fn rle_data(bytes: Seq<u8>, at: int, rows: nat, size: int) -> Result<
    Unpacked,
    BrushError,
> {
    if at + 2 * rows > bytes.len() {
        Err(BrushError::IoError(IoError::UnexpectedEof))
    } else {
        match unpack_rows(bytes, at, at + 2 * rows, rows, size) {
            Ok(u) if u.data.len() == size => Ok(u),
            Ok(_) => Err(BrushError::DecompressionSizeMismatch),
            Err(e) => Err(e),
        }
    }
}

/// The pixel data of a brush of `width` by `height` 8-bit samples that begins
/// at `at`: the bytes as they stand, or their expansion where the record is
/// flagged as compressed, one scanline for each row.
pub open spec fn pixel_data(
    bytes: Seq<u8>,
    at: int,
    compressed: bool,
    width: int,
    height: int,
) -> Result<Unpacked, BrushError> {
    if compressed {
        rle_data(bytes, at, height as nat, width * height)
    } else if at + width * height > bytes.len() {
        Err(BrushError::IoError(IoError::UnexpectedEof))
    } else {
        Ok(Unpacked { data: bytes.subrange(at, at + width * height), end: at + width * height })
    }
}

proof fn lemma_prefixed_empty(tail: Option<Seq<u8>>)
    ensures
        prefixed(Seq::empty(), tail) == tail,
{
    if let Some(rest) = tail {
        assert(Seq::<u8>::empty() + rest =~= rest);
    }
}

proof fn lemma_prefixed_twice(a: Seq<u8>, b: Seq<u8>, tail: Option<Seq<u8>>)
    ensures
        prefixed(a, prefixed(b, tail)) == prefixed(a + b, tail),
{
    if let Some(rest) = tail {
        assert(a + (b + rest) =~= (a + b) + rest);
    }
}

proof fn lemma_prepend_empty(tail: Result<Unpacked, BrushError>)
    ensures
        prepend(Seq::empty(), tail) == tail,
{
    if let Ok(u) = tail {
        assert(Seq::<u8>::empty() + u.data =~= u.data);
    }
}

proof fn lemma_prepend_twice(a: Seq<u8>, b: Seq<u8>, tail: Result<Unpacked, BrushError>)
    ensures
        prepend(a, prepend(b, tail)) == prepend(a + b, tail),
{
    if let Ok(u) = tail {
        assert(a + (b + u.data) =~= (a + b) + u.data);
    }
}

/// The offset of the cursor of `src`.
pub fn tell(src: &ByteSource) -> (at: u64)
    ensures
        at == src.position(),
{
    src.tell()
}

/// Appends to `out` the expansion of the packet stream `bytes[start..end]`,
/// unless the stream is cut short or `out` would grow beyond `size` bytes.
/// What `out` held stays in front either way.
fn unpack_into(bytes: &[u8], start: usize, end: usize, out: &mut Vec<u8>, size: u64) -> (ok: bool)
    requires
        start <= end <= bytes@.len(),
        old(out)@.len() <= size,
    ensures
        match unpack(bytes@.subrange(start as int, end as int)) {
            Some(row) if old(out)@.len() + row.len() <= size => ok && final(out)@ == old(out)@
                + row,
            _ => !ok,
        },
        old(out)@.len() <= final(out)@.len() <= size,
        final(out)@.subrange(0, old(out)@.len() as int) == old(out)@,
{
    let ghost frame = bytes@.subrange(start as int, end as int);
    let ghost before = out@;
    let mut j = start;
    proof {
        assert(out@.skip(before.len() as int) =~= Seq::<u8>::empty());
        assert(bytes@.subrange(j as int, end as int) == frame);
        lemma_prefixed_empty(unpack(frame));
    }
    while j < end
        invariant
            start <= j <= end <= bytes@.len(),
            frame == bytes@.subrange(start as int, end as int),
            before == old(out)@,
            before.len() <= out@.len() <= size,
            out@.subrange(0, before.len() as int) == before,
            unpack(frame) == prefixed(
                out@.skip(before.len() as int),
                unpack(bytes@.subrange(j as int, end as int)),
            ),
        decreases end - j,
    {
        let control = bytes[j];
        let ghost rest = bytes@.subrange(j as int, end as int);
        let ghost done = out@.skip(before.len() as int);
        assert(rest[0] == control);
        if control < 128 {
            // A literal packet: the bytes behind the control byte, as they are.
            let n = control as usize + 1;
            if end - j - 1 < n {
                return false;
            }
            proof {
                assert(rest.skip(1 + n) =~= bytes@.subrange(j + 1 + n, end as int));
                assert(rest.subrange(1, 1 + n) =~= bytes@.subrange(j + 1, j + 1 + n));
            }
            if n as u64 > size - out.len() as u64 {
                return false;
            }
            let ghost so_far = out@;
            let mut k: usize = 0;
            while k < n
                invariant
                    k <= n,
                    j + 1 + n <= end <= bytes@.len(),
                    out@ == so_far + bytes@.subrange(j + 1, j + 1 + k),
                decreases n - k,
            {
                out.push(bytes[j + 1 + k]);
                k = k + 1;
                assert(out@ =~= so_far + bytes@.subrange(j + 1, j + 1 + k));
            }
            proof {
                let literal = bytes@.subrange(j + 1, j + 1 + n);
                assert(out@.skip(before.len() as int) =~= done + literal);
                assert(out@.subrange(0, before.len() as int) =~= before);
                lemma_prefixed_twice(done, literal, unpack(bytes@.subrange(j + 1 + n, end as int)));
            }
            j = j + 1 + n;
        } else if control == 128 {
            proof {
                assert(rest.skip(1) =~= bytes@.subrange(j + 1, end as int));
            }
            j = j + 1;
        } else {
            // A repeat packet: the byte behind the control byte, many times.
            if end - j < 2 {
                return false;
            }
            let n = 257 - control as usize;
            let byte = bytes[j + 1];
            proof {
                assert(rest.skip(2) =~= bytes@.subrange(j + 2, end as int));
                assert(rest[1] == byte);
            }
            if n as u64 > size - out.len() as u64 {
                return false;
            }
            let ghost so_far = out@;
            let mut k: usize = 0;
            while k < n
                invariant
                    k <= n,
                    out@ == so_far + Seq::new(k as nat, |i: int| byte),
                decreases n - k,
            {
                out.push(byte);
                k = k + 1;
                assert(out@ =~= so_far + Seq::new(k as nat, |i: int| byte));
            }
            proof {
                let run = Seq::new(n as nat, |i: int| byte);
                assert(run =~= Seq::new((257 - rest[0]) as nat, |i: int| rest[1]));
                assert(out@.skip(before.len() as int) =~= done + run);
                assert(out@.subrange(0, before.len() as int) =~= before);
                lemma_prefixed_twice(done, run, unpack(bytes@.subrange(j + 2, end as int)));
            }
            j = j + 2;
        }
    }
    proof {
        let done = out@.skip(before.len() as int);
        assert(bytes@.subrange(j as int, end as int) =~= Seq::<u8>::empty());
        assert(out@ =~= before + done);
        assert(done + Seq::<u8>::empty() =~= done);
    }
    true
}

/// Reads the compressed pixel data of `height` scanlines at the cursor of
/// `src` and expands it to `size` bytes.
///
/// On success the cursor stands just past the compressed data. On failure it
/// has not moved.
pub fn read_rle_data(src: &mut ByteSource, height: u32, size: u64) -> (r: Result<
    Vec<u8>,
    BrushError,
>)
    ensures
        final(src).bytes() == old(src).bytes(),
        match rle_data(old(src).bytes(), old(src).position() as int, height as nat, size as int) {
            Ok(u) => r is Ok && r->Ok_0@ == u.data && final(src).position() == u.end,
            Err(e) => r == Err::<Vec<u8>, BrushError>(e)
                && final(src).position() == old(src).position(),
        },
        r matches Ok(data) ==> data@.len() == size,
{
    let at = src.tell();
    let bytes = src.as_slice();
    let len = bytes.len();
    if at > len as u64 || (len as u64 - at) / 2 < height as u64 {
        return Err(BrushError::IoError(IoError::UnexpectedEof));
    }
    let table = at as usize;
    let rows = height as usize;
    let mut frame = table + 2 * rows;
    let mut out: Vec<u8> = Vec::new();
    let mut i: usize = 0;
    proof {
        lemma_prepend_empty(
            unpack_rows(bytes@, at as int, at + 2 * rows, rows as nat, size as int),
        );
    }
    while i < rows
        invariant
            i <= rows,
            rows == height,
            table == at,
            len == bytes@.len(),
            bytes@ == old(src).bytes(),
            at == old(src).position(),
            *src == *old(src),
            table + 2 * rows <= frame <= len,
            out@.len() <= size,
            unpack_rows(bytes@, at as int, at + 2 * rows, rows as nat, size as int) == prepend(
                out@,
                unpack_rows(bytes@, at + 2 * i, frame as int, (rows - i) as nat, size - out@.len()),
            ),
        decreases rows - i,
    {
        let entry = slice_subrange(bytes, table + 2 * i, table + 2 * i + 2);
        let n = be_u16(entry) as usize;
        assert(n == be_u16_at(bytes@, at + 2 * i));
        if len - frame < n {
            return Err(BrushError::IoError(IoError::UnexpectedEof));
        }
        let ghost before = out@;
        if !unpack_into(bytes, frame, frame + n, &mut out, size) {
            return Err(BrushError::DecompressionSizeMismatch);
        }
        proof {
            let row = unpack(bytes@.subrange(frame as int, frame + n))->Some_0;
            assert(out@ == before + row);
            lemma_prepend_twice(
                before,
                row,
                unpack_rows(
                    bytes@,
                    at + 2 * i + 2,
                    frame + n,
                    (rows - i - 1) as nat,
                    size - before.len() - row.len(),
                ),
            );
        }
        frame = frame + n;
        i = i + 1;
    }
    if out.len() as u64 != size {
        return Err(BrushError::DecompressionSizeMismatch);
    }
    proof {
        assert(out@ + Seq::<u8>::empty() =~= out@);
    }
    src.seek_to(frame as u64);
    Ok(out)
}

/// Reads at the cursor of `src` the pixel data of a brush of `width` by
/// `height` 8-bit samples.
///
/// On success the cursor stands just past the pixel data. On failure it has
/// not moved.
pub fn read_pixel_data(
    src: &mut ByteSource,
    compressed: bool,
    width: u32,
    height: u32,
) -> (r: Result<Vec<u8>, BrushError>)
    ensures
        final(src).bytes() == old(src).bytes(),
        match pixel_data(
            old(src).bytes(),
            old(src).position() as int,
            compressed,
            width as int,
            height as int,
        ) {
            Ok(u) => r is Ok && r->Ok_0@ == u.data && final(src).position() == u.end,
            Err(e) => r == Err::<Vec<u8>, BrushError>(e)
                && final(src).position() == old(src).position(),
        },
        r matches Ok(data) ==> data@.len() == width * height,
{
    assert(width * height <= u64::MAX) by (nonlinear_arith)
        requires
            width <= u32::MAX,
            height <= u32::MAX,
    ;
    let size = width as u64 * height as u64;
    if compressed {
        read_rle_data(src, height, size)
    } else {
        match src.read_exact(size) {
            Ok(data) => Ok(data),
            Err(e) => Err(BrushError::IoError(e)),
        }
    }
}

/// One packet of a PackBits stream, as a compressor chose it.
pub enum Packet {
    /// Bytes to copy as they are: at least 1, at most 128.
    Literal(Seq<u8>),
    /// How often to repeat a byte, from 2 to 128 times, and the byte.
    Repeat(nat, u8),
    /// The control byte that stands for nothing.
    Nop,
}

impl Packet {
    /// Whether the packet fits the one control byte it is written with.
    pub open spec fn wf(self) -> bool {
        match self {
            Packet::Literal(bytes) => 1 <= bytes.len() <= 128,
            Packet::Repeat(count, _) => 2 <= count <= 128,
            Packet::Nop => true,
        }
    }

    /// The packet as it is written: the control byte and what follows it.
    pub open spec fn encoded(self) -> Seq<u8> {
        match self {
            Packet::Literal(bytes) => seq![(bytes.len() - 1) as u8] + bytes,
            Packet::Repeat(count, byte) => seq![(257 - count) as u8, byte],
            Packet::Nop => seq![128u8],
        }
    }

    /// The bytes the packet stands for.
    pub open spec fn expanded(self) -> Seq<u8> {
        match self {
            Packet::Literal(bytes) => bytes,
            Packet::Repeat(count, byte) => Seq::new(count, |i: int| byte),
            Packet::Nop => Seq::empty(),
        }
    }
}

/// Whether every packet of `packets` is well formed.
pub open spec fn all_wf(packets: Seq<Packet>) -> bool {
    forall|i: int| 0 <= i < packets.len() ==> (#[trigger] packets[i]).wf()
}

/// The packet stream that `packets` are written as.
pub open spec fn encode(packets: Seq<Packet>) -> Seq<u8>
    decreases packets.len(),
{
    if packets.len() == 0 {
        Seq::empty()
    } else {
        packets.first().encoded() + encode(packets.drop_first())
    }
}

/// The bytes that `packets` stand for.
pub open spec fn expand(packets: Seq<Packet>) -> Seq<u8>
    decreases packets.len(),
{
    if packets.len() == 0 {
        Seq::empty()
    } else {
        packets.first().expanded() + expand(packets.drop_first())
    }
}

/// The two bytes that hold `n` as a big-endian 16-bit number.
pub open spec fn be_u16_bytes(n: int) -> Seq<u8> {
    seq![(n / 0x100) as u8, (n % 0x100) as u8]
}

/// The table of the lengths of the packet streams of the scanlines `rows`.
pub open spec fn length_table(rows: Seq<Seq<Packet>>) -> Seq<u8>
    decreases rows.len(),
{
    if rows.len() == 0 {
        Seq::empty()
    } else {
        be_u16_bytes(encode(rows.first()).len() as int) + length_table(rows.drop_first())
    }
}

/// The packet streams of the scanlines `rows`, one behind the other.
pub open spec fn streams(rows: Seq<Seq<Packet>>) -> Seq<u8>
    decreases rows.len(),
{
    if rows.len() == 0 {
        Seq::empty()
    } else {
        encode(rows.first()) + streams(rows.drop_first())
    }
}

/// The compressed pixel data that the scanlines `rows` are written as.
pub open spec fn compressed(rows: Seq<Seq<Packet>>) -> Seq<u8> {
    length_table(rows) + streams(rows)
}

/// The pixel data that the scanlines `rows` stand for.
pub open spec fn expansion(rows: Seq<Seq<Packet>>) -> Seq<u8>
    decreases rows.len(),
{
    if rows.len() == 0 {
        Seq::empty()
    } else {
        expand(rows.first()) + expansion(rows.drop_first())
    }
}

/// Whether each scanline of `rows` is made of well-formed packets and has a
/// packet stream short enough for its length to fit in 16 bits.
pub open spec fn rows_wf(rows: Seq<Seq<Packet>>) -> bool {
    forall|i: int|
        0 <= i < rows.len() ==> all_wf(#[trigger] rows[i]) && encode(rows[i]).len() <= 0xffff
}

/// Unpacking what well-formed packets are written as gives what they stand
/// for.
pub proof fn lemma_unpack_encode(packets: Seq<Packet>)
    requires
        all_wf(packets),
    ensures
        unpack(encode(packets)) == Some(expand(packets)),
    decreases packets.len(),
{
    if packets.len() > 0 {
        let head = packets.first();
        let tail = packets.drop_first();
        let s = encode(packets);
        assert(head.wf());
        assert(all_wf(tail)) by {
            assert forall|i: int| 0 <= i < tail.len() implies (#[trigger] tail[i]).wf() by {
                assert(tail[i] == packets[i + 1]);
            }
        }
        lemma_unpack_encode(tail);
        assert(s == head.encoded() + encode(tail));
        match head {
            Packet::Literal(bytes) => {
                assert(s[0] == (bytes.len() - 1) as u8);
                assert(s.skip(1 + bytes.len() as int) =~= encode(tail));
                assert(s.subrange(1, 1 + bytes.len() as int) =~= bytes);
            },
            Packet::Repeat(count, byte) => {
                assert(s[0] == (257 - count) as u8);
                assert(s[1] == byte);
                assert(s.skip(2) =~= encode(tail));
                assert(Seq::new((257 - s[0]) as nat, |i: int| s[1]) =~= Seq::new(
                    count,
                    |i: int| byte,
                ));
            },
            Packet::Nop => {
                assert(s[0] == 128);
                assert(s.skip(1) =~= encode(tail));
                assert(Seq::<u8>::empty() + expand(tail) =~= expand(tail));
            },
        }
    }
}

proof fn lemma_length_table_len(rows: Seq<Seq<Packet>>)
    ensures
        length_table(rows).len() == 2 * rows.len(),
    decreases rows.len(),
{
    if rows.len() > 0 {
        lemma_length_table_len(rows.drop_first());
    }
}

proof fn lemma_unpack_rows_of(
    bytes: Seq<u8>,
    table: int,
    frame: int,
    rows: Seq<Seq<Packet>>,
    room: int,
)
    requires
        rows_wf(rows),
        0 <= table,
        table + length_table(rows).len() <= bytes.len(),
        bytes.subrange(table, table + length_table(rows).len()) == length_table(rows),
        0 <= frame,
        frame + streams(rows).len() <= bytes.len(),
        bytes.subrange(frame, frame + streams(rows).len()) == streams(rows),
        expansion(rows).len() <= room,
    ensures
        unpack_rows(bytes, table, frame, rows.len(), room) == Ok::<Unpacked, BrushError>(
            Unpacked { data: expansion(rows), end: frame + streams(rows).len() },
        ),
    decreases rows.len(),
{
    if rows.len() > 0 {
        let head = rows.first();
        let tail = rows.drop_first();
        let n = encode(head).len() as int;
        let row = expand(head);
        assert(all_wf(head) && n <= 0xffff);
        assert(rows_wf(tail)) by {
            assert forall|i: int| 0 <= i < tail.len() implies all_wf(#[trigger] tail[i]) && encode(
                tail[i],
            ).len() <= 0xffff by {
                assert(tail[i] == rows[i + 1]);
            }
        }
        let whole_table = length_table(rows);
        let whole_streams = streams(rows);
        lemma_length_table_len(rows);
        lemma_length_table_len(tail);
        assert(whole_table == be_u16_bytes(n) + length_table(tail));
        assert(whole_streams == encode(head) + streams(tail));
        assert(be_u16_at(bytes, table) == n) by {
            let window = bytes.subrange(table, table + whole_table.len());
            assert(bytes[table] == window[0]);
            assert(bytes[table + 1] == window[1]);
            assert(window[0] == be_u16_bytes(n)[0]);
            assert(window[1] == be_u16_bytes(n)[1]);
        }
        assert(bytes.subrange(table + 2, table + 2 + length_table(tail).len()) =~= length_table(
            tail,
        )) by {
            let window = bytes.subrange(table, table + whole_table.len());
            assert forall|i: int| 0 <= i < length_table(tail).len() implies bytes[table + 2 + i]
                == length_table(tail)[i] by {
                assert(bytes[table + 2 + i] == window[2 + i]);
                assert(whole_table[2 + i] == length_table(tail)[i]);
            }
        }
        assert(bytes.subrange(frame, frame + n) =~= encode(head)) by {
            let window = bytes.subrange(frame, frame + whole_streams.len());
            assert forall|i: int| 0 <= i < n implies bytes[frame + i] == encode(head)[i] by {
                assert(bytes[frame + i] == window[i]);
                assert(whole_streams[i] == encode(head)[i]);
            }
        }
        assert(bytes.subrange(frame + n, frame + n + streams(tail).len()) =~= streams(tail)) by {
            let window = bytes.subrange(frame, frame + whole_streams.len());
            assert forall|i: int| 0 <= i < streams(tail).len() implies bytes[frame + n + i]
                == streams(tail)[i] by {
                assert(bytes[frame + n + i] == window[n + i]);
                assert(whole_streams[n + i] == streams(tail)[i]);
            }
        }
        lemma_unpack_encode(head);
        assert(expansion(rows) == row + expansion(tail));
        lemma_unpack_rows_of(bytes, table + 2, frame + n, tail, room - row.len());
        assert(tail.len() == rows.len() - 1);
    }
}

/// The round trip: scanlines that a PackBits compressor wrote, whatever
/// packets it chose for them and however long each scanline is, are read
/// back as the bytes they stand for, when as many bytes are asked for as they
/// stand for. The cursor is left just behind the compressed data.
pub proof fn law_round_trip(bytes: Seq<u8>, at: int, rows: Seq<Seq<Packet>>)
    requires
        rows_wf(rows),
        0 <= at,
        at + compressed(rows).len() <= bytes.len(),
        bytes.subrange(at, at + compressed(rows).len()) == compressed(rows),
    ensures
        rle_data(bytes, at, rows.len(), expansion(rows).len() as int) == Ok::<
            Unpacked,
            BrushError,
        >(Unpacked { data: expansion(rows), end: at + compressed(rows).len() }),
{
    let table = length_table(rows);
    let packed = streams(rows);
    let window = bytes.subrange(at, at + compressed(rows).len());
    lemma_length_table_len(rows);
    assert(bytes.subrange(at, at + table.len()) =~= table) by {
        assert forall|i: int| 0 <= i < table.len() implies bytes[at + i] == table[i] by {
            assert(bytes[at + i] == window[i]);
        }
    }
    assert(bytes.subrange(at + table.len(), at + table.len() + packed.len()) =~= packed) by {
        assert forall|i: int| 0 <= i < packed.len() implies bytes[at + table.len() + i]
            == packed[i] by {
            assert(bytes[at + table.len() + i] == window[table.len() + i]);
        }
    }
    lemma_unpack_rows_of(bytes, at, at + 2 * rows.len(), rows, expansion(rows).len() as int);
}

/// The literal packets that hold `raw` in pieces of up to 128 bytes: the
/// plainest way to write a scanline.
pub open spec fn literals(raw: Seq<u8>) -> Seq<Packet>
    decreases raw.len(),
{
    if raw.len() == 0 {
        Seq::empty()
    } else if raw.len() <= 128 {
        seq![Packet::Literal(raw)]
    } else {
        seq![Packet::Literal(raw.take(128))] + literals(raw.skip(128))
    }
}

/// Every byte sequence can be written as well-formed packets that stand for
/// it, at the price of one control byte for each 128 bytes or part of them. So
/// the round trip holds of every scanline of up to 65027 bytes.
pub proof fn law_every_scanline_can_be_packed(raw: Seq<u8>)
    ensures
        all_wf(literals(raw)),
        expand(literals(raw)) == raw,
        encode(literals(raw)).len() == raw.len() + (raw.len() + 127) / 128,
    decreases raw.len(),
{
    let packets = literals(raw);
    if raw.len() == 0 {
        assert(expand(packets) =~= raw);
    } else if raw.len() <= 128 {
        assert(packets.first() == Packet::Literal(raw));
        assert(packets.drop_first().len() == 0);
        assert(expand(packets) == raw + expand(packets.drop_first()));
        assert(expand(packets) =~= raw);
        assert(encode(packets) == packets.first().encoded() + encode(packets.drop_first()));
        assert(encode(packets) =~= seq![(raw.len() - 1) as u8] + raw);
    } else {
        let head = Packet::Literal(raw.take(128));
        let tail = literals(raw.skip(128));
        law_every_scanline_can_be_packed(raw.skip(128));
        assert(packets.first() == head);
        assert(packets.drop_first() =~= tail);
        assert forall|i: int| 0 <= i < packets.len() implies (#[trigger] packets[i]).wf() by {
            if i > 0 {
                assert(packets[i] == tail[i - 1]);
            }
        }
        assert(expand(packets) =~= raw.take(128) + raw.skip(128));
        assert(raw.take(128) + raw.skip(128) =~= raw);
        assert(encode(packets) == head.encoded() + encode(tail));
    }
}

proof fn lemma_room(bytes: Seq<u8>, table: int, frame: int, rows: nat, room: int, other: int)
    requires
        unpack_rows(bytes, table, frame, rows, room) is Ok,
    ensures
        unpack_rows(bytes, table, frame, rows, other) == if rows == 0 || unpack_rows(
            bytes,
            table,
            frame,
            rows,
            room,
        )->Ok_0.data.len() <= other {
            unpack_rows(bytes, table, frame, rows, room)
        } else {
            Err(BrushError::DecompressionSizeMismatch)
        },
    decreases rows,
{
    if rows > 0 {
        let n = be_u16_at(bytes, table);
        let row = unpack(bytes.subrange(frame, frame + n))->Some_0;
        lemma_room(
            bytes,
            table + 2,
            frame + n,
            (rows - 1) as nat,
            room - row.len(),
            other - row.len(),
        );
    }
}

/// Compressed data expands to one size only: where it is read back in full
/// when `size` bytes are asked for, asking for fewer or for more is a size
/// mismatch, never a shorter, a longer or a padded buffer.
pub proof fn law_expands_to_one_size(bytes: Seq<u8>, at: int, rows: nat, size: int, other: int)
    requires
        rle_data(bytes, at, rows, size) is Ok,
        other != size,
    ensures
        rle_data(bytes, at, rows, other) == Err::<Unpacked, BrushError>(
            BrushError::DecompressionSizeMismatch,
        ),
{
    lemma_room(bytes, at, at + 2 * rows, rows, size, other);
}

} // verus!
