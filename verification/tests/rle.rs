use abr2png::abr::helper::{read_pixel_data, read_rle_data};
use abr2png::abr::source::{ByteSource, IoError};
use abr2png::abr::BrushError;

/// A plain PackBits compressor: runs of two or more equal bytes become
/// repeat packets, everything else literal packets.
fn pack_bits(raw: &[u8]) -> Vec<u8> {
    let mut out = Vec::new();
    let mut i = 0;
    while i < raw.len() {
        let mut run = 1;
        while i + run < raw.len() && raw[i + run] == raw[i] && run < 128 {
            run += 1;
        }
        if run >= 2 {
            out.push((257 - run) as u8);
            out.push(raw[i]);
            i += run;
        } else {
            let start = i;
            i += 1;
            while i < raw.len() && i - start < 128 && !(i + 1 < raw.len() && raw[i] == raw[i + 1]) {
                i += 1;
            }
            out.push((i - start - 1) as u8);
            out.extend_from_slice(&raw[start..i]);
        }
    }
    out
}

/// The compressed form of `raw` cut into scanlines of the given lengths.
fn compress(raw: &[u8], scanlines: &[usize]) -> Vec<u8> {
    let mut table = Vec::new();
    let mut streams = Vec::new();
    let mut at = 0;
    for &n in scanlines {
        let packed = pack_bits(&raw[at..at + n]);
        table.push((packed.len() >> 8) as u8);
        table.push((packed.len() & 0xff) as u8);
        streams.extend_from_slice(&packed);
        at += n;
    }
    assert_eq!(at, raw.len());
    table.extend_from_slice(&streams);
    table
}

fn round_trip(raw: &[u8], scanlines: &[usize]) {
    let packed = compress(raw, scanlines);
    let packed_len = packed.len() as u64;
    let mut src = ByteSource::new(packed);
    let got = read_rle_data(&mut src, scanlines.len() as u32, raw.len() as u64);
    assert_eq!(got, Ok(raw.to_vec()));
    assert_eq!(src.tell(), packed_len);
}

fn sample(n: usize) -> Vec<u8> {
    let mut raw = Vec::new();
    let mut x: u32 = 12345;
    for i in 0..n {
        x = x.wrapping_mul(1103515245).wrapping_add(12345);
        let noisy = (x >> 16) as u8;
        raw.push(if (i / 7) % 3 == 0 { 0x55 } else { noisy });
    }
    raw
}

#[test]
fn literal_packet_copies_control_plus_one_bytes() {
    let mut src = ByteSource::new(vec![0, 4, 2, 10, 20, 30]);
    assert_eq!(read_rle_data(&mut src, 1, 3), Ok(vec![10, 20, 30]));
    assert_eq!(src.tell(), 6);
}

#[test]
fn repeat_packet_repeats_257_minus_control_times() {
    let mut src = ByteSource::new(vec![0, 2, 0xfe, 7]);
    assert_eq!(read_rle_data(&mut src, 1, 3), Ok(vec![7, 7, 7]));
    let mut src = ByteSource::new(vec![0, 2, 0xff, 9]);
    assert_eq!(read_rle_data(&mut src, 1, 2), Ok(vec![9, 9]));
    let mut src = ByteSource::new(vec![0, 2, 0x81, 1]);
    assert_eq!(read_rle_data(&mut src, 1, 128), Ok(vec![1; 128]));
}

#[test]
fn control_byte_128_does_nothing() {
    let mut src = ByteSource::new(vec![0, 5, 0x80, 0, 42, 0x80, 0x80]);
    assert_eq!(read_rle_data(&mut src, 1, 1), Ok(vec![42]));
    assert_eq!(src.tell(), 7);
}

#[test]
fn longest_literal_packet() {
    let mut bytes = vec![0, 129, 127];
    let body: Vec<u8> = (0..128).collect();
    bytes.extend_from_slice(&body);
    let mut src = ByteSource::new(bytes);
    assert_eq!(read_rle_data(&mut src, 1, 128), Ok(body));
}

#[test]
fn scanlines_are_read_in_order_behind_the_table() {
    // Two scanlines: a literal of 2 bytes, then a run of 3.
    let mut src = ByteSource::new(vec![0, 3, 0, 2, 1, 5, 6, 0xfe, 8]);
    assert_eq!(read_rle_data(&mut src, 2, 5), Ok(vec![5, 6, 8, 8, 8]));
    assert_eq!(src.tell(), 9);
}

#[test]
fn reading_starts_at_the_cursor() {
    let mut src = ByteSource::new(vec![99, 99, 0, 2, 0xff, 3, 77]);
    src.seek_to(2);
    assert_eq!(read_rle_data(&mut src, 1, 2), Ok(vec![3, 3]));
    assert_eq!(src.tell(), 6);
    assert_eq!(src.read_u8(), Ok(77));
}

#[test]
fn no_scanlines_give_no_bytes() {
    let mut src = ByteSource::new(vec![1, 2, 3]);
    assert_eq!(read_rle_data(&mut src, 0, 0), Ok(vec![]));
    assert_eq!(src.tell(), 0);
    assert_eq!(read_rle_data(&mut src, 0, 1), Err(BrushError::DecompressionSizeMismatch));
}

#[test]
fn empty_scanlines_are_allowed() {
    let mut src = ByteSource::new(vec![0, 0, 0, 2, 0, 0, 0xff, 4]);
    assert_eq!(read_rle_data(&mut src, 3, 2), Ok(vec![4, 4]));
    assert_eq!(src.tell(), 8);
}

#[test]
fn round_trip_of_one_scanline() {
    round_trip(&[1, 2, 3, 3, 3, 3, 4, 4, 5], &[9]);
    round_trip(&[], &[]);
    round_trip(&[7], &[1]);
    round_trip(&[0; 1000], &[1000]);
}

#[test]
fn round_trip_of_every_split_into_two_scanlines() {
    let raw = sample(40);
    for first in 0..=raw.len() {
        round_trip(&raw, &[first, raw.len() - first]);
    }
}

#[test]
fn round_trip_of_uneven_scanlines() {
    let raw = sample(2000);
    round_trip(&raw, &[2000]);
    round_trip(&raw, &[1, 0, 999, 1000]);
    round_trip(&raw, &[500, 500, 500, 500]);
    round_trip(&raw, &[0, 0, 2000, 0]);
    round_trip(&raw, &[1999, 1]);
}

#[test]
fn round_trip_of_a_square_brush() {
    let raw = sample(64 * 64);
    round_trip(&raw, &[64; 64]);
}

#[test]
fn stream_that_expands_to_fewer_bytes_is_a_size_mismatch() {
    let raw = [1u8, 2, 3, 3, 3, 3, 4, 4, 5];
    let packed = compress(&raw, &[4, 5]);
    let mut src = ByteSource::new(packed.clone());
    assert_eq!(read_rle_data(&mut src, 2, 10), Err(BrushError::DecompressionSizeMismatch));
    assert_eq!(src.tell(), 0);
    let mut src = ByteSource::new(packed.clone());
    assert_eq!(read_rle_data(&mut src, 2, 1000), Err(BrushError::DecompressionSizeMismatch));
    let mut src = ByteSource::new(packed);
    assert_eq!(read_rle_data(&mut src, 2, 9), Ok(raw.to_vec()));
}

#[test]
fn stream_that_expands_to_more_bytes_is_a_size_mismatch() {
    let raw = [1u8, 2, 3, 3, 3, 3, 4, 4, 5];
    let packed = compress(&raw, &[4, 5]);
    for size in 0..9 {
        let mut src = ByteSource::new(packed.clone());
        assert_eq!(read_rle_data(&mut src, 2, size), Err(BrushError::DecompressionSizeMismatch));
        assert_eq!(src.tell(), 0);
    }
}

#[test]
fn packet_cut_short_by_its_scanline_is_a_size_mismatch() {
    // The literal packet announces 3 bytes, its scanline holds 2 of them.
    let mut src = ByteSource::new(vec![0, 3, 2, 10, 20, 30]);
    assert_eq!(read_rle_data(&mut src, 1, 3), Err(BrushError::DecompressionSizeMismatch));
    // The repeat packet lacks its byte.
    let mut src = ByteSource::new(vec![0, 1, 0xfe, 7]);
    assert_eq!(read_rle_data(&mut src, 1, 3), Err(BrushError::DecompressionSizeMismatch));
    assert_eq!(src.tell(), 0);
}

#[test]
fn truncated_table_is_an_end_of_file() {
    let mut src = ByteSource::new(vec![0, 1, 0]);
    assert_eq!(
        read_rle_data(&mut src, 2, 1),
        Err(BrushError::IoError(IoError::UnexpectedEof))
    );
    assert_eq!(src.tell(), 0);
    let mut src = ByteSource::new(vec![]);
    assert_eq!(
        read_rle_data(&mut src, u32::MAX, 1),
        Err(BrushError::IoError(IoError::UnexpectedEof))
    );
}

#[test]
fn truncated_scanline_is_an_end_of_file() {
    let mut src = ByteSource::new(vec![0, 4, 2, 10, 20]);
    assert_eq!(
        read_rle_data(&mut src, 1, 3),
        Err(BrushError::IoError(IoError::UnexpectedEof))
    );
    assert_eq!(src.tell(), 0);
}

#[test]
fn cursor_beyond_the_end_is_an_end_of_file() {
    let mut src = ByteSource::new(vec![0, 0]);
    src.seek_to(3);
    assert_eq!(
        read_rle_data(&mut src, 0, 0),
        Err(BrushError::IoError(IoError::UnexpectedEof))
    );
    assert_eq!(src.tell(), 3);
}

#[test]
fn the_first_scanline_at_fault_decides_the_error() {
    // The first scanline overruns the size asked for; the second is missing.
    let mut src = ByteSource::new(vec![0, 2, 0, 9, 0xfe, 7]);
    assert_eq!(read_rle_data(&mut src, 2, 2), Err(BrushError::DecompressionSizeMismatch));
    // The first scanline is fine; the second is missing.
    let mut src = ByteSource::new(vec![0, 2, 0, 9, 0xfe, 7]);
    assert_eq!(
        read_rle_data(&mut src, 2, 3),
        Err(BrushError::IoError(IoError::UnexpectedEof))
    );
}

#[test]
fn raw_pixel_data_is_width_times_height_bytes() {
    let mut src = ByteSource::new(vec![1, 2, 3, 4, 5, 6, 7]);
    assert_eq!(read_pixel_data(&mut src, false, 3, 2), Ok(vec![1, 2, 3, 4, 5, 6]));
    assert_eq!(src.tell(), 6);
    assert_eq!(
        read_pixel_data(&mut src, false, 1, 2),
        Err(BrushError::IoError(IoError::UnexpectedEof))
    );
    assert_eq!(read_pixel_data(&mut src, false, 0, 5), Ok(vec![]));
    assert_eq!(read_pixel_data(&mut src, false, 1, 1), Ok(vec![7]));
}

#[test]
fn compressed_pixel_data_has_one_scanline_for_each_row() {
    let raw = [1u8, 1, 1, 2, 3, 4];
    let mut src = ByteSource::new(compress(&raw, &[3, 3]));
    assert_eq!(read_pixel_data(&mut src, true, 3, 2), Ok(raw.to_vec()));
    let mut src = ByteSource::new(compress(&raw, &[3, 3]));
    assert_eq!(
        read_pixel_data(&mut src, true, 2, 2),
        Err(BrushError::DecompressionSizeMismatch)
    );
}

#[test]
fn huge_raw_sizes_fail_without_reading() {
    let mut src = ByteSource::new(vec![1, 2, 3]);
    assert_eq!(
        read_pixel_data(&mut src, false, u32::MAX, u32::MAX),
        Err(BrushError::IoError(IoError::UnexpectedEof))
    );
    assert_eq!(src.tell(), 0);
}
