use implode::exploder::{ExplodeError, Exploder};
use implode::symbol::default_code_table;

/// Packs (value, bit-width) fields LSB-first into bytes, as the wire format
/// lays out coded symbols.
fn pack_bits(chunks: &[(u64, u32)]) -> Vec<u8> {
    let mut acc: u64 = 0;
    let mut n: u32 = 0;
    let mut out = Vec::new();
    for &(v, w) in chunks {
        acc |= v << n;
        n += w;
        while n >= 8 {
            out.push((acc & 0xFF) as u8);
            acc >>= 8;
            n -= 8;
        }
    }
    if n > 0 {
        out.push((acc & 0xFF) as u8);
    }
    out
}

/// A literal byte: class bit 0, then the byte verbatim.
fn lit(b: u8) -> (u64, u32) {
    ((b as u64) << 1, 9)
}

/// The end marker: class bit 1, length-code pattern 0 (7 bits), extra 255.
fn end_marker() -> (u64, u32) {
    (0xFF01, 16)
}

/// Drives a decoder over `data`, re-offering unconsumed input, until the end
/// marker; panics if the stream stalls.
fn decode_all(ex: &mut Exploder, data: &[u8]) -> Vec<u8> {
    let mut out = Vec::new();
    let mut cpos = 0usize;
    for _ in 0..1_000_000 {
        if ex.ended {
            break;
        }
        let (used, s) = ex.explode_block(&data[cpos..]).unwrap();
        cpos += used;
        let stalled = used == 0 && s.is_empty();
        out.extend_from_slice(s);
        if stalled && !ex.ended && !ex.need_swap {
            panic!("decoder stalled at {} of {}", cpos, data.len());
        }
    }
    assert!(ex.ended);
    out
}

/// Drives a decoder over `data` revealed `chunk` bytes at a time.
fn decode_chunked(ex: &mut Exploder, data: &[u8], chunk: usize) -> Vec<u8> {
    let mut out = Vec::new();
    let mut cpos = 0usize;
    let mut avail = 0usize;
    for _ in 0..1_000_000 {
        if ex.ended {
            break;
        }
        if avail < data.len() {
            avail = (avail + chunk).min(data.len());
        }
        match ex.explode_block(&data[cpos..avail]) {
            Ok((used, s)) => {
                cpos += used;
                out.extend_from_slice(s);
            },
            Err(ExplodeError::NeedMode) | Err(ExplodeError::NeedDictBits) => {
                assert!(avail < data.len(), "stalled waiting for header bytes");
            },
            Err(e) => panic!("unexpected error: {:?}", e),
        }
    }
    assert!(ex.ended);
    out
}

#[test]
fn round_trip_literals_and_pair() {
    // mode 0, dict_bits 6, literals "AB", a distance-1 length-4
    // back-reference, end: decodes to "ABBBBB".
    let mut chunks = vec![lit(b'A'), lit(b'B')];
    // length value 2 (code 2: pattern 1, 3 bits), distance 1
    // (code 0: pattern 3, 2 bits; trailing 6 bits 0).
    chunks.push((1 | (1 << 1), 4));
    chunks.push((3, 2));
    chunks.push((0, 6));
    chunks.push(end_marker());
    let mut data = vec![0u8, 6u8];
    data.extend_from_slice(&pack_bits(&chunks));

    let table = default_code_table();
    let mut ex = Exploder::new(&table);
    let out = decode_all(&mut ex, &data);
    assert_eq!(out, b"ABBBBB");
}

#[test]
fn chunk_size_independence() {
    let mut chunks = Vec::new();
    for i in 0..600u32 {
        chunks.push(lit((i % 251) as u8));
    }
    // length value 8 (code 8: pattern 4, 5 bits, 1 extra bit = 0),
    // distance 3 (dist code 0: pattern 3, 2 bits; trailing 6 bits = 2).
    chunks.push((1 | (4 << 1), 7));
    chunks.push((3, 2));
    chunks.push((2, 6));
    chunks.push(end_marker());
    let mut data = vec![0u8, 6u8];
    data.extend_from_slice(&pack_bits(&chunks));

    let table = default_code_table();
    let mut ex = Exploder::new(&table);
    let whole = decode_all(&mut ex, &data);

    let mut expect: Vec<u8> = (0..600u32).map(|i| (i % 251) as u8).collect();
    for _ in 0..10 {
        let b = expect[expect.len() - 3];
        expect.push(b);
    }
    assert_eq!(whole, expect);

    for chunk in [1usize, 3, 7, 64, 1000] {
        let mut ex2 = Exploder::new(&table);
        let piecewise = decode_chunked(&mut ex2, &data, chunk);
        assert_eq!(piecewise, whole, "chunk size {}", chunk);
    }
}

#[test]
fn buffer_swap_mid_copy() {
    // 4090 literals fill the active half to 8186; a length-10 copy then
    // fills it exactly mid-copy, forcing a swap that the next call
    // completes before two final literals and the end marker.
    let mut chunks = Vec::new();
    for i in 0..4090u32 {
        chunks.push(lit((i % 251) as u8));
    }
    chunks.push((1 | (4 << 1), 7));
    chunks.push((3, 2));
    chunks.push((2, 6));
    chunks.push(lit(b'Q'));
    chunks.push(lit(b'R'));
    chunks.push(end_marker());
    let mut data = vec![0u8, 6u8];
    data.extend_from_slice(&pack_bits(&chunks));

    let mut expect: Vec<u8> = (0..4090u32).map(|i| (i % 251) as u8).collect();
    for _ in 0..10 {
        let b = expect[expect.len() - 3];
        expect.push(b);
    }
    expect.push(b'Q');
    expect.push(b'R');

    let table = default_code_table();
    let mut ex = Exploder::new(&table);
    let out = decode_all(&mut ex, &data);
    assert_eq!(out.len(), expect.len());
    assert_eq!(out, expect);

    for chunk in [1usize, 17, 512] {
        let mut ex2 = Exploder::new(&table);
        let piecewise = decode_chunked(&mut ex2, &data, chunk);
        assert_eq!(piecewise, expect, "chunk size {}", chunk);
    }
}

#[test]
fn reset_decodes_like_fresh() {
    let table = default_code_table();

    let mut first = vec![0u8, 6u8];
    first.extend_from_slice(&pack_bits(&[lit(b'x'), lit(b'y'), end_marker()]));

    let mut second = vec![0u8, 6u8];
    second.extend_from_slice(&pack_bits(&[
        lit(b'h'),
        lit(b'i'),
        (1 | (1 << 1), 4),
        (3, 2),
        (0, 6),
        end_marker(),
    ]));

    let mut ex = Exploder::new(&table);
    let out_first = decode_all(&mut ex, &first);
    assert_eq!(out_first, b"xy");

    ex.reset();
    let out_reused = decode_all(&mut ex, &second);

    let mut fresh = Exploder::new(&table);
    let out_fresh = decode_all(&mut fresh, &second);
    assert_eq!(out_reused, out_fresh);
    assert_eq!(out_fresh, b"hiiiii");
}

#[test]
fn round_trip_small_dictionary() {
    // dict_bits 4: the same distance-1 length-4 pair carries a 4-bit
    // trailing field instead of 6.
    let mut chunks = vec![lit(b'a'), lit(b'b')];
    chunks.push((1 | (1 << 1), 4));
    chunks.push((3, 2));
    chunks.push((0, 4));
    chunks.push(end_marker());
    let mut data = vec![0u8, 4u8];
    data.extend_from_slice(&pack_bits(&chunks));

    let table = default_code_table();
    let mut ex = Exploder::new(&table);
    let out = decode_all(&mut ex, &data);
    assert_eq!(out, b"abbbbb");
}

#[test]
fn swap_and_reset_fields() {
    let table = default_code_table();
    let mut ex = Exploder::new(&table);
    assert_eq!(ex.offs_xor, 0);
    assert_eq!(ex.write_offs, 4096);

    ex.swap();
    assert_eq!(ex.offs_xor, 4096);
    assert_eq!(ex.write_offs, 4096);
    ex.swap();
    assert_eq!(ex.offs_xor, 0);

    ex.remaining_len = 7;
    ex.current_offs = 5000;
    ex.swap();
    assert_eq!(ex.current_offs, 5000 - 4096);
    assert_eq!(ex.remaining_len, 7);

    ex.reset();
    assert_eq!(ex.offs_xor, 0);
    assert_eq!(ex.write_offs, 4096);
    assert_eq!(ex.bits, 0);
    assert_eq!(ex.nbits, 0);
    assert_eq!(ex.remaining_len, 0);
    assert_eq!(ex.current_offs, 0);
    assert!(ex.need_mode);
    assert!(ex.need_dict_bits);
    assert_eq!(ex.dict_bits, 0);
    assert!(!ex.ended);
    assert!(!ex.need_swap);
}

#[test]
fn header_backpressure() {
    let table = default_code_table();
    let mut ex = Exploder::new(&table);
    assert!(matches!(ex.explode_block(&[]), Err(ExplodeError::NeedMode)));
    assert!(matches!(ex.explode_block(&[0u8]), Err(ExplodeError::NeedDictBits)));
    // No partial progress was retained: both header bytes together succeed.
    let r = ex.explode_block(&[0u8, 6u8]).unwrap();
    assert_eq!(r.0, 2);
    assert_eq!(r.1, b"");
    assert!(!ex.ended);
}

#[test]
fn unsupported_mode_is_fatal() {
    let table = default_code_table();
    let mut ex = Exploder::new(&table);
    assert!(matches!(ex.explode_block(&[1u8, 6u8]), Err(ExplodeError::UnsupportedMode)));
    // The header was not consumed; the stream stays rejected on retry.
    assert!(matches!(ex.explode_block(&[1u8, 6u8]), Err(ExplodeError::UnsupportedMode)));
}

#[test]
fn oversized_distance_is_rejected() {
    // dict_bits 13: a pair whose distance decodes to (63 << 13) + 1, far
    // beyond the window, must be rejected rather than applied.
    let mut data = vec![0u8, 13u8];
    // length value 4 (code 4: pattern 10, 4 bits, no extra), then distance
    // code 63 (pattern 0, 8 bits) and 13 trailing zero bits.
    data.extend_from_slice(&pack_bits(&[(1 | (10 << 1), 5), (0, 8), (0, 13), (0, 6)]));
    let table = default_code_table();
    let mut ex = Exploder::new(&table);
    assert!(matches!(ex.explode_block(&data), Err(ExplodeError::InvalidDistance)));
}
