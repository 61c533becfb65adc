use gif_decoder::error::ParserError;
use gif_decoder::lzw::{init_code_table, lzw_decode};
use std::collections::HashMap;

/// Packs `(code, width)` pairs LSB-first into bytes, as the compressed
/// stream lays them out.
fn pack_codes(codes: &[(u16, u32)]) -> Vec<u8> {
    let mut out = Vec::new();
    let mut acc: u32 = 0;
    let mut nbits: u32 = 0;
    for &(code, width) in codes {
        acc |= (code as u32) << nbits;
        nbits += width;
        while nbits >= 8 {
            out.push((acc & 0xff) as u8);
            acc >>= 8;
            nbits -= 8;
        }
    }
    if nbits > 0 {
        out.push((acc & 0xff) as u8);
    }
    out
}

/// A reference encoder: standard variable-width LZW with a leading clear
/// code and a trailing end-of-information code. The width grows exactly
/// when the decoder's next assigned dictionary index reaches `1 << width`.
fn lzw_encode(k: u32, symbols: &[u8]) -> Vec<u8> {
    let clear: u16 = 1 << k;
    let eoi: u16 = clear + 1;
    let mut codes: Vec<(u16, u32)> = Vec::new();
    let mut dict: HashMap<Vec<u8>, u16> = HashMap::new();
    for i in 0..clear {
        dict.insert(vec![i as u8], i);
    }
    let mut next_code: u16 = eoi + 1;
    let mut width: u32 = k + 1;
    let mut emitted: u32 = 0;
    codes.push((clear, width));

    let mut bump = |codes: &mut Vec<(u16, u32)>, width: &mut u32, emitted: &mut u32, c: u16| {
        codes.push((c, *width));
        *emitted += 1;
        if *emitted >= 2 {
            // the decoder adds one entry for every emitted code after the
            // first; its table length decides the width of the next code
            let table_len = (1u32 << k) + 2 + (*emitted - 1);
            if table_len == (1u32 << *width) && *width < 12 {
                *width += 1;
            }
        }
    };

    let mut cur: Vec<u8> = Vec::new();
    for &s in symbols {
        let mut ext = cur.clone();
        ext.push(s);
        if dict.contains_key(&ext) {
            cur = ext;
        } else {
            let c = dict[&cur];
            bump(&mut codes, &mut width, &mut emitted, c);
            dict.insert(ext, next_code);
            next_code += 1;
            cur = vec![s];
        }
    }
    if !cur.is_empty() {
        let c = dict[&cur];
        bump(&mut codes, &mut width, &mut emitted, c);
    }
    codes.push((eoi, width));
    pack_codes(&codes)
}

#[test]
fn init_table_has_one_entry_per_code() {
    let t = init_code_table(2);
    assert_eq!(t.len(), 6);
    for i in 0..4 {
        assert_eq!(t[i], vec![i as u8]);
    }
}

// Decoding an encoding of [0, 1, ..., n-1] with minimum code size k,
// n <= 2^k, yields exactly that sequence.
#[test]
fn counting_sequence_round_trips() {
    for k in 1..=8u32 {
        let n = 1usize << k;
        let symbols: Vec<u8> = (0..n).map(|i| i as u8).collect();
        let stream = lzw_encode(k, &symbols);
        let decoded = lzw_decode(&stream, k).expect("counting sequence must decode");
        assert_eq!(decoded, symbols);
    }
}

// Longer data with repetitions exercises dictionary hits and the
// deferred (not-yet-defined) code case; decoding inverts encoding.
#[test]
fn repetitive_data_round_trips() {
    let mut symbols = Vec::new();
    for i in 0..2000usize {
        symbols.push((i % 4) as u8);
        symbols.push((i % 3) as u8);
        symbols.push(0);
        symbols.push(0);
    }
    let stream = lzw_encode(2, &symbols);
    let decoded = lzw_decode(&stream, 2).expect("repetitive data must decode");
    assert_eq!(decoded, symbols);
}

// The immediate KwKwK pattern: aaa... forces a reference to the entry
// being defined.
#[test]
fn deferred_code_case_round_trips() {
    let symbols = vec![1u8; 50];
    let stream = lzw_encode(2, &symbols);
    let decoded = lzw_decode(&stream, 2).expect("run of one symbol must decode");
    assert_eq!(decoded, symbols);
}

// A clear code mid-stream resets the dictionary and the code width: the
// same root codes decode identically on both sides of the reset.
#[test]
fn clear_code_mid_stream_resets() {
    // clear, 0, 1, clear, 1, 0, eoi -- all at the initial width of 3
    let stream = pack_codes(&[(4, 3), (0, 3), (1, 3), (4, 3), (1, 3), (0, 3), (5, 3)]);
    let decoded = lzw_decode(&stream, 2).expect("stream with reset must decode");
    assert_eq!(decoded, vec![0, 1, 1, 0]);
}

// After a reset only root codes may follow: a dictionary code built
// before the clear no longer exists.
#[test]
fn code_after_clear_must_be_root() {
    // clear, 0, 1, clear, 6 -- code 6 was defined before the reset only
    let stream = pack_codes(&[(4, 3), (0, 3), (1, 3), (4, 3), (6, 3), (5, 3)]);
    assert_eq!(lzw_decode(&stream, 2), Err(ParserError::InvalidCode));
}

#[test]
fn code_past_next_free_slot_is_invalid() {
    // clear, 0, 7 -- the next free slot is 6, so 7 is out of reach
    let stream = pack_codes(&[(4, 3), (0, 3), (7, 3), (5, 3)]);
    assert_eq!(lzw_decode(&stream, 2), Err(ParserError::InvalidCode));
}

#[test]
fn empty_stream_is_truncated() {
    assert_eq!(lzw_decode(&[], 2), Err(ParserError::BitStreamTruncated));
}

#[test]
fn stream_without_eoi_is_truncated() {
    // clear then 0, then nothing: the reader runs out before eoi
    let stream = pack_codes(&[(4, 3), (0, 3)]);
    assert_eq!(lzw_decode(&stream, 2), Err(ParserError::BitStreamTruncated));
}

// Growing the dictionary to 4096 entries and asking for one more entry
// fails rather than widening codes past 12 bits.
#[test]
fn full_dictionary_overflows() {
    let mut codes: Vec<(u16, u32)> = Vec::new();
    let mut width = 3u32;
    codes.push((4, width)); // clear
    let mut table_len = 6u32;
    // first code adds nothing; every further code adds one entry
    codes.push((0, width));
    while table_len < 4096 {
        codes.push((0, width));
        table_len += 1;
        if table_len == (1u32 << width) && width < 12 {
            width += 1;
        }
    }
    // the table is full; any further data-bearing code cannot add its entry
    codes.push((0, width));
    let stream = pack_codes(&codes);
    assert_eq!(lzw_decode(&stream, 2), Err(ParserError::CodeWidthOverflow));
}

// Every decoded index is below 2^k: the output of a 2-bit stream only
// holds indices 0..=3.
#[test]
fn indices_stay_below_root_count() {
    let symbols = vec![0u8, 1, 2, 3, 3, 2, 1, 0, 0, 1, 2, 3];
    let stream = lzw_encode(2, &symbols);
    let decoded = lzw_decode(&stream, 2).unwrap();
    assert!(decoded.iter().all(|&b| b < 4));
}

// The counting sequence in its plainest encoding: clear, each root code
// in order, end -- all at the initial width, for every length that fits
// without a width change.
#[test]
fn short_counting_sequences_decode() {
    for k in 2..=6u32 {
        let clear = 1u16 << k;
        let eoi = clear + 1;
        let w = k + 1;
        for n in 1..=((1usize << k) - 2) {
            let mut codes: Vec<(u16, u32)> = vec![(clear, w)];
            for i in 0..n {
                codes.push((i as u16, w));
            }
            codes.push((eoi, w));
            let stream = pack_codes(&codes);
            let decoded = lzw_decode(&stream, k).expect("counting stream must decode");
            let expected: Vec<u8> = (0..n).map(|i| i as u8).collect();
            assert_eq!(decoded, expected);
        }
    }
}
