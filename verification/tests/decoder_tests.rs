use gif_decoder::decoder::{Decoder, LoopCount, SpecialPurposeExtension, Version};
use gif_decoder::error::ParserError;
use gif_decoder::parser::DisposalMethod;
use std::collections::HashMap;

fn header87() -> Vec<u8> {
    vec![0x47, 0x49, 0x46, 0x38, 0x37, 0x61]
}

fn header89() -> Vec<u8> {
    vec![0x47, 0x49, 0x46, 0x38, 0x39, 0x61]
}

/// A logical screen descriptor without a global palette.
fn bare_screen() -> Vec<u8> {
    vec![0x01, 0x00, 0x01, 0x00, 0x00, 0x00, 0x00]
}

/// Wraps raw bytes into a length-prefixed sub-block chain.
fn subblocks(data: &[u8]) -> Vec<u8> {
    let mut out = Vec::new();
    for chunk in data.chunks(255) {
        out.push(chunk.len() as u8);
        out.extend_from_slice(chunk);
    }
    out.push(0);
    out
}

fn pack_codes(codes: &[(u16, u32)]) -> Vec<u8> {
    let mut out = Vec::new();
    let mut acc: u32 = 0;
    let mut nbits: u32 = 0;
    for &(code, width) in codes {
        acc |= (code as u32) << nbits;
        nbits += width;
        while nbits >= 8 {
            out.push((acc & 0xff) as u8);
            acc >>= 8;
            nbits -= 8;
        }
    }
    if nbits > 0 {
        out.push((acc & 0xff) as u8);
    }
    out
}

fn lzw_encode(k: u32, symbols: &[u8]) -> Vec<u8> {
    let clear: u16 = 1 << k;
    let eoi: u16 = clear + 1;
    let mut codes: Vec<(u16, u32)> = Vec::new();
    let mut dict: HashMap<Vec<u8>, u16> = HashMap::new();
    for i in 0..clear {
        dict.insert(vec![i as u8], i);
    }
    let mut next_code: u16 = eoi + 1;
    let mut width: u32 = k + 1;
    let mut emitted: u32 = 0;
    codes.push((clear, width));
    let mut bump = |codes: &mut Vec<(u16, u32)>, width: &mut u32, emitted: &mut u32, c: u16| {
        codes.push((c, *width));
        *emitted += 1;
        if *emitted >= 2 {
            let table_len = (1u32 << k) + 2 + (*emitted - 1);
            if table_len == (1u32 << *width) && *width < 12 {
                *width += 1;
            }
        }
    };
    let mut cur: Vec<u8> = Vec::new();
    for &s in symbols {
        let mut ext = cur.clone();
        ext.push(s);
        if dict.contains_key(&ext) {
            cur = ext;
        } else {
            let c = dict[&cur];
            bump(&mut codes, &mut width, &mut emitted, c);
            dict.insert(ext, next_code);
            next_code += 1;
            cur = vec![s];
        }
    }
    if !cur.is_empty() {
        let c = dict[&cur];
        bump(&mut codes, &mut width, &mut emitted, c);
    }
    codes.push((eoi, width));
    pack_codes(&codes)
}

/// The single 1x1 black pixel stream: header, screen descriptor with a
/// two-entry global palette, the palette, one image, trailer.
fn one_black_pixel() -> Vec<u8> {
    let mut s = header87();
    s.extend_from_slice(&[0x01, 0x00, 0x01, 0x00, 0x80, 0x00, 0x00]);
    s.extend_from_slice(&[0x00, 0x00, 0x00, 0xff, 0xff, 0xff]);
    s.extend_from_slice(&[0x2c, 0x00, 0x00, 0x00, 0x00, 0x01, 0x00, 0x01, 0x00, 0x00]);
    s.extend_from_slice(&[0x02, 0x02, 0x44, 0x01, 0x00]);
    s.push(0x3b);
    s
}

#[test]
fn single_black_pixel_decodes() {
    let mut decoder = Decoder::new(one_black_pixel());
    decoder.parse().expect("stream must parse");
    assert_eq!(decoder.stream_version(), Some(Version::V87a));
    let frames = decoder.frames();
    assert_eq!(frames.len(), 1);
    let indexes = frames[0].indicies().expect("frame must carry indices");
    assert_eq!(indexes, &vec![0u8]);
    let palette = frames[0]
        .palette(decoder.global_palette())
        .expect("a palette must be in scope");
    let idx = indexes[0] as usize;
    assert_eq!(&palette[3 * idx..3 * idx + 3], &[0x00, 0x00, 0x00]);
}

#[test]
fn two_frames_with_delay() {
    let mut s = header89();
    s.extend_from_slice(&[0x01, 0x00, 0x01, 0x00, 0x80, 0x00, 0x00]);
    s.extend_from_slice(&[0x00, 0x00, 0x00, 0xff, 0xff, 0xff]);
    for _ in 0..2 {
        s.extend_from_slice(&[0x21, 0xf9, 0x04, 0x00, 0x0a, 0x00, 0x00, 0x00]);
        s.extend_from_slice(&[0x2c, 0x00, 0x00, 0x00, 0x00, 0x01, 0x00, 0x01, 0x00, 0x00]);
        s.extend_from_slice(&[0x02, 0x02, 0x44, 0x01, 0x00]);
    }
    s.push(0x3b);
    let mut decoder = Decoder::new(s);
    decoder.parse().expect("stream must parse");
    let frames = decoder.frames();
    assert_eq!(frames.len(), 2);
    for frame in frames.iter() {
        assert_eq!(frame.delay(), 10);
        assert_eq!(frame.disposal(), 0);
    }
}

#[test]
fn netscape_loop_infinite() {
    let mut s = header89();
    s.extend_from_slice(&bare_screen());
    s.extend_from_slice(&[0x21, 0xff, 0x0b]);
    s.extend_from_slice(b"NETSCAPE2.0");
    s.extend_from_slice(&[0x03, 0x01, 0x00, 0x00, 0x00]);
    s.push(0x3b);
    let mut decoder = Decoder::new(s);
    decoder.parse().expect("stream must parse");
    assert_eq!(decoder.loop_directive_count(), Some(LoopCount::Infinite));
    assert_eq!(decoder.frames().len(), 0);
    assert_eq!(decoder.extensions().len(), 1);
}

#[test]
fn netscape_loop_number() {
    let mut s = header89();
    s.extend_from_slice(&bare_screen());
    s.extend_from_slice(&[0x21, 0xff, 0x0b]);
    s.extend_from_slice(b"NETSCAPE2.0");
    s.extend_from_slice(&[0x03, 0x01, 0x05, 0x01, 0x00]);
    s.push(0x3b);
    let mut decoder = Decoder::new(s);
    decoder.parse().expect("stream must parse");
    assert_eq!(decoder.loop_directive_count(), Some(LoopCount::Number(0x0105)));
}

#[test]
fn netscape_wrong_length_fails() {
    let mut s = header89();
    s.extend_from_slice(&bare_screen());
    s.extend_from_slice(&[0x21, 0xff, 0x0b]);
    s.extend_from_slice(b"NETSCAPE2.0");
    s.extend_from_slice(&[0x02, 0x01, 0x00, 0x00]);
    s.push(0x3b);
    let mut decoder = Decoder::new(s);
    match decoder.parse() {
        Err(ParserError::ApplicationDataLengthMismatch { identifier, expected, actual }) => {
            assert_eq!(identifier, b"NETSCAPE".to_vec());
            assert_eq!(expected, 3);
            assert_eq!(actual, 2);
        },
        other => panic!("expected a length mismatch, got {:?}", other),
    }
}

#[test]
fn local_palette_overrides_global() {
    let mut s = header89();
    s.extend_from_slice(&[0x01, 0x00, 0x01, 0x00, 0x80, 0x00, 0x00]);
    s.extend_from_slice(&[0xff, 0xff, 0xff, 0xee, 0xee, 0xee]);
    // image with a four-entry local palette of distinct colors
    s.extend_from_slice(&[0x2c, 0x00, 0x00, 0x00, 0x00, 0x01, 0x00, 0x01, 0x00, 0x81]);
    let local = [
        0x10, 0x11, 0x12, 0x20, 0x21, 0x22, 0x30, 0x31, 0x32, 0x40, 0x41, 0x42u8,
    ];
    s.extend_from_slice(&local);
    s.extend_from_slice(&[0x02, 0x02, 0x44, 0x01, 0x00]);
    s.push(0x3b);
    let mut decoder = Decoder::new(s);
    decoder.parse().expect("stream must parse");
    let frames = decoder.frames();
    assert_eq!(frames.len(), 1);
    let palette = frames[0]
        .palette(decoder.global_palette())
        .expect("a palette must be in scope");
    assert_eq!(palette.as_slice(), &local);
    let indexes = frames[0].indicies().unwrap();
    let idx = indexes[0] as usize;
    assert_eq!(&palette[3 * idx..3 * idx + 3], &[0x10, 0x11, 0x12]);
}

#[test]
fn malformed_signature_fails() {
    let mut s = vec![0x4a, 0x49, 0x46, 0x38, 0x39, 0x61];
    s.extend_from_slice(&bare_screen());
    let mut decoder = Decoder::new(s);
    assert_eq!(decoder.parse(), Err(ParserError::InvalidSignature));
    assert_eq!(decoder.frames().len(), 0);
    assert_eq!(decoder.stream_version(), None);
}

#[test]
fn unsupported_version_fails() {
    let s = vec![0x47, 0x49, 0x46, 0x38, 0x38, 0x61];
    let mut decoder = Decoder::new(s);
    assert_eq!(
        decoder.parse(),
        Err(ParserError::UnsupportedVersion(vec![0x38, 0x38, 0x61]))
    );
}

#[test]
fn truncated_sub_block_fails() {
    let mut s = header89();
    s.extend_from_slice(&bare_screen());
    s.extend_from_slice(&[0x2c, 0x00, 0x00, 0x00, 0x00, 0x01, 0x00, 0x01, 0x00, 0x00]);
    // the sub-block advertises five bytes but only three remain
    s.extend_from_slice(&[0x02, 0x05, 0xaa, 0xbb, 0xcc]);
    let mut decoder = Decoder::new(s);
    assert_eq!(decoder.parse(), Err(ParserError::UnexpectedEof));
}

#[test]
fn truncated_header_fails() {
    let mut decoder = Decoder::new(vec![0x47, 0x49]);
    assert_eq!(decoder.parse(), Err(ParserError::UnexpectedEof));
}

#[test]
fn unknown_extension_label_fails() {
    let mut s = header89();
    s.extend_from_slice(&bare_screen());
    s.extend_from_slice(&[0x21, 0x77]);
    s.push(0x3b);
    let mut decoder = Decoder::new(s);
    assert_eq!(decoder.parse(), Err(ParserError::UnknownExtensionLabel(0x77)));
}

#[test]
fn unexpected_block_label_fails() {
    let mut s = header89();
    s.extend_from_slice(&bare_screen());
    s.push(0x99);
    let mut decoder = Decoder::new(s);
    assert_eq!(decoder.parse(), Err(ParserError::UnexpectedBlockLabel(0x99)));
}

#[test]
fn wrong_graphic_control_size_fails() {
    let mut s = header89();
    s.extend_from_slice(&bare_screen());
    s.extend_from_slice(&[0x21, 0xf9, 0x05]);
    let mut decoder = Decoder::new(s);
    assert_eq!(
        decoder.parse(),
        Err(ParserError::MalformedExtensionBlockSize { label: 0xf9, expected: 4, actual: 5 })
    );
}

#[test]
fn invalid_disposal_method_fails() {
    let mut s = header89();
    s.extend_from_slice(&bare_screen());
    // disposal bits hold 4, above the highest defined method
    s.extend_from_slice(&[0x21, 0xf9, 0x04, 0x10, 0x0a, 0x00, 0x00, 0x00]);
    let mut decoder = Decoder::new(s);
    assert_eq!(decoder.parse(), Err(ParserError::InvalidDisposalMethod(4)));
}

#[test]
fn trailer_with_pending_graphic_control_fails() {
    let mut s = header89();
    s.extend_from_slice(&bare_screen());
    s.extend_from_slice(&[0x21, 0xf9, 0x04, 0x00, 0x0a, 0x00, 0x00, 0x00]);
    s.push(0x3b);
    let mut decoder = Decoder::new(s);
    assert_eq!(decoder.parse(), Err(ParserError::ExpectedImageAfterGraphicControl));
}

#[test]
fn two_graphic_controls_fail() {
    let mut s = header89();
    s.extend_from_slice(&bare_screen());
    s.extend_from_slice(&[0x21, 0xf9, 0x04, 0x00, 0x0a, 0x00, 0x00, 0x00]);
    s.extend_from_slice(&[0x21, 0xf9, 0x04, 0x00, 0x0a, 0x00, 0x00, 0x00]);
    let mut decoder = Decoder::new(s);
    assert_eq!(decoder.parse(), Err(ParserError::UnexpectedGraphicControl));
}

#[test]
fn invalid_lzw_code_size_fails() {
    let mut s = header89();
    s.extend_from_slice(&bare_screen());
    s.extend_from_slice(&[0x2c, 0x00, 0x00, 0x00, 0x00, 0x01, 0x00, 0x01, 0x00, 0x00]);
    s.push(0x00);
    let mut decoder = Decoder::new(s);
    assert_eq!(decoder.parse(), Err(ParserError::InvalidLzwCodeSize(0)));
}

// A graphic control survives a comment between it and its image, and is
// attached to exactly that one image.
#[test]
fn pending_graphic_control_survives_comment() {
    let mut s = header89();
    s.extend_from_slice(&[0x01, 0x00, 0x01, 0x00, 0x80, 0x00, 0x00]);
    s.extend_from_slice(&[0x00, 0x00, 0x00, 0xff, 0xff, 0xff]);
    s.extend_from_slice(&[0x21, 0xf9, 0x04, 0x00, 0x0a, 0x00, 0x00, 0x00]);
    s.extend_from_slice(&[0x21, 0xfe]);
    s.extend_from_slice(&subblocks(b"abc"));
    s.extend_from_slice(&[0x2c, 0x00, 0x00, 0x00, 0x00, 0x01, 0x00, 0x01, 0x00, 0x00]);
    s.extend_from_slice(&[0x02, 0x02, 0x44, 0x01, 0x00]);
    // a second image without a graphic control
    s.extend_from_slice(&[0x2c, 0x00, 0x00, 0x00, 0x00, 0x01, 0x00, 0x01, 0x00, 0x00]);
    s.extend_from_slice(&[0x02, 0x02, 0x44, 0x01, 0x00]);
    s.push(0x3b);
    let mut decoder = Decoder::new(s);
    decoder.parse().expect("stream must parse");
    let frames = decoder.frames();
    assert_eq!(frames.len(), 2);
    assert_eq!(frames[0].delay(), 10);
    assert!(frames[0].extension.is_some());
    assert!(frames[1].extension.is_none());
}

// Extensions are collected in input order.
#[test]
fn extensions_keep_input_order() {
    let mut s = header89();
    s.extend_from_slice(&bare_screen());
    s.extend_from_slice(&[0x21, 0xfe]);
    s.extend_from_slice(&subblocks(b"first"));
    s.extend_from_slice(&[0x21, 0xff, 0x0b]);
    s.extend_from_slice(b"ABCDEFGHxyz");
    s.extend_from_slice(&subblocks(b"xy"));
    s.extend_from_slice(&[0x21, 0xfe]);
    s.extend_from_slice(&subblocks(b"second"));
    s.push(0x3b);
    let mut decoder = Decoder::new(s);
    decoder.parse().expect("stream must parse");
    let exts = decoder.extensions();
    assert_eq!(exts.len(), 3);
    match &exts[0] {
        SpecialPurposeExtension::CommentBlock(v) => assert_eq!(v, &b"first".to_vec()),
        other => panic!("expected a comment first, got {:?}", other),
    }
    match &exts[1] {
        SpecialPurposeExtension::ApplicationBlock {
            application_identifier,
            application_authentication_code,
            application_data,
        } => {
            assert_eq!(application_identifier, &b"ABCDEFGH".to_vec());
            assert_eq!(application_authentication_code, &b"xyz".to_vec());
            assert_eq!(application_data, &b"xy".to_vec());
        },
        other => panic!("expected an application block, got {:?}", other),
    }
    match &exts[2] {
        SpecialPurposeExtension::CommentBlock(v) => assert_eq!(v, &b"second".to_vec()),
        other => panic!("expected a comment last, got {:?}", other),
    }
}

// The parser stops at the first trailer byte: bytes after it are never
// read.
#[test]
fn parser_stops_at_trailer() {
    let mut s = one_black_pixel();
    let trailer_pos = s.len();
    s.extend_from_slice(&[0xde, 0xad, 0xbe, 0xef]);
    let mut decoder = Decoder::new(s);
    decoder.parse().expect("stream must parse");
    assert_eq!(decoder.pos, trailer_pos);
    assert_eq!(decoder.data[decoder.pos - 1], 0x3b);
}

// Round trip through the reference encoder: the decoded indices of the
// frame reproduce the pixel data bit-exactly.
#[test]
fn encoder_round_trip() {
    let pixels: Vec<u8> = vec![0, 1, 2, 3, 3, 2, 1, 0, 0, 0, 1, 1, 2, 2, 3, 3];
    let mut s = header89();
    // 4x4 screen with a four-entry global palette
    s.extend_from_slice(&[0x04, 0x00, 0x04, 0x00, 0x81, 0x00, 0x00]);
    s.extend_from_slice(&[
        0x00, 0x00, 0x00, 0xff, 0x00, 0x00, 0x00, 0xff, 0x00, 0x00, 0x00, 0xff,
    ]);
    s.extend_from_slice(&[0x2c, 0x00, 0x00, 0x00, 0x00, 0x04, 0x00, 0x04, 0x00, 0x00]);
    s.push(0x02);
    s.extend_from_slice(&subblocks(&lzw_encode(2, &pixels)));
    s.push(0x3b);
    let mut decoder = Decoder::new(s);
    decoder.parse().expect("stream must parse");
    let frames = decoder.frames();
    assert_eq!(frames.len(), 1);
    assert_eq!(frames[0].indicies().unwrap(), &pixels);
}

// Every frame carries exactly width x height indices; an overrunning
// stream is cut down to one index per pixel.
#[test]
fn index_count_matches_pixel_count() {
    let pixels: Vec<u8> = vec![0, 1, 1, 0];
    let mut s = header89();
    s.extend_from_slice(&[0x02, 0x00, 0x02, 0x00, 0x80, 0x00, 0x00]);
    s.extend_from_slice(&[0x00, 0x00, 0x00, 0xff, 0xff, 0xff]);
    // a 2x2 image, then a 1x1 image fed the same four-pixel stream
    s.extend_from_slice(&[0x2c, 0x00, 0x00, 0x00, 0x00, 0x02, 0x00, 0x02, 0x00, 0x00]);
    s.push(0x01);
    s.extend_from_slice(&subblocks(&lzw_encode(1, &pixels)));
    s.extend_from_slice(&[0x2c, 0x00, 0x00, 0x00, 0x00, 0x01, 0x00, 0x01, 0x00, 0x00]);
    s.push(0x01);
    s.extend_from_slice(&subblocks(&lzw_encode(1, &pixels)));
    s.push(0x3b);
    let mut decoder = Decoder::new(s);
    decoder.parse().expect("stream must parse");
    let frames = decoder.frames();
    assert_eq!(frames[0].indicies().unwrap(), &pixels);
    assert_eq!(frames[1].indicies().unwrap().len(), 1);
    assert_eq!(frames[1].indicies().unwrap()[0], 0);
}

#[test]
fn disposal_method_mapping() {
    assert_eq!(DisposalMethod::from_u8(0), None);
    assert_eq!(DisposalMethod::from_u8(1), Some(DisposalMethod::DoNotDispose));
    assert_eq!(
        DisposalMethod::from_u8(2),
        Some(DisposalMethod::RestoreToBackgroundColor)
    );
    assert_eq!(DisposalMethod::from_u8(3), Some(DisposalMethod::RestoreToPrevious));
    assert_eq!(DisposalMethod::from_u8(4), None);
}

// A plain text extension is consumed and discarded: it leaves no record
// and parsing continues behind it.
#[test]
fn plain_text_extension_is_skipped() {
    let mut s = header89();
    s.extend_from_slice(&bare_screen());
    s.extend_from_slice(&[0x21, 0x01, 0x0c]);
    s.extend_from_slice(&[0u8; 12]);
    s.extend_from_slice(&subblocks(b"hello"));
    s.push(0x3b);
    let mut decoder = Decoder::new(s);
    decoder.parse().expect("stream must parse");
    assert_eq!(decoder.extensions().len(), 0);
    assert_eq!(decoder.frames().len(), 0);
}

#[test]
fn wrong_plain_text_size_fails() {
    let mut s = header89();
    s.extend_from_slice(&bare_screen());
    s.extend_from_slice(&[0x21, 0x01, 0x0b]);
    let mut decoder = Decoder::new(s);
    assert_eq!(
        decoder.parse(),
        Err(ParserError::MalformedExtensionBlockSize { label: 0x01, expected: 12, actual: 11 })
    );
}

// The packed graphic control fields land in the right record fields.
#[test]
fn graphic_control_fields_are_unpacked() {
    let mut s = header89();
    s.extend_from_slice(&[0x01, 0x00, 0x01, 0x00, 0x80, 0x00, 0x00]);
    s.extend_from_slice(&[0x00, 0x00, 0x00, 0xff, 0xff, 0xff]);
    // disposal 1, user input set, transparent set; delay 0x0102; index 7
    s.extend_from_slice(&[0x21, 0xf9, 0x04, 0x07, 0x02, 0x01, 0x07, 0x00]);
    s.extend_from_slice(&[0x2c, 0x00, 0x00, 0x00, 0x00, 0x01, 0x00, 0x01, 0x00, 0x00]);
    s.extend_from_slice(&[0x02, 0x02, 0x44, 0x01, 0x00]);
    s.push(0x3b);
    let mut decoder = Decoder::new(s);
    decoder.parse().expect("stream must parse");
    let gce = decoder.frames()[0].extension.expect("the frame must carry its graphic control");
    assert_eq!(gce.disposal_method, 1);
    assert!(gce.user_input_flag);
    assert!(gce.transparent_color_flag);
    assert_eq!(gce.delay_time, 0x0102);
    assert_eq!(gce.transparent_color_index, 7);
}

// The packed screen descriptor fields land in the right record fields,
// and the advertised global palette bytes are stored as given.
#[test]
fn screen_descriptor_fields_are_unpacked() {
    let mut s = header89();
    s.extend_from_slice(&[0x02, 0x01, 0x04, 0x03, 0xab, 0x05, 0x09]);
    let palette: Vec<u8> = (0..48).collect();
    s.extend_from_slice(&palette);
    s.push(0x3b);
    let mut decoder = Decoder::new(s);
    decoder.parse().expect("stream must parse");
    assert_eq!(decoder.stream_version(), Some(Version::V89a));
    let lsd = decoder.screen_descriptor().expect("descriptor must be recorded");
    assert_eq!(lsd.screen_width, 0x0102);
    assert_eq!(lsd.screen_height, 0x0304);
    assert!(lsd.global_color_table_flag);
    assert_eq!(lsd.color_resolution, 2);
    assert!(lsd.sort_flag);
    assert_eq!(lsd.global_color_table_size, Some(16));
    assert_eq!(lsd.background_color_index, 5);
    assert_eq!(lsd.pixel_aspect_ratio, 9);
    assert_eq!(decoder.global_palette().as_ref().unwrap(), &palette);
}

// A frame with neither a local nor a global palette has none in scope.
#[test]
fn no_palette_in_scope() {
    let mut s = header89();
    s.extend_from_slice(&bare_screen());
    s.extend_from_slice(&[0x2c, 0x00, 0x00, 0x00, 0x00, 0x01, 0x00, 0x01, 0x00, 0x00]);
    s.extend_from_slice(&[0x02, 0x02, 0x44, 0x01, 0x00]);
    s.push(0x3b);
    let mut decoder = Decoder::new(s);
    decoder.parse().expect("stream must parse");
    assert!(decoder.frames()[0].palette(decoder.global_palette()).is_none());
}

// A recognized vendor block whose marker byte is not 1 is kept as an
// extension but sets no loop directive.
#[test]
fn netscape_wrong_marker_sets_no_loop() {
    let mut s = header89();
    s.extend_from_slice(&bare_screen());
    s.extend_from_slice(&[0x21, 0xff, 0x0b]);
    s.extend_from_slice(b"NETSCAPE2.0");
    s.extend_from_slice(&[0x03, 0x02, 0x07, 0x00, 0x00]);
    s.push(0x3b);
    let mut decoder = Decoder::new(s);
    decoder.parse().expect("stream must parse");
    assert_eq!(decoder.loop_directive_count(), None);
    assert_eq!(decoder.extensions().len(), 1);
}
