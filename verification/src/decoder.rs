//! The block-oriented stream parser: a state machine that consumes an
//! 87a/89a byte stream forward-only and collects the screen descriptor,
//! palettes, extensions, and fully decoded frames.

use vstd::prelude::*;
use crate::error::ParserError;
use crate::lzw::{lzw_decode, lzw_spec};

verus! {

pub const EXTENSION_INTRODUCER: u8 = 0x21;
pub const IMAGE_DESCRIPTOR_LABEL: u8 = 0x2c;
pub const TRAILER_LABEL: u8 = 0x3b;

// Extension labels
pub const APPLICATION_EXTENSION: u8 = 0xff;
pub const COMMENT_EXTENSION: u8 = 0xfe;
pub const GRAPHIC_CONTROL_EXTENSION: u8 = 0xf9;
pub const PLAIN_TEXT_EXTENSION: u8 = 0x01;

/// Per-frame timing and transparency metadata. Its scope is the single
/// following image block; it is consumed when that image is assembled.
#[derive(Debug, Clone, Copy, PartialEq, Eq, Structural)]
pub struct GraphicControlExtension {
    /// Disposal method, already validated to lie in 0..=3.
    pub disposal_method: u8,
    pub user_input_flag: bool,
    pub transparent_color_flag: bool,
    /// Delay before the next frame, in hundredths of a second.
    pub delay_time: u16,
    pub transparent_color_index: u8,
}

/// An image descriptor together with its optional local palette and, once
/// decompressed, its palette-index buffer.
#[derive(Debug, Clone)]
pub struct TableBasedImage {
    pub left_position: u16,
    pub top_position: u16,
    pub width: u16,
    pub height: u16,
    pub local_color_table_flag: bool,
    pub interlace_flag: bool,
    pub sort_flag: bool,
    /// Number of local palette entries (not bytes), when the flag is set.
    pub local_color_table_size: Option<u32>,
    /// The local palette as `3 × entries` bytes, when the flag is set.
    pub local_color_table: Option<Vec<u8>>,
    /// One palette index per pixel, row-major, after decompression.
    pub image_indexes: Option<Vec<u8>>,
}

/// A decoded frame: an image bound to its at-most-one graphic control.
#[derive(Debug, Clone)]
pub struct GraphicBlock {
    pub extension: Option<GraphicControlExtension>,
    pub render_block: TableBasedImage,
}

/// A comment or application extension, collected in encounter order.
#[derive(Debug, Clone)]
pub enum SpecialPurposeExtension {
    ApplicationBlock {
        /// Eight identifier bytes.
        application_identifier: Vec<u8>,
        /// Three authentication bytes.
        application_authentication_code: Vec<u8>,
        /// The concatenated data sub-blocks.
        application_data: Vec<u8>,
    },
    CommentBlock(Vec<u8>),
}

/// The stream version recorded in the header.
#[derive(Debug, Clone, Copy, PartialEq, Eq, Structural)]
pub enum Version {
    V87a,
    V89a,
}

/// The animation repeat count from the vendor loop directive; zero in the
/// stream denotes an unbounded loop.
#[derive(Debug, Clone, Copy, PartialEq, Eq, Structural)]
pub enum LoopCount {
    Infinite,
    Number(u16),
}

/// The stream-level descriptor that follows the header.
#[derive(Debug, Clone, Copy, PartialEq, Eq, Structural)]
pub struct LogicalScreenDescriptor {
    pub screen_width: u16,
    pub screen_height: u16,
    pub global_color_table_flag: bool,
    pub color_resolution: u8,
    pub sort_flag: bool,
    /// Number of global palette entries (not bytes), when the flag is set.
    pub global_color_table_size: Option<u32>,
    pub background_color_index: u8,
    pub pixel_aspect_ratio: u8,
}

/// The parser's position in the block grammar, with the data a state
/// carries across transitions: a pending graphic control waiting for its
/// image, or a frame under construction.
#[derive(Debug)]
pub enum ParserState {
    ProcessMagic,
    ProcessLogicalScreenDescriptor,
    ProcessGlobalColorTable,
    ProcessTrailer,
    DetermineNextBlock(Option<GraphicControlExtension>),
    ProcessExtension(u8, Option<GraphicControlExtension>),
    ProcessImageDescriptor(Option<GraphicControlExtension>),
    ProcessLocalColorTable(GraphicBlock),
    ProcessImageData(GraphicBlock),
    Done,
}

/// Forward-only decoder over an owned byte buffer. All records live here
/// once `parse` succeeds; on an error the decoder must be discarded.
#[derive(Debug)]
pub struct Decoder {
    /// The input byte stream.
    pub data: Vec<u8>,
    /// Cursor: index of the next unread byte.
    pub pos: usize,
    pub version: Option<Version>,
    pub logical_screen_descriptor: Option<LogicalScreenDescriptor>,
    /// The global palette as `3 × entries` bytes, when present.
    pub global_color_table: Option<Vec<u8>>,
    pub special_purpose_extensions: Vec<SpecialPurposeExtension>,
    pub graphic_blocks: Vec<GraphicBlock>,
    pub loop_count: Option<LoopCount>,
}

/// The little-endian 16-bit value at byte offset `pos`.
pub open spec fn u16_at(data: Seq<u8>, pos: int) -> u16
    recommends
        0 <= pos && pos + 2 <= data.len(),
{
    (data[pos] + 256 * data[pos + 1]) as u16
}

/// The concatenated payload of the length-prefixed sub-block chain at
/// `pos`, and the position just past its zero terminator. Fails when the
/// input ends before a length byte, inside an advertised block, or before
/// the terminator.
pub open spec fn subblocks_spec(data: Seq<u8>, pos: int) -> Result<
    (Seq<u8>, int),
    ParserError,
>
    decreases data.len() - pos,
{
    if pos < 0 || pos >= data.len() {
        Err(ParserError::UnexpectedEof)
    } else {
        let l = data[pos] as int;
        if l == 0 {
            Ok((Seq::empty(), pos + 1))
        } else if pos + 1 + l > data.len() {
            Err(ParserError::UnexpectedEof)
        } else {
            match subblocks_spec(data, pos + 1 + l) {
                Ok((rest, end)) => Ok((data.subrange(pos + 1, pos + 1 + l) + rest, end)),
                Err(e) => Err(e),
            }
        }
    }
}

/// Prefixes already-collected payload onto the rest of a sub-block chain.
spec fn subblocks_compose(prefix: Seq<u8>, r: Result<(Seq<u8>, int), ParserError>) -> Result<
    (Seq<u8>, int),
    ParserError,
> {
    match r {
        Ok((rest, end)) => Ok((prefix + rest, end)),
        Err(e) => Err(e),
    }
}

/// The ASCII signature bytes `G I F`.
pub open spec fn is_sig(s: Seq<u8>) -> bool {
    s.len() == 3 && s[0] == 0x47 && s[1] == 0x49 && s[2] == 0x46
}

/// The ASCII version bytes `8 7 a`.
pub open spec fn is_v87a(s: Seq<u8>) -> bool {
    s.len() == 3 && s[0] == 0x38 && s[1] == 0x37 && s[2] == 0x61
}

/// The ASCII version bytes `8 9 a`.
pub open spec fn is_v89a(s: Seq<u8>) -> bool {
    s.len() == 3 && s[0] == 0x38 && s[1] == 0x39 && s[2] == 0x61
}

/// The eight ASCII identifier bytes `N E T S C A P E` at `p`.
pub open spec fn is_netscape(d: Seq<u8>, p: int) -> bool {
    &&& d[p] == 0x4e
    &&& d[p + 1] == 0x45
    &&& d[p + 2] == 0x54
    &&& d[p + 3] == 0x53
    &&& d[p + 4] == 0x43
    &&& d[p + 5] == 0x41
    &&& d[p + 6] == 0x50
    &&& d[p + 7] == 0x45
}

/// The three ASCII authentication bytes `2 . 0` at `p`.
pub open spec fn is_auth20(d: Seq<u8>, p: int) -> bool {
    d[p] == 0x32 && d[p + 1] == 0x2e && d[p + 2] == 0x30
}

/// The palette entry count a packed field encodes: `2^(N + 1)` for the
/// low three bits `N`.
pub open spec fn packed_entries(packed: u8) -> u32 {
    1u32 << (((packed & 7) + 1) as u32)
}

/// A produced frame always carries its index buffer, never longer than
/// one index per pixel.
pub open spec fn frame_wf(gb: GraphicBlock) -> bool {
    gb.render_block.image_indexes matches Some(ix) && ix@.len()
        <= gb.render_block.width as int * gb.render_block.height as int
}

/// What a state assumes of the records gathered so far; `parse` maintains
/// it, and each step re-establishes it for the state it hands back.
pub open spec fn state_inv(d: Decoder, s: ParserState) -> bool {
    match s {
        ParserState::ProcessGlobalColorTable => {
            &&& d.logical_screen_descriptor matches Some(l)
            &&& l.global_color_table_size matches Some(sz)
            &&& 2 <= sz <= 256
        },
        ParserState::ProcessLocalColorTable(gb) => {
            &&& gb.render_block.local_color_table_size matches Some(sz)
            &&& 2 <= sz <= 256
        },
        _ => true,
    }
}

/// Rank for termination: every step either consumes input or moves from
/// the trailer state to the terminal one.
pub open spec fn state_rank(s: ParserState) -> int {
    match s {
        ParserState::Done => 0,
        ParserState::ProcessTrailer => 1,
        _ => 2,
    }
}

impl Decoder {
    /// Stream-level records (version, screen descriptor, global palette)
    /// untouched.
    pub open spec fn same_stream_meta(&self, other: &Decoder) -> bool {
        &&& other.version == self.version
        &&& other.logical_screen_descriptor == self.logical_screen_descriptor
        &&& other.global_color_table == self.global_color_table
    }

    /// The cursor stays inside the buffer, and the buffer is small enough
    /// for its bit-length to be representable.
    pub open spec fn wf(&self) -> bool {
        &&& self.pos <= self.data@.len()
        &&& self.data@.len() * 8 <= usize::MAX
    }

    /// The collected records, untouched.
    pub open spec fn same_records(&self, other: &Decoder) -> bool {
        &&& other.version == self.version
        &&& other.logical_screen_descriptor == self.logical_screen_descriptor
        &&& other.global_color_table == self.global_color_table
        &&& other.special_purpose_extensions == self.special_purpose_extensions
        &&& other.graphic_blocks == self.graphic_blocks
        &&& other.loop_count == self.loop_count
    }

    pub fn new(data: Vec<u8>) -> (r: Self)
        requires
            data@.len() * 8 <= usize::MAX,
        ensures
            r.wf(),
            r.data == data,
            r.pos == 0,
            r.version is None,
            r.logical_screen_descriptor is None,
            r.global_color_table is None,
            r.special_purpose_extensions@ == Seq::<SpecialPurposeExtension>::empty(),
            r.graphic_blocks@ == Seq::<GraphicBlock>::empty(),
            r.loop_count is None,
    {
        Self {
            data,
            pos: 0,
            version: None,
            logical_screen_descriptor: None,
            global_color_table: None,
            special_purpose_extensions: Vec::new(),
            graphic_blocks: Vec::new(),
            loop_count: None,
        }
    }

    /// Reads one byte and advances, or fails at the end of input.
    pub fn read_byte(&mut self) -> (r: Result<u8, ParserError>)
        requires
            old(self).wf(),
        ensures
            final(self).wf(),
            final(self).data == old(self).data,
            old(self).same_records(final(self)),
            old(self).pos < old(self).data@.len() ==> {
                &&& r == Ok::<u8, ParserError>(old(self).data@[old(self).pos as int])
                &&& final(self).pos == old(self).pos + 1
            },
            old(self).pos >= old(self).data@.len() ==> {
                &&& r == Err::<u8, ParserError>(ParserError::UnexpectedEof)
                &&& final(self).pos == old(self).pos
            },
    {
        if self.pos < self.data.len() {
            let b = self.data[self.pos];
            self.pos = self.pos + 1;
            Ok(b)
        } else {
            Err(ParserError::UnexpectedEof)
        }
    }

    /// Reads a little-endian 16-bit value and advances, or fails at the
    /// end of input.
    pub fn read_u16(&mut self) -> (r: Result<u16, ParserError>)
        requires
            old(self).wf(),
        ensures
            final(self).wf(),
            final(self).data == old(self).data,
            old(self).same_records(final(self)),
            old(self).pos + 2 <= old(self).data@.len() ==> {
                &&& r == Ok::<u16, ParserError>(u16_at(old(self).data@, old(self).pos as int))
                &&& final(self).pos == old(self).pos + 2
            },
            old(self).pos + 2 > old(self).data@.len() ==> r == Err::<u16, ParserError>(
                ParserError::UnexpectedEof,
            ),
    {
        let lo = self.read_byte()?;
        let hi = self.read_byte()?;
        Ok(lo as u16 + 256 * hi as u16)
    }

    /// Reads `count` bytes as an owned buffer and advances, or fails at
    /// the end of input.
    pub fn read_bytes(&mut self, count: usize) -> (r: Result<Vec<u8>, ParserError>)
        requires
            old(self).wf(),
        ensures
            final(self).wf(),
            final(self).data == old(self).data,
            old(self).same_records(final(self)),
            old(self).pos + count <= old(self).data@.len() ==> {
                &&& r matches Ok(v) && v@ == old(self).data@.subrange(
                    old(self).pos as int,
                    old(self).pos + count,
                )
                &&& final(self).pos == old(self).pos + count
            },
            old(self).pos + count > old(self).data@.len() ==> {
                &&& r == Err::<Vec<u8>, ParserError>(ParserError::UnexpectedEof)
                &&& final(self).pos == old(self).pos
            },
    {
        if count > self.data.len() - self.pos {
            return Err(ParserError::UnexpectedEof);
        }
        let mut v: Vec<u8> = Vec::new();
        let mut i: usize = 0;
        while i < count
            invariant
                self.wf(),
                i <= count,
                self.pos + count <= self.data@.len(),
                v@ == self.data@.subrange(self.pos as int, self.pos + i),
            decreases count - i,
        {
            let b = self.data[self.pos + i];
            v.push(b);
            assert(v@ =~= self.data@.subrange(self.pos as int, self.pos + i + 1));
            i = i + 1;
        }
        self.pos = self.pos + count;
        Ok(v)
    }

    /// Reads `count` bytes of an ASCII field, returned raw, or fails at
    /// the end of input.
    pub fn read_str(&mut self, count: usize) -> (r: Result<Vec<u8>, ParserError>)
        requires
            old(self).wf(),
        ensures
            final(self).wf(),
            final(self).data == old(self).data,
            old(self).same_records(final(self)),
            old(self).pos + count <= old(self).data@.len() ==> {
                &&& r matches Ok(v) && v@ == old(self).data@.subrange(
                    old(self).pos as int,
                    old(self).pos + count,
                )
                &&& final(self).pos == old(self).pos + count
            },
            old(self).pos + count > old(self).data@.len() ==> {
                &&& r == Err::<Vec<u8>, ParserError>(ParserError::UnexpectedEof)
                &&& final(self).pos == old(self).pos
            },
    {
        self.read_bytes(count)
    }

    /// Reads a length-prefixed sub-block chain through its terminator and
    /// returns the concatenated payload.
    pub fn read_data_sub_blocks(&mut self) -> (r: Result<Vec<u8>, ParserError>)
        requires
            old(self).wf(),
        ensures
            final(self).wf(),
            final(self).data == old(self).data,
            old(self).same_records(final(self)),
            match subblocks_spec(old(self).data@, old(self).pos as int) {
                Ok((payload, end)) => {
                    &&& r matches Ok(v) && v@ == payload
                    &&& final(self).pos == end
                },
                Err(e) => r == Err::<Vec<u8>, ParserError>(e),
            },
            r matches Ok(v) ==> v@.len() <= final(self).pos - old(self).pos,
    {
        let ghost d = self.data@;
        let ghost pos0 = self.pos as int;
        let mut out: Vec<u8> = Vec::new();
        assert(Seq::<u8>::empty() + subblocks_spec(d, pos0)->Ok_0.0 =~= subblocks_spec(
            d,
            pos0,
        )->Ok_0.0);
        loop
            invariant
                self.wf(),
                self.data@ == d,
                pos0 == old(self).pos as int,
                pos0 <= self.pos,
                old(self).same_records(self),
                self.data == old(self).data,
                out@.len() <= self.pos - pos0,
                subblocks_compose(out@, subblocks_spec(d, self.pos as int)) == subblocks_spec(
                    d,
                    pos0,
                ),
            decreases d.len() - self.pos,
        {
            let ghost p = self.pos as int;
            let ghost state_run = subblocks_spec(d, p);
            let block_size = match self.read_byte() {
                Ok(b) => b,
                Err(e) => {
                    assert(state_run == Err::<(Seq<u8>, int), ParserError>(
                        ParserError::UnexpectedEof,
                    ));
                    return Err(e);
                },
            };
            if block_size == 0 {
                assert(state_run == Ok::<(Seq<u8>, int), ParserError>((Seq::empty(), p + 1)));
                assert(out@ + Seq::<u8>::empty() =~= out@);
                return Ok(out);
            }
            let ghost out0 = out@;
            let chunk = match self.read_bytes(block_size as usize) {
                Ok(v) => v,
                Err(e) => {
                    assert(state_run == Err::<(Seq<u8>, int), ParserError>(
                        ParserError::UnexpectedEof,
                    ));
                    return Err(e);
                },
            };
            let ghost piece = d.subrange(p + 1, p + 1 + block_size as int);
            let mut chunk = chunk;
            out.append(&mut chunk);
            proof {
                assert(out@ == out0 + piece);
                let rec = subblocks_spec(d, p + 1 + block_size as int);
                assert(state_run == subblocks_compose(piece, rec));
                match rec {
                    Ok((rest, end)) => {
                        assert(out0 + (piece + rest) =~= (out0 + piece) + rest);
                    },
                    Err(_) => {},
                }
            }
        }
    }
}

/// Effect of the header state: six bytes checked and the version
/// recorded, or the exact failure.
pub open spec fn magic_post(pre: Decoder, post: Decoder, r: Result<ParserState, ParserError>) -> bool {
    let d = pre.data@;
    let p = pre.pos as int;
    if p + 3 > d.len() {
        r == Err::<ParserState, ParserError>(ParserError::UnexpectedEof) && pre.same_records(&post)
    } else if !is_sig(d.subrange(p, p + 3)) {
        r == Err::<ParserState, ParserError>(ParserError::InvalidSignature) && pre.same_records(
            &post,
        )
    } else if p + 6 > d.len() {
        r == Err::<ParserState, ParserError>(ParserError::UnexpectedEof) && pre.same_records(&post)
    } else if is_v87a(d.subrange(p + 3, p + 6)) {
        &&& r == Ok::<ParserState, ParserError>(ParserState::ProcessLogicalScreenDescriptor)
        &&& post.pos == p + 6
        &&& post.version == Some(Version::V87a)
        &&& post.logical_screen_descriptor == pre.logical_screen_descriptor
        &&& post.global_color_table == pre.global_color_table
        &&& post.special_purpose_extensions == pre.special_purpose_extensions
        &&& post.graphic_blocks == pre.graphic_blocks
        &&& post.loop_count == pre.loop_count
    } else if is_v89a(d.subrange(p + 3, p + 6)) {
        &&& r == Ok::<ParserState, ParserError>(ParserState::ProcessLogicalScreenDescriptor)
        &&& post.pos == p + 6
        &&& post.version == Some(Version::V89a)
        &&& post.logical_screen_descriptor == pre.logical_screen_descriptor
        &&& post.global_color_table == pre.global_color_table
        &&& post.special_purpose_extensions == pre.special_purpose_extensions
        &&& post.graphic_blocks == pre.graphic_blocks
        &&& post.loop_count == pre.loop_count
    } else {
        &&& r matches Err(e)
        &&& e matches ParserError::UnsupportedVersion(v) && v@ == d.subrange(p + 3, p + 6)
        &&& pre.same_records(&post)
    }
}

/// Effect of the logical screen descriptor state: seven bytes parsed into
/// the descriptor, then on to the global palette when its flag is set.
pub open spec fn lsd_post(pre: Decoder, post: Decoder, r: Result<ParserState, ParserError>) -> bool {
    let d = pre.data@;
    let p = pre.pos as int;
    if p + 7 > d.len() {
        r == Err::<ParserState, ParserError>(ParserError::UnexpectedEof) && pre.same_records(&post)
    } else {
        let packed = d[p + 4];
        let gctf = packed & 0x80 != 0;
        let lsd = (LogicalScreenDescriptor {
            screen_width: u16_at(d, p),
            screen_height: u16_at(d, p + 2),
            global_color_table_flag: gctf,
            color_resolution: (packed >> 4) & 7,
            sort_flag: packed & 8 != 0,
            global_color_table_size: if gctf {
                Some(packed_entries(packed))
            } else {
                None
            },
            background_color_index: d[p + 5],
            pixel_aspect_ratio: d[p + 6],
        });
        &&& r == Ok::<ParserState, ParserError>(
            if gctf {
                ParserState::ProcessGlobalColorTable
            } else {
                ParserState::DetermineNextBlock(None)
            },
        )
        &&& post.pos == p + 7
        &&& post.logical_screen_descriptor == Some(lsd)
        &&& post.version == pre.version
        &&& post.global_color_table == pre.global_color_table
        &&& post.special_purpose_extensions == pre.special_purpose_extensions
        &&& post.graphic_blocks == pre.graphic_blocks
        &&& post.loop_count == pre.loop_count
    }
}

/// Effect of the global palette state: `3 × entries` bytes stored.
pub open spec fn gct_post(pre: Decoder, post: Decoder, r: Result<ParserState, ParserError>) -> bool {
    let d = pre.data@;
    let p = pre.pos as int;
    let sz = pre.logical_screen_descriptor->Some_0.global_color_table_size->Some_0 as int;
    if p + 3 * sz > d.len() {
        r == Err::<ParserState, ParserError>(ParserError::UnexpectedEof) && pre.same_records(&post)
    } else {
        &&& r == Ok::<ParserState, ParserError>(ParserState::DetermineNextBlock(None))
        &&& post.pos == p + 3 * sz
        &&& post.global_color_table matches Some(t) && t@ == d.subrange(p, p + 3 * sz)
        &&& post.version == pre.version
        &&& post.logical_screen_descriptor == pre.logical_screen_descriptor
        &&& post.special_purpose_extensions == pre.special_purpose_extensions
        &&& post.graphic_blocks == pre.graphic_blocks
        &&& post.loop_count == pre.loop_count
    }
}

/// Effect of the dispatch state: one introducer byte read and routed; a
/// trailer with a pending graphic control still waiting is refused.
pub open spec fn dispatch_post(
    pre: Decoder,
    post: Decoder,
    g: Option<GraphicControlExtension>,
    r: Result<ParserState, ParserError>,
) -> bool {
    let d = pre.data@;
    let p = pre.pos as int;
    if p >= d.len() {
        r == Err::<ParserState, ParserError>(ParserError::UnexpectedEof) && pre.same_records(&post)
    } else {
        let b = d[p];
        if b == EXTENSION_INTRODUCER {
            if p + 1 >= d.len() {
                r == Err::<ParserState, ParserError>(ParserError::UnexpectedEof)
                    && pre.same_records(&post)
            } else {
                &&& r == Ok::<ParserState, ParserError>(
                    ParserState::ProcessExtension(d[p + 1], g),
                )
                &&& post.pos == p + 2
                &&& pre.same_records(&post)
            }
        } else if b == IMAGE_DESCRIPTOR_LABEL {
            &&& r == Ok::<ParserState, ParserError>(ParserState::ProcessImageDescriptor(g))
            &&& post.pos == p + 1
            &&& pre.same_records(&post)
        } else if b == TRAILER_LABEL {
            if g is Some {
                r == Err::<ParserState, ParserError>(ParserError::ExpectedImageAfterGraphicControl)
                    && pre.same_records(&post)
            } else {
                &&& r == Ok::<ParserState, ParserError>(ParserState::ProcessTrailer)
                &&& post.pos == p + 1
                &&& pre.same_records(&post)
            }
        } else {
            r == Err::<ParserState, ParserError>(ParserError::UnexpectedBlockLabel(b))
                && pre.same_records(&post)
        }
    }
}

/// Effect of a graphic control extension: its five fixed bytes validated
/// and parsed into a pending record; a second pending record is refused.
pub open spec fn gce_post(
    pre: Decoder,
    post: Decoder,
    g: Option<GraphicControlExtension>,
    r: Result<ParserState, ParserError>,
) -> bool {
    let d = pre.data@;
    let p = pre.pos as int;
    if g is Some {
        r == Err::<ParserState, ParserError>(ParserError::UnexpectedGraphicControl)
            && pre.same_records(&post)
    } else if p >= d.len() {
        r == Err::<ParserState, ParserError>(ParserError::UnexpectedEof) && pre.same_records(&post)
    } else if d[p] != 4 {
        &&& r == Err::<ParserState, ParserError>(
            ParserError::MalformedExtensionBlockSize {
                label: GRAPHIC_CONTROL_EXTENSION,
                expected: 4,
                actual: d[p],
            },
        )
        &&& pre.same_records(&post)
    } else if p + 2 > d.len() {
        r == Err::<ParserState, ParserError>(ParserError::UnexpectedEof) && pre.same_records(&post)
    } else {
        let packed = d[p + 1];
        let disposal = (packed >> 2) & 7;
        if disposal > 3 {
            r == Err::<ParserState, ParserError>(ParserError::InvalidDisposalMethod(disposal))
                && pre.same_records(&post)
        } else if p + 6 > d.len() {
            r == Err::<ParserState, ParserError>(ParserError::UnexpectedEof) && pre.same_records(
                &post,
            )
        } else if d[p + 5] != 0 {
            &&& r == Err::<ParserState, ParserError>(
                ParserError::MalformedExtensionBlockSize {
                    label: GRAPHIC_CONTROL_EXTENSION,
                    expected: 0,
                    actual: d[p + 5],
                },
            )
            &&& pre.same_records(&post)
        } else {
            let gce = (GraphicControlExtension {
                disposal_method: disposal,
                user_input_flag: packed & 2 != 0,
                transparent_color_flag: packed & 1 != 0,
                delay_time: u16_at(d, p + 2),
                transparent_color_index: d[p + 4],
            });
            &&& r == Ok::<ParserState, ParserError>(ParserState::DetermineNextBlock(Some(gce)))
            &&& post.pos == p + 6
            &&& pre.same_records(&post)
        }
    }
}

/// Effect of a comment extension: its sub-block payload collected; a
/// pending graphic control survives it.
pub open spec fn comment_post(
    pre: Decoder,
    post: Decoder,
    g: Option<GraphicControlExtension>,
    r: Result<ParserState, ParserError>,
) -> bool {
    let d = pre.data@;
    let p = pre.pos as int;
    match subblocks_spec(d, p) {
        Err(e) => r == Err::<ParserState, ParserError>(e) && pre.same_records(&post),
        Ok((payload, end)) => {
            &&& r == Ok::<ParserState, ParserError>(ParserState::DetermineNextBlock(g))
            &&& post.pos == end
            &&& post.special_purpose_extensions@.len() == pre.special_purpose_extensions@.len() + 1
            &&& post.special_purpose_extensions@.subrange(
                0,
                pre.special_purpose_extensions@.len() as int,
            ) == pre.special_purpose_extensions@
            &&& post.special_purpose_extensions@.last() matches SpecialPurposeExtension::CommentBlock(v)
                && v@ == payload
            &&& pre.same_stream_meta(&post)
            &&& post.graphic_blocks == pre.graphic_blocks
            &&& post.loop_count == pre.loop_count
        },
    }
}

/// The loop count three recognized payload bytes carry: a little-endian
/// count after the marker byte; zero denotes an unbounded loop.
pub open spec fn loop_directive(payload: Seq<u8>) -> LoopCount {
    let n = u16_at(payload, 1);
    if n == 0 {
        LoopCount::Infinite
    } else {
        LoopCount::Number(n)
    }
}

/// Effect of an application extension: identifier, authentication code,
/// and payload collected; the vendor loop directive, when recognized,
/// must carry exactly three payload bytes and sets the loop count.
pub open spec fn app_post(
    pre: Decoder,
    post: Decoder,
    g: Option<GraphicControlExtension>,
    r: Result<ParserState, ParserError>,
) -> bool {
    let d = pre.data@;
    let p = pre.pos as int;
    if p >= d.len() {
        r == Err::<ParserState, ParserError>(ParserError::UnexpectedEof) && pre.same_records(&post)
    } else if d[p] != 11 {
        &&& r == Err::<ParserState, ParserError>(
            ParserError::MalformedExtensionBlockSize {
                label: APPLICATION_EXTENSION,
                expected: 11,
                actual: d[p],
            },
        )
        &&& pre.same_records(&post)
    } else if p + 12 > d.len() {
        r == Err::<ParserState, ParserError>(ParserError::UnexpectedEof) && pre.same_records(&post)
    } else {
        match subblocks_spec(d, p + 12) {
            Err(e) => r == Err::<ParserState, ParserError>(e) && pre.same_records(&post),
            Ok((payload, end)) => app_body_post(pre, post, g, payload, end, r),
        }
    }
}

/// Effect of an application extension once its payload has been read.
/// A recognized vendor block must carry exactly three payload bytes;
/// its loop count is recorded only when the marker byte is 1.
pub open spec fn app_body_post(
    pre: Decoder,
    post: Decoder,
    g: Option<GraphicControlExtension>,
    payload: Seq<u8>,
    end: int,
    r: Result<ParserState, ParserError>,
) -> bool {
    let d = pre.data@;
    let p = pre.pos as int;
    let ns = is_netscape(d, p + 1) && is_auth20(d, p + 9);
    if ns && payload.len() != 3 {
        &&& r matches Err(e)
        &&& (e matches ParserError::ApplicationDataLengthMismatch {
            identifier,
            expected,
            actual,
        } && identifier@ == d.subrange(p + 1, p + 9) && expected == 3 && actual == payload.len())
        &&& pre.same_records(&post)
    } else {
        &&& r == Ok::<ParserState, ParserError>(ParserState::DetermineNextBlock(g))
        &&& post.pos == end
        &&& post.special_purpose_extensions@.len() == pre.special_purpose_extensions@.len() + 1
        &&& post.special_purpose_extensions@.subrange(
            0,
            pre.special_purpose_extensions@.len() as int,
        ) == pre.special_purpose_extensions@
        &&& (post.special_purpose_extensions@.last()
            matches SpecialPurposeExtension::ApplicationBlock {
            application_identifier,
            application_authentication_code,
            application_data,
        } && application_identifier@ == d.subrange(p + 1, p + 9)
            && application_authentication_code@ == d.subrange(p + 9, p + 12)
            && application_data@ == payload)
        &&& (ns && payload[0] == 1 ==> post.loop_count == Some(loop_directive(payload)))
        &&& (!(ns && payload[0] == 1) ==> post.loop_count == pre.loop_count)
        &&& pre.same_stream_meta(&post)
        &&& post.graphic_blocks == pre.graphic_blocks
    }
}

/// Effect of a plain text extension: its fixed block and payload are
/// consumed and discarded.
pub open spec fn plain_text_post(
    pre: Decoder,
    post: Decoder,
    g: Option<GraphicControlExtension>,
    r: Result<ParserState, ParserError>,
) -> bool {
    let d = pre.data@;
    let p = pre.pos as int;
    if p >= d.len() {
        r == Err::<ParserState, ParserError>(ParserError::UnexpectedEof) && pre.same_records(&post)
    } else if d[p] != 12 {
        &&& r == Err::<ParserState, ParserError>(
            ParserError::MalformedExtensionBlockSize {
                label: PLAIN_TEXT_EXTENSION,
                expected: 12,
                actual: d[p],
            },
        )
        &&& pre.same_records(&post)
    } else if p + 13 > d.len() {
        r == Err::<ParserState, ParserError>(ParserError::UnexpectedEof) && pre.same_records(&post)
    } else {
        match subblocks_spec(d, p + 13) {
            Err(e) => r == Err::<ParserState, ParserError>(e) && pre.same_records(&post),
            Ok((payload, end)) => {
                &&& r == Ok::<ParserState, ParserError>(ParserState::DetermineNextBlock(g))
                &&& post.pos == end
                &&& pre.same_records(&post)
            },
        }
    }
}

/// Effect of an extension, by label: unknown labels are refused.
pub open spec fn ext_post(
    pre: Decoder,
    post: Decoder,
    label: u8,
    g: Option<GraphicControlExtension>,
    r: Result<ParserState, ParserError>,
) -> bool {
    if label == GRAPHIC_CONTROL_EXTENSION {
        gce_post(pre, post, g, r)
    } else if label == COMMENT_EXTENSION {
        comment_post(pre, post, g, r)
    } else if label == APPLICATION_EXTENSION {
        app_post(pre, post, g, r)
    } else if label == PLAIN_TEXT_EXTENSION {
        plain_text_post(pre, post, g, r)
    } else {
        r == Err::<ParserState, ParserError>(ParserError::UnknownExtensionLabel(label))
            && pre.same_records(&post)
    }
}

/// Scalar descriptor fields untouched between two images.
pub open spec fn same_image_scalars(a: TableBasedImage, b: TableBasedImage) -> bool {
    &&& a.left_position == b.left_position
    &&& a.top_position == b.top_position
    &&& a.width == b.width
    &&& a.height == b.height
    &&& a.local_color_table_flag == b.local_color_table_flag
    &&& a.interlace_flag == b.interlace_flag
    &&& a.sort_flag == b.sort_flag
    &&& a.local_color_table_size == b.local_color_table_size
}

/// Effect of the image descriptor state: nine bytes parsed into a frame
/// under construction that adopts the pending graphic control.
pub open spec fn imgdesc_post(
    pre: Decoder,
    post: Decoder,
    g: Option<GraphicControlExtension>,
    r: Result<ParserState, ParserError>,
) -> bool {
    let d = pre.data@;
    let p = pre.pos as int;
    if p + 9 > d.len() {
        r == Err::<ParserState, ParserError>(ParserError::UnexpectedEof) && pre.same_records(&post)
    } else {
        let packed = d[p + 8];
        let lctf = packed & 0x80 != 0;
        let img = (TableBasedImage {
            left_position: u16_at(d, p),
            top_position: u16_at(d, p + 2),
            width: u16_at(d, p + 4),
            height: u16_at(d, p + 6),
            local_color_table_flag: lctf,
            interlace_flag: packed & 0x40 != 0,
            sort_flag: packed & 0x20 != 0,
            local_color_table_size: if lctf {
                Some(packed_entries(packed))
            } else {
                None
            },
            local_color_table: None,
            image_indexes: None,
        });
        let gb = (GraphicBlock { extension: g, render_block: img });
        &&& r == Ok::<ParserState, ParserError>(
            if lctf {
                ParserState::ProcessLocalColorTable(gb)
            } else {
                ParserState::ProcessImageData(gb)
            },
        )
        &&& post.pos == p + 9
        &&& pre.same_records(&post)
    }
}

/// Effect of the local palette state: `3 × entries` bytes attached to the
/// frame under construction.
pub open spec fn lct_post(
    pre: Decoder,
    post: Decoder,
    gb: GraphicBlock,
    r: Result<ParserState, ParserError>,
) -> bool {
    let d = pre.data@;
    let p = pre.pos as int;
    let sz = gb.render_block.local_color_table_size->Some_0 as int;
    if p + 3 * sz > d.len() {
        r == Err::<ParserState, ParserError>(ParserError::UnexpectedEof) && pre.same_records(&post)
    } else {
        &&& r matches Ok(ns)
        &&& ns matches ParserState::ProcessImageData(gb2) && gb2.extension == gb.extension
            && same_image_scalars(gb2.render_block, gb.render_block)
            && gb2.render_block.image_indexes == gb.render_block.image_indexes
            && (gb2.render_block.local_color_table matches Some(t) && t@ == d.subrange(
            p,
            p + 3 * sz,
        ))
        &&& post.pos == p + 3 * sz
        &&& pre.same_records(&post)
    }
}

/// Effect of the image data state: the minimum code size validated, the
/// sub-block payload decompressed, the index buffer cut down to one index
/// per pixel where the stream overran, and the finished frame appended.
/// The pending graphic control does not survive the frame.
pub open spec fn imgdata_post(
    pre: Decoder,
    post: Decoder,
    gb: GraphicBlock,
    r: Result<ParserState, ParserError>,
) -> bool {
    let d = pre.data@;
    let p = pre.pos as int;
    if p >= d.len() {
        r == Err::<ParserState, ParserError>(ParserError::UnexpectedEof) && pre.same_records(&post)
    } else {
        let mcs = d[p];
        if mcs < 1 || mcs > 8 {
            r == Err::<ParserState, ParserError>(ParserError::InvalidLzwCodeSize(mcs))
                && pre.same_records(&post)
        } else {
            match subblocks_spec(d, p + 1) {
                Err(e) => r == Err::<ParserState, ParserError>(e) && pre.same_records(&post),
                Ok((payload, end)) => match lzw_spec(payload, mcs as nat) {
                    Err(e) => r == Err::<ParserState, ParserError>(e) && pre.same_records(&post),
                    Ok(ix) => {
                        let limit = gb.render_block.width as int * gb.render_block.height as int;
                        let kept = if ix.len() <= limit {
                            ix
                        } else {
                            ix.take(limit)
                        };
                        &&& r == Ok::<ParserState, ParserError>(
                            ParserState::DetermineNextBlock(None),
                        )
                        &&& post.pos == end
                        &&& post.graphic_blocks@.len() == pre.graphic_blocks@.len() + 1
                        &&& post.graphic_blocks@.subrange(0, pre.graphic_blocks@.len() as int)
                            == pre.graphic_blocks@
                        &&& post.graphic_blocks@.last().extension == gb.extension
                        &&& same_image_scalars(
                            post.graphic_blocks@.last().render_block,
                            gb.render_block,
                        )
                        &&& post.graphic_blocks@.last().render_block.local_color_table
                            == gb.render_block.local_color_table
                        &&& post.graphic_blocks@.last().render_block.image_indexes matches Some(v)
                            && v@ == kept
                        &&& pre.same_stream_meta(&post)
                        &&& post.special_purpose_extensions == pre.special_purpose_extensions
                        &&& post.loop_count == pre.loop_count
                    },
                },
            }
        }
    }
}

/// Effect of one step of the state machine, by state.
pub open spec fn step_post(
    pre: Decoder,
    post: Decoder,
    state: ParserState,
    r: Result<ParserState, ParserError>,
) -> bool {
    &&& post.data == pre.data
    &&& match state {
        ParserState::ProcessMagic => magic_post(pre, post, r),
        ParserState::ProcessLogicalScreenDescriptor => lsd_post(pre, post, r),
        ParserState::ProcessGlobalColorTable => gct_post(pre, post, r),
        ParserState::ProcessTrailer => r == Ok::<ParserState, ParserError>(ParserState::Done)
            && post == pre,
        ParserState::DetermineNextBlock(g) => dispatch_post(pre, post, g, r),
        ParserState::ProcessExtension(label, g) => ext_post(pre, post, label, g, r),
        ParserState::ProcessImageDescriptor(g) => imgdesc_post(pre, post, g, r),
        ParserState::ProcessLocalColorTable(gb) => lct_post(pre, post, gb, r),
        ParserState::ProcessImageData(gb) => imgdata_post(pre, post, gb, r),
        ParserState::Done => true,
    }
}

/// Spec-level image of a decoded frame: the descriptor fields, the
/// local palette bytes when present, and the decoded index buffer.
pub struct FrameModel {
    pub extension: Option<GraphicControlExtension>,
    pub left_position: u16,
    pub top_position: u16,
    pub width: u16,
    pub height: u16,
    pub local_color_table_flag: bool,
    pub interlace_flag: bool,
    pub sort_flag: bool,
    pub local_color_table_size: Option<u32>,
    pub local_color_table: Option<Seq<u8>>,
    pub image_indexes: Seq<u8>,
}

/// Spec-level image of a collected extension.
pub enum ExtensionModel {
    ApplicationBlock { identifier: Seq<u8>, authentication: Seq<u8>, data: Seq<u8> },
    CommentBlock(Seq<u8>),
}

/// Spec-level image of the records a decoder holds.
pub struct RecordsModel {
    pub version: Option<Version>,
    pub screen: Option<LogicalScreenDescriptor>,
    pub global_palette: Option<Seq<u8>>,
    pub extensions: Seq<ExtensionModel>,
    pub frames: Seq<FrameModel>,
    pub loop_count: Option<LoopCount>,
}

/// Spec-level image of an error value.
pub enum ErrorModel {
    UnexpectedEof,
    InvalidSignature,
    UnsupportedVersion(Seq<u8>),
    UnknownExtensionLabel(u8),
    UnexpectedBlockLabel(u8),
    MalformedExtensionBlockSize { label: u8, expected: u8, actual: u8 },
    ExpectedImageAfterGraphicControl,
    UnexpectedGraphicControl,
    InvalidDisposalMethod(u8),
    InvalidLzwCodeSize(u8),
    InvalidCode,
    CodeWidthOverflow,
    BitStreamTruncated,
    ApplicationDataLengthMismatch { identifier: Seq<u8>, expected: int, actual: int },
}

/// The error model an error value stands for.
pub open spec fn error_model_of(e: ParserError) -> ErrorModel {
    match e {
        ParserError::UnexpectedEof => ErrorModel::UnexpectedEof,
        ParserError::InvalidSignature => ErrorModel::InvalidSignature,
        ParserError::UnsupportedVersion(v) => ErrorModel::UnsupportedVersion(v@),
        ParserError::UnknownExtensionLabel(b) => ErrorModel::UnknownExtensionLabel(b),
        ParserError::UnexpectedBlockLabel(b) => ErrorModel::UnexpectedBlockLabel(b),
        ParserError::MalformedExtensionBlockSize { label, expected, actual } =>
            ErrorModel::MalformedExtensionBlockSize { label, expected, actual },
        ParserError::ExpectedImageAfterGraphicControl => ErrorModel::ExpectedImageAfterGraphicControl,
        ParserError::UnexpectedGraphicControl => ErrorModel::UnexpectedGraphicControl,
        ParserError::InvalidDisposalMethod(b) => ErrorModel::InvalidDisposalMethod(b),
        ParserError::InvalidLzwCodeSize(b) => ErrorModel::InvalidLzwCodeSize(b),
        ParserError::InvalidCode => ErrorModel::InvalidCode,
        ParserError::CodeWidthOverflow => ErrorModel::CodeWidthOverflow,
        ParserError::BitStreamTruncated => ErrorModel::BitStreamTruncated,
        ParserError::ApplicationDataLengthMismatch { identifier, expected, actual } =>
            ErrorModel::ApplicationDataLengthMismatch {
                identifier: identifier@,
                expected: expected as int,
                actual: actual as int,
            },
    }
}

/// The frame model a graphic block stands for; a frame still under
/// construction has an empty index buffer.
pub open spec fn frame_model(gb: GraphicBlock) -> FrameModel {
    FrameModel {
        extension: gb.extension,
        left_position: gb.render_block.left_position,
        top_position: gb.render_block.top_position,
        width: gb.render_block.width,
        height: gb.render_block.height,
        local_color_table_flag: gb.render_block.local_color_table_flag,
        interlace_flag: gb.render_block.interlace_flag,
        sort_flag: gb.render_block.sort_flag,
        local_color_table_size: gb.render_block.local_color_table_size,
        local_color_table: match gb.render_block.local_color_table {
            Some(t) => Some(t@),
            None => None,
        },
        image_indexes: match gb.render_block.image_indexes {
            Some(v) => v@,
            None => Seq::empty(),
        },
    }
}

/// The extension model a collected extension stands for.
pub open spec fn ext_model(e: SpecialPurposeExtension) -> ExtensionModel {
    match e {
        SpecialPurposeExtension::ApplicationBlock {
            application_identifier,
            application_authentication_code,
            application_data,
        } => ExtensionModel::ApplicationBlock {
            identifier: application_identifier@,
            authentication: application_authentication_code@,
            data: application_data@,
        },
        SpecialPurposeExtension::CommentBlock(v) => ExtensionModel::CommentBlock(v@),
    }
}

/// The record model a decoder's fields stand for.
pub open spec fn records_of(d: Decoder) -> RecordsModel {
    RecordsModel {
        version: d.version,
        screen: d.logical_screen_descriptor,
        global_palette: match d.global_color_table {
            Some(t) => Some(t@),
            None => None,
        },
        extensions: d.special_purpose_extensions@.map_values(|e: SpecialPurposeExtension| ext_model(e)),
        frames: d.graphic_blocks@.map_values(|g: GraphicBlock| frame_model(g)),
        loop_count: d.loop_count,
    }
}

/// The spec-level mirror of a parser state.
pub enum StateModel {
    Magic,
    Screen,
    GlobalPalette,
    Trailer,
    Dispatch(Option<GraphicControlExtension>),
    Extension(u8, Option<GraphicControlExtension>),
    ImageDescriptor(Option<GraphicControlExtension>),
    LocalPalette(FrameModel),
    ImageData(FrameModel),
    Finished,
}

/// The state model a parser state stands for.
pub open spec fn model_of_state(s: ParserState) -> StateModel {
    match s {
        ParserState::ProcessMagic => StateModel::Magic,
        ParserState::ProcessLogicalScreenDescriptor => StateModel::Screen,
        ParserState::ProcessGlobalColorTable => StateModel::GlobalPalette,
        ParserState::ProcessTrailer => StateModel::Trailer,
        ParserState::DetermineNextBlock(g) => StateModel::Dispatch(g),
        ParserState::ProcessExtension(label, g) => StateModel::Extension(label, g),
        ParserState::ProcessImageDescriptor(g) => StateModel::ImageDescriptor(g),
        ParserState::ProcessLocalColorTable(gb) => StateModel::LocalPalette(frame_model(gb)),
        ParserState::ProcessImageData(gb) => StateModel::ImageData(frame_model(gb)),
        ParserState::Done => StateModel::Finished,
    }
}

/// Rank for the model's termination, as for the executable states.
pub open spec fn model_rank(s: StateModel) -> int {
    match s {
        StateModel::Finished => 0,
        StateModel::Trailer => 1,
        _ => 2,
    }
}

/// What a whole parse yields: the finished records and the position just
/// past the trailer, or the first failure together with the records that
/// had been gathered when it struck.
pub enum ParseOutcome {
    Complete(RecordsModel, int),
    Failed(ErrorModel, RecordsModel),
}

/// The functional parser: what running the state machine from a given
/// position, state and record set over the input bytes yields. Each arm
/// mirrors the relational effect of the corresponding state. The guards
/// on sub-block ends and palette sizes can never be taken when the state
/// invariant holds; they keep the recursion well founded on every input.
pub open spec fn parse_run(
    data: Seq<u8>,
    pos: int,
    state: StateModel,
    acc: RecordsModel,
) -> ParseOutcome
    decreases data.len() - pos, model_rank(state),
{
    match state {
        StateModel::Magic => {
            if pos + 3 > data.len() {
                ParseOutcome::Failed(ErrorModel::UnexpectedEof, acc)
            } else if !is_sig(data.subrange(pos, pos + 3)) {
                ParseOutcome::Failed(ErrorModel::InvalidSignature, acc)
            } else if pos + 6 > data.len() {
                ParseOutcome::Failed(ErrorModel::UnexpectedEof, acc)
            } else if is_v87a(data.subrange(pos + 3, pos + 6)) {
                parse_run(
                    data,
                    pos + 6,
                    StateModel::Screen,
                    RecordsModel { version: Some(Version::V87a), ..acc },
                )
            } else if is_v89a(data.subrange(pos + 3, pos + 6)) {
                parse_run(
                    data,
                    pos + 6,
                    StateModel::Screen,
                    RecordsModel { version: Some(Version::V89a), ..acc },
                )
            } else {
                ParseOutcome::Failed(
                    ErrorModel::UnsupportedVersion(data.subrange(pos + 3, pos + 6)),
                    acc,
                )
            }
        },
        StateModel::Screen => {
            if pos + 7 > data.len() {
                ParseOutcome::Failed(ErrorModel::UnexpectedEof, acc)
            } else {
                let packed = data[pos + 4];
                let gctf = packed & 0x80 != 0;
                let lsd = (LogicalScreenDescriptor {
                    screen_width: u16_at(data, pos),
                    screen_height: u16_at(data, pos + 2),
                    global_color_table_flag: gctf,
                    color_resolution: (packed >> 4) & 7,
                    sort_flag: packed & 8 != 0,
                    global_color_table_size: if gctf {
                        Some(packed_entries(packed))
                    } else {
                        None
                    },
                    background_color_index: data[pos + 5],
                    pixel_aspect_ratio: data[pos + 6],
                });
                let acc2 = RecordsModel { screen: Some(lsd), ..acc };
                if gctf {
                    parse_run(data, pos + 7, StateModel::GlobalPalette, acc2)
                } else {
                    parse_run(data, pos + 7, StateModel::Dispatch(None), acc2)
                }
            }
        },
        StateModel::GlobalPalette => {
            let sz = acc.screen->Some_0.global_color_table_size->Some_0 as int;
            if sz < 1 {
                ParseOutcome::Failed(ErrorModel::UnexpectedEof, acc)
            } else if pos + 3 * sz > data.len() {
                ParseOutcome::Failed(ErrorModel::UnexpectedEof, acc)
            } else {
                parse_run(
                    data,
                    pos + 3 * sz,
                    StateModel::Dispatch(None),
                    RecordsModel { global_palette: Some(data.subrange(pos, pos + 3 * sz)), ..acc },
                )
            }
        },
        StateModel::Trailer => parse_run(data, pos, StateModel::Finished, acc),
        StateModel::Finished => ParseOutcome::Complete(acc, pos),
        StateModel::Dispatch(g) => {
            if pos >= data.len() {
                ParseOutcome::Failed(ErrorModel::UnexpectedEof, acc)
            } else {
                let b = data[pos];
                if b == EXTENSION_INTRODUCER {
                    if pos + 1 >= data.len() {
                        ParseOutcome::Failed(ErrorModel::UnexpectedEof, acc)
                    } else {
                        parse_run(data, pos + 2, StateModel::Extension(data[pos + 1], g), acc)
                    }
                } else if b == IMAGE_DESCRIPTOR_LABEL {
                    parse_run(data, pos + 1, StateModel::ImageDescriptor(g), acc)
                } else if b == TRAILER_LABEL {
                    if g is Some {
                        ParseOutcome::Failed(ErrorModel::ExpectedImageAfterGraphicControl, acc)
                    } else {
                        parse_run(data, pos + 1, StateModel::Trailer, acc)
                    }
                } else {
                    ParseOutcome::Failed(ErrorModel::UnexpectedBlockLabel(b), acc)
                }
            }
        },
        StateModel::Extension(label, g) => parse_run_extension(data, pos, label, g, acc),
        StateModel::ImageDescriptor(g) => {
            if pos + 9 > data.len() {
                ParseOutcome::Failed(ErrorModel::UnexpectedEof, acc)
            } else {
                let packed = data[pos + 8];
                let lctf = packed & 0x80 != 0;
                let f = (FrameModel {
                    extension: g,
                    left_position: u16_at(data, pos),
                    top_position: u16_at(data, pos + 2),
                    width: u16_at(data, pos + 4),
                    height: u16_at(data, pos + 6),
                    local_color_table_flag: lctf,
                    interlace_flag: packed & 0x40 != 0,
                    sort_flag: packed & 0x20 != 0,
                    local_color_table_size: if lctf {
                        Some(packed_entries(packed))
                    } else {
                        None
                    },
                    local_color_table: None,
                    image_indexes: Seq::empty(),
                });
                if lctf {
                    parse_run(data, pos + 9, StateModel::LocalPalette(f), acc)
                } else {
                    parse_run(data, pos + 9, StateModel::ImageData(f), acc)
                }
            }
        },
        StateModel::LocalPalette(f) => {
            let sz = f.local_color_table_size->Some_0 as int;
            if sz < 1 {
                ParseOutcome::Failed(ErrorModel::UnexpectedEof, acc)
            } else if pos + 3 * sz > data.len() {
                ParseOutcome::Failed(ErrorModel::UnexpectedEof, acc)
            } else {
                parse_run(
                    data,
                    pos + 3 * sz,
                    StateModel::ImageData(
                        FrameModel {
                            local_color_table: Some(data.subrange(pos, pos + 3 * sz)),
                            ..f
                        },
                    ),
                    acc,
                )
            }
        },
        StateModel::ImageData(f) => {
            if pos >= data.len() {
                ParseOutcome::Failed(ErrorModel::UnexpectedEof, acc)
            } else {
                let mcs = data[pos];
                if mcs < 1 || mcs > 8 {
                    ParseOutcome::Failed(ErrorModel::InvalidLzwCodeSize(mcs), acc)
                } else {
                    match subblocks_spec(data, pos + 1) {
                        Err(e) => ParseOutcome::Failed(error_model_of(e), acc),
                        Ok((payload, end)) => {
                            if !(pos < end <= data.len()) {
                                ParseOutcome::Failed(ErrorModel::UnexpectedEof, acc)
                            } else {
                                match lzw_spec(payload, mcs as nat) {
                                    Err(e) => ParseOutcome::Failed(error_model_of(e), acc),
                                    Ok(ix) => {
                                        let limit = f.width as int * f.height as int;
                                        let kept = if ix.len() <= limit {
                                            ix
                                        } else {
                                            ix.take(limit)
                                        };
                                        parse_run(
                                            data,
                                            end,
                                            StateModel::Dispatch(None),
                                            RecordsModel {
                                                frames: acc.frames.push(
                                                    FrameModel { image_indexes: kept, ..f },
                                                ),
                                                ..acc
                                            },
                                        )
                                    },
                                }
                            }
                        },
                    }
                }
            }
        },
    }
}

/// The functional parser's extension arm, by label.
pub open spec fn parse_run_extension(
    data: Seq<u8>,
    pos: int,
    label: u8,
    g: Option<GraphicControlExtension>,
    acc: RecordsModel,
) -> ParseOutcome
    decreases data.len() - pos, 1int,
{
    if label == GRAPHIC_CONTROL_EXTENSION {
        if g is Some {
            ParseOutcome::Failed(ErrorModel::UnexpectedGraphicControl, acc)
        } else if pos >= data.len() {
            ParseOutcome::Failed(ErrorModel::UnexpectedEof, acc)
        } else if data[pos] != 4 {
            ParseOutcome::Failed(
                ErrorModel::MalformedExtensionBlockSize {
                    label: GRAPHIC_CONTROL_EXTENSION,
                    expected: 4,
                    actual: data[pos],
                },
                acc,
            )
        } else if pos + 2 > data.len() {
            ParseOutcome::Failed(ErrorModel::UnexpectedEof, acc)
        } else {
            let packed = data[pos + 1];
            let disposal = (packed >> 2) & 7;
            if disposal > 3 {
                ParseOutcome::Failed(ErrorModel::InvalidDisposalMethod(disposal), acc)
            } else if pos + 6 > data.len() {
                ParseOutcome::Failed(ErrorModel::UnexpectedEof, acc)
            } else if data[pos + 5] != 0 {
                ParseOutcome::Failed(
                    ErrorModel::MalformedExtensionBlockSize {
                        label: GRAPHIC_CONTROL_EXTENSION,
                        expected: 0,
                        actual: data[pos + 5],
                    },
                    acc,
                )
            } else {
                let gce = (GraphicControlExtension {
                    disposal_method: disposal,
                    user_input_flag: packed & 2 != 0,
                    transparent_color_flag: packed & 1 != 0,
                    delay_time: u16_at(data, pos + 2),
                    transparent_color_index: data[pos + 4],
                });
                parse_run(data, pos + 6, StateModel::Dispatch(Some(gce)), acc)
            }
        }
    } else if label == COMMENT_EXTENSION {
        match subblocks_spec(data, pos) {
            Err(e) => ParseOutcome::Failed(error_model_of(e), acc),
            Ok((payload, end)) => {
                if !(pos < end <= data.len()) {
                    ParseOutcome::Failed(ErrorModel::UnexpectedEof, acc)
                } else {
                    parse_run(
                        data,
                        end,
                        StateModel::Dispatch(g),
                        RecordsModel {
                            extensions: acc.extensions.push(ExtensionModel::CommentBlock(payload)),
                            ..acc
                        },
                    )
                }
            },
        }
    } else if label == APPLICATION_EXTENSION {
        if pos >= data.len() {
            ParseOutcome::Failed(ErrorModel::UnexpectedEof, acc)
        } else if data[pos] != 11 {
            ParseOutcome::Failed(
                ErrorModel::MalformedExtensionBlockSize {
                    label: APPLICATION_EXTENSION,
                    expected: 11,
                    actual: data[pos],
                },
                acc,
            )
        } else if pos + 12 > data.len() {
            ParseOutcome::Failed(ErrorModel::UnexpectedEof, acc)
        } else {
            match subblocks_spec(data, pos + 12) {
                Err(e) => ParseOutcome::Failed(error_model_of(e), acc),
                Ok((payload, end)) => {
                    if !(pos < end <= data.len()) {
                        ParseOutcome::Failed(ErrorModel::UnexpectedEof, acc)
                    } else {
                        let ns = is_netscape(data, pos + 1) && is_auth20(data, pos + 9);
                        if ns && payload.len() != 3 {
                            ParseOutcome::Failed(
                                ErrorModel::ApplicationDataLengthMismatch {
                                    identifier: data.subrange(pos + 1, pos + 9),
                                    expected: 3,
                                    actual: payload.len() as int,
                                },
                                acc,
                            )
                        } else {
                            parse_run(
                                data,
                                end,
                                StateModel::Dispatch(g),
                                RecordsModel {
                                    extensions: acc.extensions.push(
                                        ExtensionModel::ApplicationBlock {
                                            identifier: data.subrange(pos + 1, pos + 9),
                                            authentication: data.subrange(pos + 9, pos + 12),
                                            data: payload,
                                        },
                                    ),
                                    loop_count: if ns && payload[0] == 1 {
                                        Some(loop_directive(payload))
                                    } else {
                                        acc.loop_count
                                    },
                                    ..acc
                                },
                            )
                        }
                    }
                },
            }
        }
    } else if label == PLAIN_TEXT_EXTENSION {
        if pos >= data.len() {
            ParseOutcome::Failed(ErrorModel::UnexpectedEof, acc)
        } else if data[pos] != 12 {
            ParseOutcome::Failed(
                ErrorModel::MalformedExtensionBlockSize {
                    label: PLAIN_TEXT_EXTENSION,
                    expected: 12,
                    actual: data[pos],
                },
                acc,
            )
        } else if pos + 13 > data.len() {
            ParseOutcome::Failed(ErrorModel::UnexpectedEof, acc)
        } else {
            match subblocks_spec(data, pos + 13) {
                Err(e) => ParseOutcome::Failed(error_model_of(e), acc),
                Ok((payload, end)) => {
                    if !(pos < end <= data.len()) {
                        ParseOutcome::Failed(ErrorModel::UnexpectedEof, acc)
                    } else {
                        parse_run(data, end, StateModel::Dispatch(g), acc)
                    }
                },
            }
        }
    } else {
        ParseOutcome::Failed(ErrorModel::UnknownExtensionLabel(label), acc)
    }
}

/// What a whole parse of the input yields, from the start of the header.
pub open spec fn parse_spec(data: Seq<u8>, pos: int, acc: RecordsModel) -> ParseOutcome {
    parse_run(data, pos, StateModel::Magic, acc)
}

/// A sub-block chain that parses ends past where it began and inside the
/// input.
pub proof fn lemma_subblocks_end(data: Seq<u8>, pos: int)
    ensures
        subblocks_spec(data, pos) matches Ok((payload, end)) ==> pos < end <= data.len(),
    decreases data.len() - pos,
{
    if 0 <= pos < data.len() {
        let l = data[pos] as int;
        if l != 0 && pos + 1 + l <= data.len() {
            lemma_subblocks_end(data, pos + 1 + l);
        }
    }
}

/// A prefix of a prefix is a prefix.
proof fn lemma_prefix_trans<T>(a: Seq<T>, b: Seq<T>, c: Seq<T>)
    requires
        a.is_prefix_of(b),
        b.is_prefix_of(c),
    ensures
        a.is_prefix_of(c),
{
    assert(a =~= c.subrange(0, a.len() as int));
}

/// Mapping a sequence extended by one element extends the mapped one.
proof fn lemma_map_ext_push(pre: Seq<SpecialPurposeExtension>, post: Seq<SpecialPurposeExtension>)
    requires
        post.len() == pre.len() + 1,
        post.subrange(0, pre.len() as int) == pre,
    ensures
        post.map_values(|e: SpecialPurposeExtension| ext_model(e)) == pre.map_values(
            |e: SpecialPurposeExtension| ext_model(e),
        ).push(ext_model(post.last())),
{
    assert(forall|i: int| 0 <= i < pre.len() ==> post[i] == #[trigger] pre[i]);
    assert(post.map_values(|e: SpecialPurposeExtension| ext_model(e)) =~= pre.map_values(
        |e: SpecialPurposeExtension| ext_model(e),
    ).push(ext_model(post.last())));
}

/// Mapping a sequence extended by one element extends the mapped one.
proof fn lemma_map_frame_push(pre: Seq<GraphicBlock>, post: Seq<GraphicBlock>)
    requires
        post.len() == pre.len() + 1,
        post.subrange(0, pre.len() as int) == pre,
    ensures
        post.map_values(|g: GraphicBlock| frame_model(g)) == pre.map_values(
            |g: GraphicBlock| frame_model(g),
        ).push(frame_model(post.last())),
{
    assert(forall|i: int| 0 <= i < pre.len() ==> post[i] == #[trigger] pre[i]);
    assert(post.map_values(|g: GraphicBlock| frame_model(g)) =~= pre.map_values(
        |g: GraphicBlock| frame_model(g),
    ).push(frame_model(post.last())));
}

/// One executable step tracks the functional parser: a successful step
/// leaves the remaining run unchanged, and a failing step is exactly the
/// model's failure, with the records untouched.
#[verifier::spinoff_prover]
#[verifier::rlimit(60)]
proof fn lemma_step_run(
    pre: Decoder,
    post: Decoder,
    state: ParserState,
    r: Result<ParserState, ParserError>,
)
    requires
        state_inv(pre, state),
        !(state is Done),
        step_post(pre, post, state, r),
    ensures
        r matches Ok(ns) ==> parse_run(
            pre.data@,
            pre.pos as int,
            model_of_state(state),
            records_of(pre),
        ) == parse_run(post.data@, post.pos as int, model_of_state(ns), records_of(post)),
        r matches Err(e) ==> parse_run(
            pre.data@,
            pre.pos as int,
            model_of_state(state),
            records_of(pre),
        ) == ParseOutcome::Failed(error_model_of(e), records_of(pre)) && records_of(post)
            == records_of(pre),
{
    let d = pre.data@;
    let p = pre.pos as int;
    let acc = records_of(pre);
    match state {
        ParserState::ProcessMagic => {
            if p + 6 <= d.len() && is_sig(d.subrange(p, p + 3)) {
                if is_v87a(d.subrange(p + 3, p + 6)) {
                    assert(records_of(post) == RecordsModel {
                        version: Some(Version::V87a),
                        ..acc
                    });
                } else if is_v89a(d.subrange(p + 3, p + 6)) {
                    assert(records_of(post) == RecordsModel {
                        version: Some(Version::V89a),
                        ..acc
                    });
                }
            }
        },
        ParserState::ProcessLogicalScreenDescriptor => {
            if p + 7 <= d.len() {
                let packed = d[p + 4];
                let gctf = packed & 0x80 != 0;
                let lsd = (LogicalScreenDescriptor {
                    screen_width: u16_at(d, p),
                    screen_height: u16_at(d, p + 2),
                    global_color_table_flag: gctf,
                    color_resolution: (packed >> 4) & 7,
                    sort_flag: packed & 8 != 0,
                    global_color_table_size: if gctf {
                        Some(packed_entries(packed))
                    } else {
                        None
                    },
                    background_color_index: d[p + 5],
                    pixel_aspect_ratio: d[p + 6],
                });
                assert(records_of(post) == RecordsModel { screen: Some(lsd), ..acc });
            }
        },
        ParserState::ProcessGlobalColorTable => {
            let sz = pre.logical_screen_descriptor->Some_0.global_color_table_size->Some_0 as int;
            if p + 3 * sz <= d.len() {
                assert(records_of(post) == RecordsModel {
                    global_palette: Some(d.subrange(p, p + 3 * sz)),
                    ..acc
                });
            }
        },
        ParserState::ProcessTrailer => {},
        ParserState::DetermineNextBlock(g) => {},
        ParserState::ProcessExtension(label, g) => {
            lemma_step_run_extension(pre, post, label, g, r);
        },
        ParserState::ProcessImageDescriptor(g) => {},
        ParserState::ProcessLocalColorTable(gb) => {
            let sz = gb.render_block.local_color_table_size->Some_0 as int;
            if p + 3 * sz <= d.len() && r is Ok {
                let ns = r->Ok_0;
                if ns is ProcessImageData {
                    let gb2 = ns->ProcessImageData_0;
                    assert(frame_model(gb2) == FrameModel {
                        local_color_table: Some(d.subrange(p, p + 3 * sz)),
                        ..frame_model(gb)
                    });
                }
            }
        },
        ParserState::ProcessImageData(gb) => {
            if p < d.len() {
                let mcs = d[p];
                if 1 <= mcs <= 8 {
                    let sb = subblocks_spec(d, p + 1);
                    if sb is Ok {
                        let payload = sb->Ok_0.0;
                        lemma_subblocks_end(d, p + 1);
                        let lr = lzw_spec(payload, mcs as nat);
                        if lr is Ok {
                            let ix = lr->Ok_0;
                            let f = frame_model(gb);
                            let limit = f.width as int * f.height as int;
                            let kept = if ix.len() <= limit {
                                ix
                            } else {
                                ix.take(limit)
                            };
                            lemma_map_frame_push(pre.graphic_blocks@, post.graphic_blocks@);
                            assert(frame_model(post.graphic_blocks@.last()) == FrameModel {
                                image_indexes: kept,
                                ..f
                            });
                            assert(records_of(post) == RecordsModel {
                                frames: acc.frames.push(FrameModel { image_indexes: kept, ..f }),
                                ..acc
                            });
                        }
                    }
                }
            }
        },
        ParserState::Done => {},
    }
}

/// The extension arm of the step-tracking lemma.
#[verifier::spinoff_prover]
#[verifier::rlimit(60)]
proof fn lemma_step_run_extension(
    pre: Decoder,
    post: Decoder,
    label: u8,
    g: Option<GraphicControlExtension>,
    r: Result<ParserState, ParserError>,
)
    requires
        ext_post(pre, post, label, g, r),
        post.data == pre.data,
    ensures
        r matches Ok(ns) ==> parse_run_extension(pre.data@, pre.pos as int, label, g, records_of(
            pre,
        )) == parse_run(post.data@, post.pos as int, model_of_state(ns), records_of(post)),
        r matches Err(e) ==> parse_run_extension(pre.data@, pre.pos as int, label, g, records_of(
            pre,
        )) == ParseOutcome::Failed(error_model_of(e), records_of(pre)) && records_of(post)
            == records_of(pre),
{
    let d = pre.data@;
    let p = pre.pos as int;
    let acc = records_of(pre);
    if label == GRAPHIC_CONTROL_EXTENSION {
    } else if label == COMMENT_EXTENSION {
        let sb = subblocks_spec(d, p);
        if sb is Ok {
            let payload = sb->Ok_0.0;
            lemma_subblocks_end(d, p);
            lemma_map_ext_push(pre.special_purpose_extensions@, post.special_purpose_extensions@);
            assert(ext_model(post.special_purpose_extensions@.last())
                == ExtensionModel::CommentBlock(payload));
            assert(records_of(post) == RecordsModel {
                extensions: acc.extensions.push(ExtensionModel::CommentBlock(payload)),
                ..acc
            });
        }
    } else if label == APPLICATION_EXTENSION {
        if p < d.len() && d[p] == 11 && p + 12 <= d.len() {
            let sb = subblocks_spec(d, p + 12);
            if sb is Ok {
                let payload = sb->Ok_0.0;
                lemma_subblocks_end(d, p + 12);
                let ns = is_netscape(d, p + 1) && is_auth20(d, p + 9);
                if !(ns && payload.len() != 3) {
                    lemma_map_ext_push(
                        pre.special_purpose_extensions@,
                        post.special_purpose_extensions@,
                    );
                    assert(ext_model(post.special_purpose_extensions@.last())
                        == ExtensionModel::ApplicationBlock {
                        identifier: d.subrange(p + 1, p + 9),
                        authentication: d.subrange(p + 9, p + 12),
                        data: payload,
                    });
                    if ns && payload[0] == 1 {
                        assert(records_of(post) == RecordsModel {
                            extensions: acc.extensions.push(
                                ExtensionModel::ApplicationBlock {
                                    identifier: d.subrange(p + 1, p + 9),
                                    authentication: d.subrange(p + 9, p + 12),
                                    data: payload,
                                },
                            ),
                            loop_count: Some(loop_directive(payload)),
                            ..acc
                        });
                    } else {
                        assert(records_of(post) == RecordsModel {
                            extensions: acc.extensions.push(
                                ExtensionModel::ApplicationBlock {
                                    identifier: d.subrange(p + 1, p + 9),
                                    authentication: d.subrange(p + 9, p + 12),
                                    data: payload,
                                },
                            ),
                            loop_count: acc.loop_count,
                            ..acc
                        });
                    }
                }
            }
        }
    } else if label == PLAIN_TEXT_EXTENSION {
        if p < d.len() && d[p] == 12 && p + 13 <= d.len() {
            lemma_subblocks_end(d, p + 13);
        }
    } else {
    }
}

/// The extension kinds the parser understands.
#[derive(Debug, Clone, Copy, PartialEq, Eq)]
pub enum ExtensionType {
    Application,
    Comment,
    GraphicControl,
    PlainText,
}

/// The label byte an extension kind stands for.
pub open spec fn ext_label(t: ExtensionType) -> u8 {
    match t {
        ExtensionType::Application => APPLICATION_EXTENSION,
        ExtensionType::Comment => COMMENT_EXTENSION,
        ExtensionType::GraphicControl => GRAPHIC_CONTROL_EXTENSION,
        ExtensionType::PlainText => PLAIN_TEXT_EXTENSION,
    }
}

impl ExtensionType {
    /// Maps a label byte to its extension kind; any other label is an
    /// unknown extension.
    pub fn try_from(value: u8) -> (r: Result<ExtensionType, ParserError>)
        ensures
            r == match value {
                APPLICATION_EXTENSION => Ok::<ExtensionType, ParserError>(
                    ExtensionType::Application,
                ),
                COMMENT_EXTENSION => Ok::<ExtensionType, ParserError>(ExtensionType::Comment),
                GRAPHIC_CONTROL_EXTENSION => Ok::<ExtensionType, ParserError>(
                    ExtensionType::GraphicControl,
                ),
                PLAIN_TEXT_EXTENSION => Ok::<ExtensionType, ParserError>(ExtensionType::PlainText),
                _ => Err::<ExtensionType, ParserError>(ParserError::UnknownExtensionLabel(value)),
            },
            r matches Ok(t) ==> ext_label(t) == value,
    {
        if value == APPLICATION_EXTENSION {
            Ok(ExtensionType::Application)
        } else if value == COMMENT_EXTENSION {
            Ok(ExtensionType::Comment)
        } else if value == GRAPHIC_CONTROL_EXTENSION {
            Ok(ExtensionType::GraphicControl)
        } else if value == PLAIN_TEXT_EXTENSION {
            Ok(ExtensionType::PlainText)
        } else {
            Err(ParserError::UnknownExtensionLabel(value))
        }
    }
}

impl Version {
    /// Maps three version bytes to the version they name; anything else
    /// is unsupported and the bytes travel with the error.
    pub fn try_from(value: Vec<u8>) -> (r: Result<Version, ParserError>)
        ensures
            is_v87a(value@) ==> r == Ok::<Version, ParserError>(Version::V87a),
            is_v89a(value@) ==> r == Ok::<Version, ParserError>(Version::V89a),
            !is_v87a(value@) && !is_v89a(value@) ==> (r matches Err(e) && (e
                matches ParserError::UnsupportedVersion(w) && w == value)),
    {
        if value.len() == 3 && value[0] == 0x38 && value[1] == 0x37 && value[2] == 0x61 {
            Ok(Version::V87a)
        } else if value.len() == 3 && value[0] == 0x38 && value[1] == 0x39 && value[2] == 0x61 {
            Ok(Version::V89a)
        } else {
            Err(ParserError::UnsupportedVersion(value))
        }
    }
}


/// A sequence is a prefix of itself.
proof fn lemma_prefix_refl<T>(a: Seq<T>)
    ensures
        a.is_prefix_of(a),
{
    assert(a =~= a.subrange(0, a.len() as int));
}

/// Appending one element keeps the old sequence as a prefix.
proof fn lemma_prefix_push<T>(a: Seq<T>, x: T)
    ensures
        a.is_prefix_of(a.push(x)),
{
    assert(a =~= a.push(x).subrange(0, a.len() as int));
}

impl Decoder {
    /// Processes one extension, dispatched by kind; a pending graphic
    /// control survives every extension but a second graphic control.
    pub fn process_extension(
        &mut self,
        ext: ExtensionType,
        pending: Option<GraphicControlExtension>,
    ) -> (r: Result<ParserState, ParserError>)
        requires
            old(self).wf(),
        ensures
            final(self).wf(),
            ext_post(*old(self), *final(self), ext_label(ext), pending, r),
            old(self).special_purpose_extensions@.is_prefix_of(
                final(self).special_purpose_extensions@,
            ),
            final(self).graphic_blocks == old(self).graphic_blocks,
            final(self).data == old(self).data,
            r is Ok ==> final(self).pos > old(self).pos,
    {
        let ghost d = self.data@;
        let ghost p = self.pos as int;
        proof {
            lemma_prefix_refl(self.special_purpose_extensions@);
        }
        match ext {
            ExtensionType::Application => {
                let block_size = self.read_byte()?;
                if block_size != 11 {
                    return Err(
                        ParserError::MalformedExtensionBlockSize {
                            label: APPLICATION_EXTENSION,
                            expected: 11,
                            actual: block_size,
                        },
                    );
                }
                let application_identifier = self.read_str(8)?;
                let application_authentication_code = self.read_bytes(3)?;
                let application_data = self.read_data_sub_blocks()?;
                proof {
                    lemma_subblocks_end(d, p + 12);
                }
                let is_ns = application_identifier[0] == 0x4e && application_identifier[1] == 0x45
                    && application_identifier[2] == 0x54 && application_identifier[3] == 0x53
                    && application_identifier[4] == 0x43 && application_identifier[5] == 0x41
                    && application_identifier[6] == 0x50 && application_identifier[7] == 0x45
                    && application_authentication_code[0] == 0x32
                    && application_authentication_code[1] == 0x2e
                    && application_authentication_code[2] == 0x30;
                if is_ns {
                    if application_data.len() != 3 {
                        return Err(
                            ParserError::ApplicationDataLengthMismatch {
                                identifier: application_identifier,
                                expected: 3,
                                actual: application_data.len(),
                            },
                        );
                    }
                    // the loop directive is only the block whose marker byte is 1
                    if application_data[0] == 1 {
                        let loop_number = application_data[1] as u16 + 256 * application_data[2]
                            as u16;
                        self.loop_count = Some(
                            if loop_number == 0 {
                                LoopCount::Infinite
                            } else {
                                LoopCount::Number(loop_number)
                            },
                        );
                    }
                }
                let ghost exts0 = self.special_purpose_extensions@;
                self.special_purpose_extensions.push(
                    SpecialPurposeExtension::ApplicationBlock {
                        application_identifier,
                        application_authentication_code,
                        application_data,
                    },
                );
                proof {
                    lemma_prefix_push(
                        exts0,
                        self.special_purpose_extensions@.last(),
                    );
                    assert(self.special_purpose_extensions@.subrange(0, exts0.len() as int)
                        =~= exts0);
                }
                Ok(ParserState::DetermineNextBlock(pending))
            },
            ExtensionType::Comment => {
                let data = self.read_data_sub_blocks()?;
                proof {
                    lemma_subblocks_end(d, p);
                }
                let ghost exts0 = self.special_purpose_extensions@;
                self.special_purpose_extensions.push(SpecialPurposeExtension::CommentBlock(data));
                proof {
                    lemma_prefix_push(
                        exts0,
                        self.special_purpose_extensions@.last(),
                    );
                    assert(self.special_purpose_extensions@.subrange(0, exts0.len() as int)
                        =~= exts0);
                }
                Ok(ParserState::DetermineNextBlock(pending))
            },
            ExtensionType::GraphicControl => {
                if pending.is_some() {
                    return Err(ParserError::UnexpectedGraphicControl);
                }
                let block_size = self.read_byte()?;
                if block_size != 4 {
                    return Err(
                        ParserError::MalformedExtensionBlockSize {
                            label: GRAPHIC_CONTROL_EXTENSION,
                            expected: 4,
                            actual: block_size,
                        },
                    );
                }
                let packed_fields = self.read_byte()?;
                let disposal_method = (packed_fields >> 2) & 7;
                if disposal_method > 3 {
                    return Err(ParserError::InvalidDisposalMethod(disposal_method));
                }
                let delay_time = self.read_u16()?;
                let transparent_color_index = self.read_byte()?;
                let block_terminator = self.read_byte()?;
                if block_terminator != 0 {
                    return Err(
                        ParserError::MalformedExtensionBlockSize {
                            label: GRAPHIC_CONTROL_EXTENSION,
                            expected: 0,
                            actual: block_terminator,
                        },
                    );
                }
                Ok(
                    ParserState::DetermineNextBlock(
                        Some(
                            GraphicControlExtension {
                                disposal_method,
                                user_input_flag: packed_fields & 2 != 0,
                                transparent_color_flag: packed_fields & 1 != 0,
                                delay_time,
                                transparent_color_index,
                            },
                        ),
                    ),
                )
            },
            ExtensionType::PlainText => {
                let block_size = self.read_byte()?;
                if block_size != 12 {
                    return Err(
                        ParserError::MalformedExtensionBlockSize {
                            label: PLAIN_TEXT_EXTENSION,
                            expected: 12,
                            actual: block_size,
                        },
                    );
                }
                let _skipped = self.read_bytes(12)?;
                let _discarded = self.read_data_sub_blocks()?;
                proof {
                    lemma_subblocks_end(d, p + 13);
                }
                Ok(ParserState::DetermineNextBlock(pending))
            },
        }
    }
}


impl Decoder {
    /// Runs one transition of the state machine: consumes the bytes the
    /// given state asks for, updates the records, and hands back the next
    /// state or the exact failure.
    pub fn process_next_state(&mut self, next_state: ParserState) -> (r: Result<
        ParserState,
        ParserError,
    >)
        requires
            old(self).wf(),
            !(next_state is Done),
            state_inv(*old(self), next_state),
        ensures
            final(self).wf(),
            step_post(*old(self), *final(self), next_state, r),
            r matches Ok(ns) ==> state_inv(*final(self), ns),
            old(self).special_purpose_extensions@.is_prefix_of(
                final(self).special_purpose_extensions@,
            ),
            old(self).graphic_blocks@.is_prefix_of(final(self).graphic_blocks@),
            (forall|i: int|
                0 <= i < old(self).graphic_blocks@.len() ==> frame_wf(
                    #[trigger] old(self).graphic_blocks@[i],
                )) ==> (forall|i: int|
                0 <= i < final(self).graphic_blocks@.len() ==> frame_wf(
                    #[trigger] final(self).graphic_blocks@[i],
                )),
            r matches Ok(ns) ==> (final(self).pos > old(self).pos || ((
            next_state is ProcessTrailer) && ns is Done && final(self).pos == old(self).pos)),
    {
        let ghost d = self.data@;
        let ghost p = self.pos as int;
        proof {
            lemma_prefix_refl(self.special_purpose_extensions@);
            lemma_prefix_refl(self.graphic_blocks@);
        }
        match next_state {
            ParserState::ProcessMagic => {
                let signature = self.read_str(3)?;
                if !(signature.len() == 3 && signature[0] == 0x47 && signature[1] == 0x49
                    && signature[2] == 0x46) {
                    return Err(ParserError::InvalidSignature);
                }
                let version_bytes = self.read_str(3)?;
                let version = Version::try_from(version_bytes)?;
                self.version = Some(version);
                Ok(ParserState::ProcessLogicalScreenDescriptor)
            },
            ParserState::ProcessLogicalScreenDescriptor => {
                let screen_width = self.read_u16()?;
                let screen_height = self.read_u16()?;
                let packed_fields = self.read_byte()?;

                // packed field start
                let global_color_table_flag = packed_fields & 0x80 != 0;
                let color_resolution = (packed_fields >> 4) & 7;
                let sort_flag = packed_fields & 8 != 0;
                let ghost n_ghost = ((packed_fields & 7) + 1) as u32;
                proof {
                    assert(1 <= n_ghost <= 8) by (bit_vector)
                        requires
                            n_ghost == ((packed_fields & 7) + 1) as u32,
                    ;
                    assert(2 <= (1u32 << n_ghost) <= 256) by (bit_vector)
                        requires
                            1 <= n_ghost <= 8,
                    ;
                }
                let global_color_table_size = if global_color_table_flag {
                    Some(1u32 << (((packed_fields & 7) + 1) as u32))
                } else {
                    None
                };
                // packed field end

                let background_color_index = self.read_byte()?;
                let pixel_aspect_ratio = self.read_byte()?;

                self.logical_screen_descriptor = Some(
                    LogicalScreenDescriptor {
                        screen_height,
                        screen_width,
                        global_color_table_flag,
                        color_resolution,
                        sort_flag,
                        global_color_table_size,
                        background_color_index,
                        pixel_aspect_ratio,
                    },
                );

                let result_state = if global_color_table_flag {
                    ParserState::ProcessGlobalColorTable
                } else {
                    ParserState::DetermineNextBlock(None)
                };
                Ok(result_state)
            },
            ParserState::ProcessGlobalColorTable => {
                // the state invariant guarantees a recorded descriptor
                // with a palette size
                let size_entries: u32 = match self.logical_screen_descriptor {
                    Some(l) => match l.global_color_table_size {
                        Some(sz) => sz,
                        None => {
                            proof {
                                assert(false);
                            }
                            0
                        },
                    },
                    None => {
                        proof {
                            assert(false);
                        }
                        0
                    },
                };
                let table = self.read_bytes((3 * size_entries) as usize)?;
                self.global_color_table = Some(table);
                Ok(ParserState::DetermineNextBlock(None))
            },
            ParserState::ProcessTrailer => Ok(ParserState::Done),
            ParserState::DetermineNextBlock(graphic_control_extension) => {
                let introducer_or_label = self.read_byte()?;
                if introducer_or_label == EXTENSION_INTRODUCER {
                    // an extension introducer means that a label follows,
                    // determining the exact kind of extension
                    let label = self.read_byte()?;
                    Ok(ParserState::ProcessExtension(label, graphic_control_extension))
                } else if introducer_or_label == IMAGE_DESCRIPTOR_LABEL {
                    Ok(ParserState::ProcessImageDescriptor(graphic_control_extension))
                } else if introducer_or_label == TRAILER_LABEL {
                    if graphic_control_extension.is_some() {
                        Err(ParserError::ExpectedImageAfterGraphicControl)
                    } else {
                        Ok(ParserState::ProcessTrailer)
                    }
                } else {
                    Err(ParserError::UnexpectedBlockLabel(introducer_or_label))
                }
            },
            ParserState::ProcessExtension(label, graphic_control_extension) => {
                let ext = match ExtensionType::try_from(label) {
                    Ok(t) => t,
                    Err(e) => {
                        return Err(e);
                    },
                };
                self.process_extension(ext, graphic_control_extension)
            },
            ParserState::ProcessImageDescriptor(graphic_control_extension) => {
                let left_position = self.read_u16()?;
                let top_position = self.read_u16()?;
                let width = self.read_u16()?;
                let height = self.read_u16()?;
                let packed_fields = self.read_byte()?;

                let local_color_table_flag = packed_fields & 0x80 != 0;
                let interlace_flag = packed_fields & 0x40 != 0;
                let sort_flag = packed_fields & 0x20 != 0;
                let ghost n_ghost = ((packed_fields & 7) + 1) as u32;
                proof {
                    assert(1 <= n_ghost <= 8) by (bit_vector)
                        requires
                            n_ghost == ((packed_fields & 7) + 1) as u32,
                    ;
                    assert(2 <= (1u32 << n_ghost) <= 256) by (bit_vector)
                        requires
                            1 <= n_ghost <= 8,
                    ;
                }
                let local_color_table_size = if local_color_table_flag {
                    Some(1u32 << (((packed_fields & 7) + 1) as u32))
                } else {
                    None
                };

                let graphic_block = GraphicBlock {
                    extension: graphic_control_extension,
                    render_block: TableBasedImage {
                        left_position,
                        top_position,
                        width,
                        height,
                        local_color_table_flag,
                        interlace_flag,
                        sort_flag,
                        local_color_table_size,
                        local_color_table: None,
                        image_indexes: None,
                    },
                };

                let result_state = if local_color_table_flag {
                    ParserState::ProcessLocalColorTable(graphic_block)
                } else {
                    ParserState::ProcessImageData(graphic_block)
                };
                Ok(result_state)
            },
            ParserState::ProcessLocalColorTable(mut graphic_block) => {
                // the state invariant guarantees a recorded palette size
                let size_entries: u32 = match graphic_block.render_block.local_color_table_size {
                    Some(sz) => sz,
                    None => {
                        proof {
                            assert(false);
                        }
                        0
                    },
                };
                let table = self.read_bytes((3 * size_entries) as usize)?;
                graphic_block.render_block.local_color_table = Some(table);
                Ok(ParserState::ProcessImageData(graphic_block))
            },
            ParserState::ProcessImageData(mut graphic_block) => {
                let lzw_code_size = self.read_byte()?;
                if lzw_code_size < 1 || lzw_code_size > 8 {
                    return Err(ParserError::InvalidLzwCodeSize(lzw_code_size));
                }
                let data_stream = self.read_data_sub_blocks()?;
                proof {
                    lemma_subblocks_end(d, p + 1);
                }
                let mut indicies = match lzw_decode(data_stream.as_slice(), lzw_code_size as u32) {
                    Ok(v) => v,
                    Err(e) => {
                        return Err(e);
                    },
                };
                proof {
                    let w = graphic_block.render_block.width as int;
                    let h = graphic_block.render_block.height as int;
                    assert(w * h <= 65535 * 65535) by (nonlinear_arith)
                        requires
                            0 <= w <= 65535 && 0 <= h <= 65535,
                    ;
                }
                let limit = (graphic_block.render_block.width as usize) * (
                graphic_block.render_block.height as usize);
                if indicies.len() > limit {
                    let _overrun = indicies.split_off(limit);
                }
                graphic_block.render_block.image_indexes = Some(indicies);
                let ghost frames0 = self.graphic_blocks@;
                self.graphic_blocks.push(graphic_block);
                proof {
                    lemma_prefix_push(frames0, self.graphic_blocks@.last());
                    assert(self.graphic_blocks@.subrange(0, frames0.len() as int) =~= frames0);
                }
                Ok(ParserState::DetermineNextBlock(None))
            },
            ParserState::Done => {
                // the terminal state is excluded by the precondition
                proof {
                    assert(false);
                }
                Err(ParserError::UnexpectedEof)
            },
        }
    }
}


impl Decoder {
    /// Drives the state machine from the header to the trailer. The
    /// outcome is exactly that of the functional parser `parse_spec`
    /// over the input bytes: on success the collected records equal its
    /// records and the stream was consumed through exactly one trailer
    /// byte; on failure the error is the model's error and the records
    /// are those gathered when it struck. In particular the version and
    /// screen descriptor are recorded on success, extensions and frames
    /// stand in input order, and every frame carries its decoded index
    /// buffer, at most one index per pixel.
    pub fn parse(&mut self) -> (r: Result<(), ParserError>)
        requires
            old(self).wf(),
        ensures
            final(self).wf(),
            final(self).data == old(self).data,
            old(self).special_purpose_extensions@.is_prefix_of(
                final(self).special_purpose_extensions@,
            ),
            old(self).graphic_blocks@.is_prefix_of(final(self).graphic_blocks@),
            (forall|i: int|
                0 <= i < old(self).graphic_blocks@.len() ==> frame_wf(
                    #[trigger] old(self).graphic_blocks@[i],
                )) ==> (forall|i: int|
                0 <= i < final(self).graphic_blocks@.len() ==> frame_wf(
                    #[trigger] final(self).graphic_blocks@[i],
                )),
            r is Ok ==> {
                &&& final(self).pos >= 1
                &&& final(self).data@[final(self).pos - 1] == TRAILER_LABEL
                &&& final(self).version is Some
                &&& final(self).logical_screen_descriptor is Some
            },
            match parse_spec(old(self).data@, old(self).pos as int, records_of(*old(self))) {
                ParseOutcome::Complete(m, end) => {
                    &&& r is Ok
                    &&& records_of(*final(self)) == m
                    &&& final(self).pos == end
                },
                ParseOutcome::Failed(em, m) => {
                    &&& r matches Err(e) && error_model_of(e) == em
                    &&& records_of(*final(self)) == m
                },
            },
    {
        let mut state = ParserState::ProcessMagic;

        loop
            invariant
                self.wf(),
                self.data == old(self).data,
                state_inv(*self, state),
                parse_run(self.data@, self.pos as int, model_of_state(state), records_of(*self))
                    == parse_spec(
                    old(self).data@,
                    old(self).pos as int,
                    records_of(*old(self)),
                ),
                old(self).special_purpose_extensions@.is_prefix_of(
                    self.special_purpose_extensions@,
                ),
                old(self).graphic_blocks@.is_prefix_of(self.graphic_blocks@),
                (forall|i: int|
                    0 <= i < old(self).graphic_blocks@.len() ==> frame_wf(
                        #[trigger] old(self).graphic_blocks@[i],
                    )) ==> (forall|i: int|
                    0 <= i < self.graphic_blocks@.len() ==> frame_wf(
                        #[trigger] self.graphic_blocks@[i],
                    )),
                !(state is ProcessMagic) ==> self.version is Some,
                !(state is ProcessMagic) && !(state is ProcessLogicalScreenDescriptor)
                    ==> self.logical_screen_descriptor is Some,
                (state is ProcessTrailer || state is Done) ==> self.pos >= 1 && self.data@[self.pos
                    - 1] == TRAILER_LABEL,
            decreases self.data@.len() - self.pos, state_rank(state),
        {
            match state {
                ParserState::Done => {
                    proof {
                        assert(parse_run(
                            self.data@,
                            self.pos as int,
                            StateModel::Finished,
                            records_of(*self),
                        ) == ParseOutcome::Complete(records_of(*self), self.pos as int));
                    }
                    return Ok(());
                },
                other => {
                    let ghost pre_snap = *self;
                    let ghost st = other;
                    let ghost exts0 = self.special_purpose_extensions@;
                    let ghost frames0 = self.graphic_blocks@;
                    let step_result = self.process_next_state(other);
                    proof {
                        lemma_step_run(pre_snap, *self, st, step_result);
                        lemma_prefix_trans(
                            old(self).special_purpose_extensions@,
                            exts0,
                            self.special_purpose_extensions@,
                        );
                        lemma_prefix_trans(
                            old(self).graphic_blocks@,
                            frames0,
                            self.graphic_blocks@,
                        );
                    }
                    match step_result {
                        Ok(ns) => {
                            state = ns;
                        },
                        Err(e) => {
                            return Err(e);
                        },
                    }
                },
            }
        }
    }

    /// The decoded frames, in input order.
    pub fn frames(&self) -> (r: &Vec<GraphicBlock>)
        ensures
            r == &self.graphic_blocks,
    {
        &self.graphic_blocks
    }

    /// The collected comment and application extensions, in input order.
    pub fn extensions(&self) -> (r: &Vec<SpecialPurposeExtension>)
        ensures
            r == &self.special_purpose_extensions,
    {
        &self.special_purpose_extensions
    }

    /// The stream version, once the header has been parsed.
    pub fn stream_version(&self) -> (r: Option<Version>)
        ensures
            r == self.version,
    {
        self.version
    }

    /// The logical screen descriptor, once parsed.
    pub fn screen_descriptor(&self) -> (r: Option<LogicalScreenDescriptor>)
        ensures
            r == self.logical_screen_descriptor,
    {
        self.logical_screen_descriptor
    }

    /// The global palette bytes, when the stream carries one.
    pub fn global_palette(&self) -> (r: &Option<Vec<u8>>)
        ensures
            r == &self.global_color_table,
    {
        &self.global_color_table
    }

    /// The loop directive, when the stream carries one.
    pub fn loop_directive_count(&self) -> (r: Option<LoopCount>)
        ensures
            r == self.loop_count,
    {
        self.loop_count
    }
}

impl GraphicBlock {
    /// The palette this frame's indices resolve against: the local one
    /// when present, else the given global one, else nothing.
    pub fn palette<'a>(&'a self, global: &'a Option<Vec<u8>>) -> (r: Option<&'a Vec<u8>>)
        ensures
            match self.render_block.local_color_table {
                Some(t) => r matches Some(rv) && rv@ == t@,
                None => match global {
                    Some(g) => r matches Some(rv) && rv@ == g@,
                    None => r is None,
                },
            },
    {
        match &self.render_block.local_color_table {
            Some(t) => Some(t),
            None => match global {
                Some(g) => Some(g),
                None => None,
            },
        }
    }

    /// The per-frame delay in hundredths of a second; zero without a
    /// graphic control record.
    pub fn delay(&self) -> (r: u16)
        ensures
            r == match self.extension {
                Some(e) => e.delay_time,
                None => 0u16,
            },
    {
        match &self.extension {
            Some(e) => e.delay_time,
            None => 0,
        }
    }

    /// The disposal method field; zero (unspecified) without a graphic
    /// control record.
    pub fn disposal(&self) -> (r: u8)
        ensures
            r == match self.extension {
                Some(e) => e.disposal_method,
                None => 0u8,
            },
    {
        match &self.extension {
            Some(e) => e.disposal_method,
            None => 0,
        }
    }

    /// The decoded palette indices, one per pixel; empty until the image
    /// data has been decompressed.
    pub fn indicies(&self) -> (r: Option<&Vec<u8>>)
        ensures
            match self.render_block.image_indexes {
                Some(ix) => r matches Some(rv) && rv@ == ix@,
                None => r is None,
            },
    {
        match &self.render_block.image_indexes {
            Some(ix) => Some(ix),
            None => None,
        }
    }
}

} // verus!
