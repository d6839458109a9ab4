//! The frame wire format: a fixed header the frontend parses, followed by
//! either raw pixels or an encoded PNG.
//!
//! The header carries everything the frontend has to know before it can look
//! at the payload, and it carries the outcome too: a request that was
//! overtaken by a newer one for the same tab comes back as
//! [`FrameStatus::Superseded`] with no payload, which is an ordinary event
//! rather than a failure.

use vstd::prelude::*;
use vstd::utf8::encode_utf8;

use crate::fixed::{round_div, round_quotient, Fixed};
use crate::text::{chars_of, same_text};

verus! {

/// Bytes at the front of every frame reply.
///
/// A multiple of four so a view can start at the payload: an image refuses
/// an unaligned offset.
pub const HEADER_LEN: usize = 32;

/// Wire version of the header. Bumped when the layout changes.
pub const VERSION: u16 = 1;

/// Set when the payload is a PNG rather than raw RGBA8.
pub const FLAG_PNG: u8 = 1;

/// Set when the frame was rendered at half resolution.
pub const FLAG_DRAFT: u8 = 2;

/// Identifies a frame buffer, so a truncated or mis-routed reply is caught
/// before it is treated as pixels: the letters `HEPF`.
pub const MAGIC: [u8; 4] = [0x48, 0x45, 0x50, 0x46];

/// [`MAGIC`] as a sequence.
pub open spec fn magic() -> Seq<u8> {
    MAGIC@
}

/// What became of the frame request.
#[derive(Debug, Clone, Copy, PartialEq, Eq, Structural)]
pub enum FrameStatus {
    /// The payload is a picture.
    Drawn,
    /// A newer request for the same tab arrived first. No payload.
    Superseded,
    /// Rendering failed. The payload is the UTF-8 message.
    Error,
    /// The tab was closed between the request and its turn. No payload.
    NoSuchTab,
}

/// A status as it stands on the wire.
pub open spec fn status_byte(status: FrameStatus) -> u8 {
    match status {
        FrameStatus::Drawn => 0,
        FrameStatus::Superseded => 1,
        FrameStatus::Error => 2,
        FrameStatus::NoSuchTab => 3,
    }
}

/// The status a byte stands for, when it stands for one.
pub open spec fn status_of(value: u8) -> Option<FrameStatus> {
    if value == 0 {
        Some(FrameStatus::Drawn)
    } else if value == 1 {
        Some(FrameStatus::Superseded)
    } else if value == 2 {
        Some(FrameStatus::Error)
    } else if value == 3 {
        Some(FrameStatus::NoSuchTab)
    } else {
        None
    }
}

impl FrameStatus {
    /// Read a status back off the wire.
    pub fn from_u8(value: u8) -> (r: Option<FrameStatus>)
        ensures
            r == status_of(value),
    {
        match value {
            0 => Some(FrameStatus::Drawn),
            1 => Some(FrameStatus::Superseded),
            2 => Some(FrameStatus::Error),
            3 => Some(FrameStatus::NoSuchTab),
            _ => None,
        }
    }

    /// The byte a status is written as.
    pub fn as_u8(self) -> (r: u8)
        ensures
            r == status_byte(self),
    {
        match self {
            FrameStatus::Drawn => 0,
            FrameStatus::Superseded => 1,
            FrameStatus::Error => 2,
            FrameStatus::NoSuchTab => 3,
        }
    }
}

/// How the pixels are carried to the webview.
///
/// Binary transport is not equally fast everywhere. A plot is flat color and
/// compresses hard, so where the transport is the bottleneck it is cheaper
/// to spend a fast deflate than to send the bytes.
#[derive(Debug, Clone, Copy, PartialEq, Eq, Structural)]
pub enum Encoding {
    /// RGBA8 exactly as the renderer produced it.
    RawRgba,
    /// PNG at the cheap end of the filter and deflate range.
    PngFast,
}

impl Default for Encoding {
    fn default() -> (r: Encoding)
        ensures
            r == Encoding::RawRgba,
    {
        Encoding::RawRgba
    }
}

/// True for white space: the characters with the White_Space property.
pub open spec fn white(c: char) -> bool {
    let n = c as u32;
    9 <= n <= 13 || n == 0x20 || n == 0x85 || n == 0xa0 || n == 0x1680 || 0x2000 <= n <= 0x200a || n
        == 0x2028 || n == 0x2029 || n == 0x202f || n == 0x205f || n == 0x3000
}

/// The first place from `i` on without white space.
pub open spec fn lead_end(s: Seq<char>, i: int) -> int
    decreases s.len() - i,
{
    if 0 <= i < s.len() && white(s[i]) {
        lead_end(s, i + 1)
    } else {
        i
    }
}

/// The place after the last one before `j`, and not before `i`, without white
/// space.
pub open spec fn tail_start(s: Seq<char>, i: int, j: int) -> int
    decreases j - i,
{
    if 0 <= i < j <= s.len() && white(s[j - 1]) {
        tail_start(s, i, j - 1)
    } else {
        j
    }
}

/// `s` without the white space at its ends.
pub open spec fn trimmed_text(s: Seq<char>) -> Seq<char> {
    let i = lead_end(s, 0);
    s.subrange(i, tail_start(s, i, s.len() as int))
}

fn is_white(c: char) -> (r: bool)
    ensures
        r == white(c),
{
    let n: u32 = c as u32;
    9 <= n && n <= 13 || n == 0x20 || n == 0x85 || n == 0xa0 || n == 0x1680 || 0x2000 <= n && n
        <= 0x200a || n == 0x2028 || n == 0x2029 || n == 0x202f || n == 0x205f || n == 0x3000
}

/// The text without the white space at its ends.
fn trimmed(s: &str) -> (r: String)
    ensures
        r@ == trimmed_text(s@),
{
    let chars = chars_of(s);
    let mut i: usize = 0;
    while i < chars.len() && is_white(chars[i])
        invariant
            i <= chars@.len(),
            lead_end(chars@, 0) == lead_end(chars@, i as int),
        decreases chars@.len() - i,
    {
        i = i + 1;
    }
    let mut j: usize = chars.len();
    while i < j && is_white(chars[j - 1])
        invariant
            i <= j <= chars@.len(),
            tail_start(chars@, i as int, chars@.len() as int) == tail_start(
                chars@,
                i as int,
                j as int,
            ),
        decreases j,
    {
        j = j - 1;
    }
    let mut out = String::new();
    let mut k: usize = i;
    assert(out@ =~= chars@.subrange(i as int, k as int));
    while k < j
        invariant
            i <= k <= j <= chars@.len(),
            out@ == chars@.subrange(i as int, k as int),
        decreases j - k,
    {
        out.push(chars[k]);
        k = k + 1;
        assert(out@ =~= chars@.subrange(i as int, k as int));
    }
    out
}

/// The encoding a setting asks for: `raw` or `rgba`, or `png`; anything else
/// leaves it to the platform, where the slow transport wants the PNG.
pub open spec fn encoding_for(setting: Option<Seq<char>>, windows: bool) -> Encoding {
    if setting == Some("raw"@) || setting == Some("rgba"@) {
        Encoding::RawRgba
    } else if setting == Some("png"@) || windows {
        Encoding::PngFast
    } else {
        Encoding::RawRgba
    }
}

impl Encoding {
    /// The encoding to use, given the `HEPHAESTUS_VIEWER_ENCODING` setting
    /// as it stands in the environment.
    ///
    /// Windows is the one platform where the transport is slow enough that
    /// encoding wins; elsewhere the raw path is both faster and simpler. The
    /// override is what makes the two comparable on one machine.
    pub fn resolve(setting: Option<&str>, windows: bool) -> (r: Encoding)
        ensures
            r == encoding_for(
                match setting {
                    Some(s) => Some(trimmed_text(s@)),
                    None => None,
                },
                windows,
            ),
    {
        match setting {
            Some(s) => {
                let word = trimmed(s);
                Encoding::from_setting(Some(word.as_str()), windows)
            },
            None => Encoding::from_setting(None, windows),
        }
    }

    /// The encoding a setting without surrounding white space asks for.
    pub fn from_setting(setting: Option<&str>, windows: bool) -> (r: Encoding)
        ensures
            r == encoding_for(
                match setting {
                    Some(s) => Some(s@),
                    None => None,
                },
                windows,
            ),
    {
        if let Some(s) = setting {
            if same_text(s, "raw") || same_text(s, "rgba") {
                return Encoding::RawRgba;
            }
            if same_text(s, "png") {
                return Encoding::PngFast;
            }
        }
        if windows {
            Encoding::PngFast
        } else {
            Encoding::RawRgba
        }
    }

    /// The flag bit an encoding sets.
    pub open spec fn spec_flag(self) -> u8 {
        match self {
            Encoding::RawRgba => 0,
            Encoding::PngFast => FLAG_PNG,
        }
    }

    /// Flag bit this encoding sets in a frame header.
    pub fn flag(self) -> (r: u8)
        ensures
            r == self.spec_flag(),
    {
        match self {
            Encoding::RawRgba => 0,
            Encoding::PngFast => FLAG_PNG,
        }
    }
}

/// The fixed part of a frame reply.
#[derive(Debug, Clone, Copy, PartialEq, Eq, Structural)]
pub struct FrameHeader {
    /// `FLAG_PNG` and `FLAG_DRAFT`.
    pub flags: u8,
    /// What became of the request.
    pub status: FrameStatus,
    /// Picture width in device pixels: half the requested width on a draft
    /// frame.
    pub width: u32,
    /// Picture height in device pixels.
    pub height: u32,
    /// Dots per inch the layout was solved against. Carried to a thousandth,
    /// which is finer than any device pixel ratio in use.
    pub dpi: Fixed,
    /// Which document the picture belongs to.
    pub tab: u32,
    /// The frontend's request counter, echoed back so a late reply can be
    /// recognized as late.
    pub seq: u32,
    /// Bytes following the header.
    pub payload_len: u32,
}

/// A number as four bytes, the least significant first.
pub open spec fn le32(v: u32) -> Seq<u8> {
    seq![
        (v % 256) as u8,
        (v / 256 % 256) as u8,
        (v / 65536 % 256) as u8,
        (v / 16777216) as u8,
    ]
}

/// The number that four bytes starting at `at` stand for.
pub open spec fn le32_at(bytes: Seq<u8>, at: int) -> u32 {
    (bytes[at] + 256 * bytes[at + 1] + 65536 * bytes[at + 2] + 16777216 * bytes[at + 3]) as u32
}

/// dpi in thousandths: to the nearest, nothing below zero, and the largest
/// number that fits for anything past it.
pub open spec fn milli_of(dpi: Fixed) -> u32 {
    let milli = round_div(dpi.nanos as int, 1_000_000);
    if milli <= 0 {
        0
    } else if milli > u32::MAX {
        u32::MAX
    } else {
        milli as u32
    }
}

/// A header as it stands on the wire.
pub open spec fn header_bytes(h: FrameHeader) -> Seq<u8> {
    magic() + seq![1u8, 0u8, h.flags, status_byte(h.status)] + le32(h.width) + le32(h.height)
        + le32(milli_of(h.dpi)) + le32(h.tab) + le32(h.seq) + le32(h.payload_len)
}

/// A whole reply: the header, naming the length of what follows, and the
/// payload.
pub open spec fn frame_bytes(h: FrameHeader, payload: Seq<u8>) -> Seq<u8> {
    header_bytes(
        FrameHeader { payload_len: (payload.len() % 0x1_0000_0000) as u32, ..h },
    ) + payload
}

/// The header that a buffer starts with, when it is a frame of this version.
pub open spec fn decoded(bytes: Seq<u8>) -> Option<FrameHeader> {
    if bytes.len() < HEADER_LEN || bytes.take(4) != magic() {
        None
    } else if bytes[4] + 256 * bytes[5] != VERSION {
        None
    } else {
        match status_of(bytes[7]) {
            None => None,
            Some(status) => Some(
                FrameHeader {
                    flags: bytes[6],
                    status,
                    width: le32_at(bytes, 8),
                    height: le32_at(bytes, 12),
                    dpi: Fixed { nanos: (le32_at(bytes, 16) * 1_000_000) as i64 },
                    tab: le32_at(bytes, 20),
                    seq: le32_at(bytes, 24),
                    payload_len: le32_at(bytes, 28),
                },
            ),
        }
    }
}

/// dpi in thousandths, saturating rather than wrapping on a nonsense value.
fn dpi_to_milli(dpi: Fixed) -> (r: u32)
    ensures
        r == milli_of(dpi),
{
    let milli: i128 = round_quotient(dpi.nanos as i128, 1_000_000);
    if milli <= 0 {
        0
    } else if milli > u32::MAX as i128 {
        u32::MAX
    } else {
        milli as u32
    }
}

/// Read four bytes at `at` as a number.
pub fn read_u32(bytes: &[u8], at: usize) -> (r: u32)
    requires
        at + 4 <= bytes@.len(),
    ensures
        r == le32_at(bytes@, at as int),
{
    let (a, b, c, d) = (bytes[at], bytes[at + 1], bytes[at + 2], bytes[at + 3]);
    a as u32 + 256 * b as u32 + 65536 * c as u32 + 16777216 * d as u32
}

/// Write a number over the four bytes at `at`.
fn write_u32(out: &mut Vec<u8>, at: usize, v: u32)
    requires
        at + 4 <= old(out)@.len(),
    ensures
        final(out)@ == old(out)@.take(at as int) + le32(v) + old(out)@.skip(at + 4),
{
    assert(out.len() <= usize::MAX);
    out[at] = (v % 256) as u8;
    out[at + 1] = (v / 256 % 256) as u8;
    out[at + 2] = (v / 65536 % 256) as u8;
    out[at + 3] = (v / 16777216) as u8;
    assert(out@ =~= old(out)@.take(at as int) + le32(v) + old(out)@.skip(at + 4));
}

impl FrameHeader {
    /// A header that carries no picture.
    pub open spec fn spec_empty(status: FrameStatus, tab: u32, seq: u32) -> FrameHeader {
        FrameHeader {
            flags: 0,
            status,
            width: 0,
            height: 0,
            dpi: Fixed { nanos: 0 },
            tab,
            seq,
            payload_len: 0,
        }
    }

    /// A header for a reply that carries no picture.
    pub fn empty(status: FrameStatus, tab: u32, seq: u32) -> (r: FrameHeader)
        ensures
            r == FrameHeader::spec_empty(status, tab, seq),
    {
        FrameHeader {
            flags: 0,
            status,
            width: 0,
            height: 0,
            dpi: Fixed { nanos: 0 },
            tab,
            seq,
            payload_len: 0,
        }
    }

    /// Write the header over the first [`HEADER_LEN`] bytes of `out`.
    pub fn write_into(&self, out: &mut Vec<u8>)
        requires
            old(out)@.len() >= HEADER_LEN,
        ensures
            final(out)@ == header_bytes(*self) + old(out)@.skip(HEADER_LEN as int),
    {
        let ghost rest = out@.skip(HEADER_LEN as int);
        out[0] = 0x48;
        out[1] = 0x45;
        out[2] = 0x50;
        out[3] = 0x46;
        out[4] = 1;
        out[5] = 0;
        out[6] = self.flags;
        out[7] = self.status.as_u8();
        let ghost head = magic() + seq![1u8, 0u8, self.flags, status_byte(self.status)];
        assert(out@.take(8) =~= head);
        write_u32(out, 8, self.width);
        assert(out@.take(12) =~= head + le32(self.width));
        write_u32(out, 12, self.height);
        assert(out@.take(16) =~= head + le32(self.width) + le32(self.height));
        let milli = dpi_to_milli(self.dpi);
        write_u32(out, 16, milli);
        let ghost head = head + le32(self.width) + le32(self.height) + le32(milli);
        assert(out@.take(20) =~= head);
        write_u32(out, 20, self.tab);
        assert(out@.take(24) =~= head + le32(self.tab));
        write_u32(out, 24, self.seq);
        assert(out@.take(28) =~= head + le32(self.tab) + le32(self.seq));
        write_u32(out, 28, self.payload_len);
        assert(out@.skip(32) =~= rest);
        assert(out@ =~= header_bytes(*self) + rest);
    }

    /// A header plus its payload as one buffer.
    pub fn with_payload(self, payload: &[u8]) -> (out: Vec<u8>)
        ensures
            out@ == frame_bytes(self, payload@),
    {
        let payload_len: u32 = (payload.len() as u64 % 0x1_0000_0000) as u32;
        let header = FrameHeader { payload_len, ..self };
        let mut out: Vec<u8> = vec![0u8; HEADER_LEN];
        header.write_into(&mut out);
        let mut i: usize = 0;
        assert(out@ =~= header_bytes(header) + payload@.take(0));
        while i < payload.len()
            invariant
                i <= payload@.len(),
                out@ == header_bytes(header) + payload@.take(i as int),
            decreases payload@.len() - i,
        {
            out.push(payload[i]);
            assert(payload@.take(i + 1) =~= payload@.take(i as int).push(payload@[i as int]));
            i = i + 1;
            assert(out@ =~= header_bytes(header) + payload@.take(i as int));
        }
        assert(payload@.take(i as int) =~= payload@);
        out
    }

    /// Read a header back, or `None` if `bytes` is too short or not a frame.
    pub fn decode(bytes: &[u8]) -> (r: Option<FrameHeader>)
        ensures
            r == decoded(bytes@),
    {
        if bytes.len() < HEADER_LEN {
            return None;
        }
        let ghost head = bytes@.take(4);
        if bytes[0] != 0x48 || bytes[1] != 0x45 || bytes[2] != 0x50 || bytes[3] != 0x46 {
            assert(head[0] == bytes@[0] && head[1] == bytes@[1] && head[2] == bytes@[2] && head[3]
                == bytes@[3]);
            return None;
        }
        assert(head =~= magic());
        if bytes[4] as u16 + 256 * bytes[5] as u16 != VERSION {
            return None;
        }
        match FrameStatus::from_u8(bytes[7]) {
            None => None,
            Some(status) => Some(
                FrameHeader {
                    flags: bytes[6],
                    status,
                    width: read_u32(bytes, 8),
                    height: read_u32(bytes, 12),
                    dpi: Fixed { nanos: read_u32(bytes, 16) as i64 * 1_000_000 },
                    tab: read_u32(bytes, 20),
                    seq: read_u32(bytes, 24),
                    payload_len: read_u32(bytes, 28),
                },
            ),
        }
    }

    /// True when the payload is a PNG.
    pub fn is_png(&self) -> (r: bool)
        ensures
            r == (self.flags & FLAG_PNG != 0),
    {
        self.flags & FLAG_PNG != 0
    }

    /// True when the picture is half-resolution.
    pub fn is_draft(&self) -> (r: bool)
        ensures
            r == (self.flags & FLAG_DRAFT != 0),
    {
        self.flags & FLAG_DRAFT != 0
    }
}

/// The reply that reports a failure.
pub fn error_frame(tab: u32, seq: u32, message: &str) -> (r: Vec<u8>)
    ensures
        r@ == frame_bytes(
            FrameHeader::spec_empty(FrameStatus::Error, tab, seq),
            encode_utf8(message@),
        ),
{
    FrameHeader::empty(FrameStatus::Error, tab, seq).with_payload(message.as_bytes())
}

/// The reply for a window that is showing no document.
///
/// Not an error: a window whose document was closed can have a frame request
/// already in flight, and an empty window asking for one is the ordinary
/// state of a freshly opened window.
pub fn no_document(seq: u32) -> (r: Vec<u8>)
    ensures
        r@ == frame_bytes(FrameHeader::spec_empty(FrameStatus::NoSuchTab, 0, seq), seq![]),
{
    let nothing: Vec<u8> = Vec::new();
    FrameHeader::empty(FrameStatus::NoSuchTab, 0, seq).with_payload(nothing.as_slice())
}

proof fn lemma_le32_round_trip(v: u32, bytes: Seq<u8>, at: int)
    requires
        0 <= at,
        at + 4 <= bytes.len(),
        bytes.subrange(at, at + 4) == le32(v),
    ensures
        le32_at(bytes, at) == v,
{
    let s = bytes.subrange(at, at + 4);
    assert(s[0] == bytes[at] && s[1] == bytes[at + 1] && s[2] == bytes[at + 2] && s[3] == bytes[at
        + 3]);
    assert(v / 16777216 < 256);
    assert(v == v % 256 + 256 * (v / 256 % 256) + 65536 * (v / 65536 % 256) + 16777216 * (v
        / 16777216));
}

/// A reply that this library writes reads back as the header it was written
/// from: the length is that of the payload, and the resolution is exact to a
/// thousandth.
pub proof fn lemma_frame_round_trip(h: FrameHeader, payload: Seq<u8>)
    ensures
        decoded(frame_bytes(h, payload)) == Some(
            FrameHeader {
                payload_len: (payload.len() % 0x1_0000_0000) as u32,
                dpi: Fixed { nanos: (milli_of(h.dpi) * 1_000_000) as i64 },
                ..h
            },
        ),
{
    let full = FrameHeader { payload_len: (payload.len() % 0x1_0000_0000) as u32, ..h };
    let b = frame_bytes(h, payload);
    assert(header_bytes(full).len() == 32);
    assert(b.take(4) =~= magic());
    assert(b[4] == 1 && b[5] == 0 && b[6] == h.flags && b[7] == status_byte(h.status));
    assert(b.subrange(8, 12) =~= le32(full.width));
    lemma_le32_round_trip(full.width, b, 8);
    assert(b.subrange(12, 16) =~= le32(full.height));
    lemma_le32_round_trip(full.height, b, 12);
    assert(b.subrange(16, 20) =~= le32(milli_of(full.dpi)));
    lemma_le32_round_trip(milli_of(full.dpi), b, 16);
    assert(b.subrange(20, 24) =~= le32(full.tab));
    lemma_le32_round_trip(full.tab, b, 20);
    assert(b.subrange(24, 28) =~= le32(full.seq));
    lemma_le32_round_trip(full.seq, b, 24);
    assert(b.subrange(28, 32) =~= le32(full.payload_len));
    lemma_le32_round_trip(full.payload_len, b, 28);
}

/// A resolution in thousandths comes back as it was; any other that is
/// positive and fits comes back less than a thousandth away.
pub proof fn lemma_dpi_survives_to_a_thousandth(dpi: Fixed)
    requires
        0 <= dpi.nanos <= 4_294_967_295_000_000,
    ensures
        -1_000_000 < milli_of(dpi) * 1_000_000 - dpi.nanos < 1_000_000,
        dpi.nanos % 1_000_000 == 0 ==> milli_of(dpi) * 1_000_000 == dpi.nanos,
{
}

/// A whole number of four bytes, the lowest first.
pub open spec fn number_at(bytes: Seq<u8>, at: int) -> int {
    bytes[at] + 0x100 * bytes[at + 1] + 0x1_0000 * bytes[at + 2] + 0x100_0000 * bytes[at + 3]
}

proof fn lemma_le32_is_a_number(v: u32, bytes: Seq<u8>, at: int)
    requires
        0 <= at,
        at + 4 <= bytes.len(),
        bytes.subrange(at, at + 4) == le32(v),
    ensures
        number_at(bytes, at) == v,
{
    let b = bytes.subrange(at, at + 4);
    assert(b[0] == bytes[at] && b[1] == bytes[at + 1] && b[2] == bytes[at + 2] && b[3] == bytes[at
        + 3]);
}

/// A reply is thirty-two bytes and the payload behind them: the letters HEPF,
/// the version, the flags, the status, and then the width, the height, the
/// resolution in thousandths, the tab, the sequence number and the length of
/// the payload, each in four bytes with the lowest first.
pub proof fn lemma_frame_layout(h: FrameHeader, payload: Seq<u8>)
    requires
        payload.len() < 0x1_0000_0000,
    ensures
        ({
            let b = frame_bytes(h, payload);
            &&& b.len() == 32 + payload.len()
            &&& b.skip(32) == payload
            &&& b[0] == 0x48 && b[1] == 0x45 && b[2] == 0x50 && b[3] == 0x46
            &&& b[4] == 1 && b[5] == 0
            &&& b[6] == h.flags
            &&& b[7] == match h.status {
                FrameStatus::Drawn => 0u8,
                FrameStatus::Superseded => 1u8,
                FrameStatus::Error => 2u8,
                FrameStatus::NoSuchTab => 3u8,
            }
            &&& number_at(b, 8) == h.width
            &&& number_at(b, 12) == h.height
            &&& 0 <= h.dpi.nanos <= 4_294_967_295_000_000 ==> -500_000 <= number_at(b, 16)
                * 1_000_000 - h.dpi.nanos <= 500_000
            &&& number_at(b, 20) == h.tab
            &&& number_at(b, 24) == h.seq
            &&& number_at(b, 28) == payload.len()
        }),
{
    let full = FrameHeader { payload_len: (payload.len() % 0x1_0000_0000) as u32, ..h };
    let b = frame_bytes(h, payload);
    assert(header_bytes(full).len() == 32);
    assert(b.skip(32) =~= payload);
    assert(b.take(4) =~= magic());
    assert(b.take(4)[0] == b[0] && b.take(4)[1] == b[1] && b.take(4)[2] == b[2] && b.take(4)[3]
        == b[3]);
    assert(b.subrange(8, 12) =~= le32(full.width));
    lemma_le32_is_a_number(full.width, b, 8);
    assert(b.subrange(12, 16) =~= le32(full.height));
    lemma_le32_is_a_number(full.height, b, 12);
    assert(b.subrange(16, 20) =~= le32(milli_of(full.dpi)));
    lemma_le32_is_a_number(milli_of(full.dpi), b, 16);
    assert(b.subrange(20, 24) =~= le32(full.tab));
    lemma_le32_is_a_number(full.tab, b, 20);
    assert(b.subrange(24, 28) =~= le32(full.seq));
    lemma_le32_is_a_number(full.seq, b, 24);
    assert(b.subrange(28, 32) =~= le32(full.payload_len));
    lemma_le32_is_a_number(full.payload_len, b, 28);
}

/// Nothing reads back from bytes that are too few, that start otherwise, or that
/// are of another version or of no known status.
pub proof fn lemma_foreign_bytes_are_refused(bytes: Seq<u8>)
    ensures
        decoded(bytes) is Some <==> bytes.len() >= 32 && bytes[0] == 0x48 && bytes[1] == 0x45
            && bytes[2] == 0x50 && bytes[3] == 0x46 && bytes[4] == 1 && bytes[5] == 0 && bytes[7] <= 3,
{
    if bytes.len() >= 32 {
        let start = bytes.take(4);
        assert(start[0] == bytes[0] && start[1] == bytes[1] && start[2] == bytes[2] && start[3]
            == bytes[3]);
        if bytes[0] == 0x48 && bytes[1] == 0x45 && bytes[2] == 0x50 && bytes[3] == 0x46 {
            assert(start =~= magic());
        }
    }
}

proof fn lemma_lead_is_white(s: Seq<char>, i: int)
    requires
        0 <= i <= s.len(),
    ensures
        i <= lead_end(s, i) <= s.len(),
        forall|k: int| i <= k < lead_end(s, i) ==> white(#[trigger] s[k]),
        lead_end(s, i) < s.len() ==> !white(s[lead_end(s, i)]),
    decreases s.len() - i,
{
    if i < s.len() && white(s[i]) {
        lemma_lead_is_white(s, i + 1);
    }
}

proof fn lemma_tail_is_white(s: Seq<char>, i: int, j: int)
    requires
        0 <= i <= j <= s.len(),
    ensures
        i <= tail_start(s, i, j) <= j,
        forall|k: int| tail_start(s, i, j) <= k < j ==> white(#[trigger] s[k]),
        tail_start(s, i, j) > i ==> !white(s[tail_start(s, i, j) - 1]),
    decreases j - i,
{
    if i < j && white(s[j - 1]) {
        lemma_tail_is_white(s, i, j - 1);
    }
}

/// Trimming takes white space off both ends, all of it, and nothing else.
pub proof fn lemma_trimming_takes_white_space(s: Seq<char>) -> (ends: (int, int))
    ensures
        0 <= ends.0 <= ends.1 <= s.len(),
        trimmed_text(s) == s.subrange(ends.0, ends.1),
        forall|k: int| 0 <= k < ends.0 || ends.1 <= k < s.len() ==> white(#[trigger] s[k]),
        trimmed_text(s).len() > 0 ==> !white(trimmed_text(s)[0]) && !white(trimmed_text(s).last()),
{
    let i = lead_end(s, 0);
    lemma_lead_is_white(s, 0);
    lemma_tail_is_white(s, i, s.len() as int);
    (i, tail_start(s, i, s.len() as int))
}

} // verus!
