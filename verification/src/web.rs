//! The browser client: fonts a page registers, and a document drawn as SVG
//! at whatever size the page has.

use vstd::prelude::*;

use crate::color::Color;
use crate::fixed::{Fixed, Reading, ONE};
use crate::geometry::Size;
use crate::svg::config::{ConfigView, SvgConfig, SvgUnits, SvgWarning, TextMode};
use crate::svg::font::{generic_text, GenericFamilyKind};
use crate::svg::model::fresh_scene;
use crate::svg::scene::{encode_svg, SvgScene};
use crate::text::{debug_text, quoted, same_text, texts};
use crate::viewer::doc::DocumentHints;
use crate::viewer::export::{describe, warning_name};

verus! {

/// `wuff::WuffErr`: why a font container could not be unwrapped. It has one
/// value, so it carries nothing.
#[verifier::external_type_specification]
#[verifier::external_body]
pub struct ExWuffErr(wuff::WuffErr);

/// The number that four bytes stand for, the most significant first.
pub open spec fn number_at(bytes: Seq<u8>, at: int) -> int {
    bytes[at] * 0x100_0000 + bytes[at + 1] * 0x1_0000 + bytes[at + 2] * 0x100 + bytes[at + 3]
}

fn read_number(bytes: &[u8], at: usize) -> (n: u64)
    requires
        at + 4 <= bytes@.len(),
    ensures
        n == number_at(bytes@, at as int),
        n <= u32::MAX,
{
    bytes[at] as u64 * 0x100_0000 + bytes[at + 1] as u64 * 0x1_0000 + bytes[at + 2] as u64 * 0x100
        + bytes[at + 3] as u64
}

/// The flavor of a container that holds a collection: `ttcf`.
pub const COLLECTION: u32 = 0x7474_6366;

/// Bytes in the header of a WOFF2 container.
pub const WOFF2_HEADER: usize = 48;

/// True when a block that a WOFF2 container announces, by its offset and its
/// length, ends with `total` bytes, rounded up to four, at the latest, or is none.
pub open spec fn block_fits(bytes: Seq<u8>, at: int, total: int) -> bool {
    number_at(bytes, at) == 0 || number_at(bytes, at) + number_at(bytes, at + 4) <= total + 3
}

/// Where what follows the compressed bytes of a WOFF2 container starts.
pub open spec fn font_end(bytes: Seq<u8>) -> int {
    if number_at(bytes, 28) != 0 {
        number_at(bytes, 28)
    } else if number_at(bytes, 40) != 0 {
        number_at(bytes, 40)
    } else {
        bytes.len() as int
    }
}

/// True when a WOFF2 container does not announce more compressed bytes than
/// it has bytes at all, nor metadata or private data beyond its end, and is
/// not a collection with so much before the compressed bytes that its
/// directories could not be addressed: each of those bytes can stand for an
/// entry of sixteen. One that ends before it announces any is none of these.
pub open spec fn woff2_fits(bytes: Seq<u8>) -> bool {
    bytes.len() >= WOFF2_HEADER ==> number_at(bytes, 20) <= bytes.len() && block_fits(
        bytes,
        28,
        bytes.len() as int,
    ) && block_fits(bytes, 40, bytes.len() as int) && (number_at(bytes, 4) == COLLECTION ==> 16 * (
    font_end(bytes) - number_at(bytes, 20)) + 24 <= i32::MAX)
}

/// Bytes in the header of a WOFF container.
pub const WOFF_HEADER: usize = 44;

/// Bytes in one entry of its directory.
pub const WOFF_ENTRY: usize = 20;

/// How many tables a WOFF container announces.
pub open spec fn woff1_tables(bytes: Seq<u8>) -> int {
    bytes[12] * 0x100 + bytes[13]
}

/// Room for the first `n` tables that a WOFF container announces, as they
/// stand in it or in the font, whichever is longer, with their directory.
pub open spec fn woff1_room(bytes: Seq<u8>, n: nat) -> int
    decreases n,
{
    if n == 0 {
        12
    } else {
        let entry = WOFF_HEADER + (n - 1) * WOFF_ENTRY;
        let wrapped = number_at(bytes, entry + 8);
        let bare = number_at(bytes, entry + 12);
        woff1_room(bytes, (n - 1) as nat) + 16 + 3 + if wrapped > bare {
            wrapped
        } else {
            bare
        }
    }
}

/// True when the font in a WOFF container can be addressed: its tables and
/// their directory come to no more than one allocation can be. A container
/// whose directory is cut short holds no font.
pub open spec fn woff1_fits(bytes: Seq<u8>) -> bool {
    bytes.len() >= WOFF_HEADER && bytes.len() >= WOFF_HEADER + woff1_tables(bytes) * WOFF_ENTRY
        ==> woff1_room(bytes, woff1_tables(bytes) as nat) <= isize::MAX
}

fn fits_woff2(bytes: &[u8]) -> (r: bool)
    ensures
        r == woff2_fits(bytes@),
{
    let total: usize = bytes.len();
    if total < WOFF2_HEADER {
        return true;
    }
    let compressed = read_number(bytes, 20);
    let metadata = read_number(bytes, 28);
    let private = read_number(bytes, 40);
    let end: u64 = if metadata != 0 {
        metadata
    } else if private != 0 {
        private
    } else {
        total as u64
    };
    let most: u64 = (i32::MAX as u64 - 24) / 16;
    let addressable = end <= compressed || end - compressed <= most;
    compressed <= total as u64 && fits_block(bytes, 28) && fits_block(bytes, 40) && (read_number(
        bytes,
        4,
    ) != COLLECTION as u64 || addressable)
}

fn fits_block(bytes: &[u8], at: usize) -> (r: bool)
    requires
        at + 8 <= bytes@.len(),
    ensures
        r == block_fits(bytes@, at as int, bytes@.len() as int),
{
    let total: usize = bytes.len();
    let offset = read_number(bytes, at);
    let end = offset + read_number(bytes, at + 4);
    offset == 0 || end <= 3 || end - 3 <= total as u64
}

fn fits_woff1(bytes: &[u8]) -> (r: bool)
    ensures
        r == woff1_fits(bytes@),
{
    let total: usize = bytes.len();
    if total < WOFF_HEADER {
        return true;
    }
    let tables: usize = bytes[12] as usize * 0x100 + bytes[13] as usize;
    if total < WOFF_HEADER + tables * WOFF_ENTRY {
        return true;
    }
    let mut room: u64 = 12;
    let mut i: usize = 0;
    while i < tables
        invariant
            i <= tables <= 0xffff,
            WOFF_HEADER + tables * WOFF_ENTRY <= bytes@.len(),
            total == bytes@.len(),
            room == woff1_room(bytes@, i as nat),
            room <= 12 + i * 0x1_0000_0020,
        decreases tables - i,
    {
        let entry: usize = WOFF_HEADER + i * WOFF_ENTRY;
        let wrapped = read_number(bytes, entry + 8);
        let bare = read_number(bytes, entry + 12);
        room = room + 16 + 3 + if wrapped > bare {
            wrapped
        } else {
            bare
        };
        i = i + 1;
    }
    room <= isize::MAX as u64
}

/// The font inside a WOFF2 container, when it can be unwrapped.
pub uninterp spec fn woff2_font(bytes: Seq<u8>) -> Option<Seq<u8>>;

/// The font inside a WOFF container, when it can be unwrapped.
pub uninterp spec fn woff1_font(bytes: Seq<u8>) -> Option<Seq<u8>>;

/// `wuff::decompress_woff2`: the font inside a WOFF2 container, or that
/// there is none. The result is named; what it is, is not claimed. A
/// container that announces more compressed bytes than it has, or a block
/// beyond its end, is left out: where addresses have thirty-two bits the sums
/// that are held against its length overflow. So is a collection whose
/// directories could come to two gigabytes, for which no buffer can be asked
/// and whose lengths are summed in thirty-two bits; its font would be longer
/// than any that is unwrapped.
#[verifier::external_body]
fn decompress_woff2(bytes: &[u8]) -> (r: Result<Vec<u8>, wuff::WuffErr>)
    requires
        woff2_fits(bytes@),
    ensures
        match r {
            Ok(font) => woff2_font(bytes@) == Some(font@),
            Err(_) => woff2_font(bytes@) is None,
        },
{
    wuff::decompress_woff2(bytes)
}

/// `wuff::decompress_woff1`: the font inside a WOFF container, or that there
/// is none. The result is named; what it is, is not claimed. A container that
/// announces more than one allocation can be is left out: no such buffer can
/// be asked for.
#[verifier::external_body]
fn decompress_woff1(bytes: &[u8]) -> (r: Result<Vec<u8>, wuff::WuffErr>)
    requires
        woff1_fits(bytes@),
    ensures
        match r {
            Ok(font) => woff1_font(bytes@) == Some(font@),
            Err(_) => woff1_font(bytes@) is None,
        },
{
    wuff::decompress_woff1(bytes)
}

/// What a font file is wrapped in.
#[derive(Debug, Clone, Copy, PartialEq, Eq, Structural)]
pub enum Container {
    Woff2,
    Woff,
    /// Nothing: the bytes are the font.
    Bare,
}

/// What a font file is wrapped in, by its first four bytes.
pub open spec fn container_of(bytes: Seq<u8>) -> Container {
    if bytes.len() >= 4 && bytes.take(4) == seq![0x77u8, 0x4f, 0x46, 0x32] {
        Container::Woff2
    } else if bytes.len() >= 4 && bytes.take(4) == seq![0x77u8, 0x4f, 0x46, 0x46] {
        Container::Woff
    } else {
        Container::Bare
    }
}

/// What a font file is wrapped in.
pub fn container(bytes: &[u8]) -> (c: Container)
    ensures
        c == container_of(bytes@),
{
    if bytes.len() < 4 {
        return Container::Bare;
    }
    let ghost head = bytes@.take(4);
    assert(head[0] == bytes@[0] && head[1] == bytes@[1] && head[2] == bytes@[2] && head[3]
        == bytes@[3]);
    if bytes[0] == 0x77 && bytes[1] == 0x4f && bytes[2] == 0x46 {
        if bytes[3] == 0x32 {
            assert(head =~= seq![0x77u8, 0x4f, 0x46, 0x32]);
            return Container::Woff2;
        }
        if bytes[3] == 0x46 {
            assert(head =~= seq![0x77u8, 0x4f, 0x46, 0x46]);
            return Container::Woff;
        }
    }
    Container::Bare
}

/// The font in a file: unwrapped where it is wrapped, and as it is where it
/// is not; or what to say where it cannot be unwrapped. `inside` is what
/// unwrapping gave.
pub open spec fn font_in(
    bytes: Seq<u8>,
    kind: Container,
    inside: Option<Seq<u8>>,
) -> Result<Seq<u8>, Seq<char>> {
    match (kind, inside) {
        (Container::Bare, _) => Ok(bytes),
        (_, Some(font)) => Ok(font),
        (Container::Woff2, None) => Err("could not decode the WOFF2 font: GenericError"@),
        (Container::Woff, None) => Err("could not decode the WOFF font: GenericError"@),
    }
}

/// True when a result is the expected one, byte for byte or word for word.
pub open spec fn matches_font(
    r: Result<Vec<u8>, String>,
    expected: Result<Seq<u8>, Seq<char>>,
) -> bool {
    match (r, expected) {
        (Ok(a), Ok(b)) => a@ == b,
        (Err(m), Err(text)) => m@ == text,
        _ => false,
    }
}

/// What unwrapping a file of this kind gives; nothing for one that announces
/// more than it can hold or than can be addressed.
pub open spec fn unwrapped(bytes: Seq<u8>) -> Option<Seq<u8>> {
    match container_of(bytes) {
        Container::Woff2 => if woff2_fits(bytes) {
            woff2_font(bytes)
        } else {
            None
        },
        Container::Woff => if woff1_fits(bytes) {
            woff1_font(bytes)
        } else {
            None
        },
        Container::Bare => None,
    }
}

/// Settle what a font file holds, given what unwrapping it gave.
pub fn settle_font(
    bytes: Vec<u8>,
    kind: Container,
    inside: Option<Vec<u8>>,
) -> (r: Result<Vec<u8>, String>)
    ensures
        matches_font(
            r,
            font_in(
                bytes@,
                kind,
                match inside {
                    Some(v) => Some(v@),
                    None => None,
                },
            ),
        ),
{
    match kind {
        Container::Bare => Ok(bytes),
        Container::Woff2 => match inside {
            Some(font) => Ok(font),
            None => Err("could not decode the WOFF2 font: GenericError".to_owned()),
        },
        Container::Woff => match inside {
            Some(font) => Ok(font),
            None => Err("could not decode the WOFF font: GenericError".to_owned()),
        },
    }
}

/// Unwrap a WOFF or WOFF2 container to the font inside, or pass bytes
/// through.
///
/// The shaper ingests bare fonts only, and a font service hands a browser
/// WOFF2, so without this the single most likely input is the one that fails.
pub fn decode_webfont(bytes: Vec<u8>) -> (r: Result<Vec<u8>, String>)
    ensures
        matches_font(r, font_in(bytes@, container_of(bytes@), unwrapped(bytes@))),
{
    let kind = container(bytes.as_slice());
    let inside = match kind {
        Container::Woff2 => if fits_woff2(bytes.as_slice()) {
            match decompress_woff2(bytes.as_slice()) {
                Ok(font) => Some(font),
                Err(_) => None,
            }
        } else {
            None
        },
        Container::Woff => if fits_woff1(bytes.as_slice()) {
            match decompress_woff1(bytes.as_slice()) {
                Ok(font) => Some(font),
                Err(_) => None,
            }
        } else {
            None
        },
        Container::Bare => None,
    };
    settle_font(bytes, kind, inside)
}

/// What to say of the families a file registered: registering nothing in
/// silence would render a textless plot with no indication why.
pub fn registered(families: Vec<String>) -> (r: Result<Vec<String>, String>)
    ensures
        match r {
            Ok(names) => names == families && families@.len() > 0,
            Err(m) => families@.len() == 0 && m@
                == "no font faces found; the bytes are not a TTF, OTF, TTC or OTC file"@,
        },
{
    if families.len() == 0 {
        return Err(
            "no font faces found; the bytes are not a TTF, OTF, TTC or OTC file".to_owned(),
        );
    }
    Ok(families)
}

/// The generic family a CSS keyword names; `mono` is accepted too.
pub open spec fn generic_of(word: Seq<char>) -> Option<GenericFamilyKind> {
    if word == "serif"@ {
        Some(GenericFamilyKind::Serif)
    } else if word == "sans-serif"@ {
        Some(GenericFamilyKind::SansSerif)
    } else if word == "monospace"@ || word == "mono"@ {
        Some(GenericFamilyKind::Mono)
    } else if word == "cursive"@ {
        Some(GenericFamilyKind::Cursive)
    } else if word == "fantasy"@ {
        Some(GenericFamilyKind::Fantasy)
    } else if word == "system-ui"@ {
        Some(GenericFamilyKind::SystemUi)
    } else {
        None
    }
}

/// What is said of a word that names no generic family.
pub open spec fn unknown_generic(word: Seq<char>) -> Seq<char> {
    "unknown generic family "@ + debug_text(word)
        + "; expected one of serif, sans-serif, monospace, cursive, fantasy, system-ui"@
}

/// The generic family that is to be pointed at concrete ones.
///
/// A generic is an indirection through the font context rather than a name,
/// so registering a font is not enough on its own.
pub fn set_generic_family(kind: &str) -> (r: Result<GenericFamilyKind, String>)
    ensures
        match r {
            Ok(k) => generic_of(kind@) == Some(k),
            Err(m) => generic_of(kind@) is None && m@ == unknown_generic(kind@),
        },
{
    proof {
        lemma_generic_words_differ();
    }
    if same_text(kind, "serif") {
        return Ok(GenericFamilyKind::Serif);
    }
    if same_text(kind, "sans-serif") {
        return Ok(GenericFamilyKind::SansSerif);
    }
    if same_text(kind, "monospace") || same_text(kind, "mono") {
        return Ok(GenericFamilyKind::Mono);
    }
    if same_text(kind, "cursive") {
        return Ok(GenericFamilyKind::Cursive);
    }
    if same_text(kind, "fantasy") {
        return Ok(GenericFamilyKind::Fantasy);
    }
    if same_text(kind, "system-ui") {
        return Ok(GenericFamilyKind::SystemUi);
    }
    let mut m = String::new();
    m.append("unknown generic family ");
    m.append(quoted(kind).as_str());
    m.append("; expected one of serif, sans-serif, monospace, cursive, fantasy, system-ui");
    assert(m@ =~= unknown_generic(kind@));
    Err(m)
}

proof fn lemma_generic_words_differ()
    ensures
        "serif"@ != "sans-serif"@,
        "monospace"@ != "serif"@ && "monospace"@ != "sans-serif"@,
        "cursive"@ != "serif"@ && "cursive"@ != "sans-serif"@ && "cursive"@ != "monospace"@
            && "cursive"@ != "mono"@,
        "fantasy"@ != "serif"@ && "fantasy"@ != "sans-serif"@ && "fantasy"@ != "monospace"@
            && "fantasy"@ != "mono"@ && "fantasy"@ != "cursive"@,
        "system-ui"@ != "serif"@ && "system-ui"@ != "sans-serif"@ && "system-ui"@ != "monospace"@
            && "system-ui"@ != "mono"@ && "system-ui"@ != "cursive"@ && "system-ui"@
            != "fantasy"@,
{
    reveal_strlit("serif");
    reveal_strlit("sans-serif");
    reveal_strlit("monospace");
    reveal_strlit("mono");
    reveal_strlit("cursive");
    reveal_strlit("fantasy");
    reveal_strlit("system-ui");
    assert("cursive"@[0] == 'c' && "fantasy"@[0] == 'f' && "system-ui"@[1] == 'y');
    assert("serif"@[1] == 'e' && "sans-serif"@[1] == 'a' && "monospace"@[0] == 'm');
    assert("mono"@[0] == 'm');
}

/// Every generic family is named by the keyword it is written with.
pub proof fn lemma_keywords_name_their_family(kind: GenericFamilyKind)
    ensures
        generic_of(generic_text(kind)) == Some(kind),
{
    lemma_generic_words_differ();
}

/// One emitted document, and whatever could not be expressed in it.
///
/// Warnings travel beside the markup rather than being logged, because each
/// one names something the page is showing an approximation of.
#[derive(Debug)]
pub struct SvgRender {
    pub svg: String,
    pub warnings: Vec<String>,
}

/// What reading a document gave.
#[derive(Debug, Clone, Copy)]
pub struct ReadPlot {
    /// The paper color of the document's own theme.
    pub paper: Color,
    /// The paper color of the inverted theme.
    pub inverted_paper: Color,
    /// The size and resolution the writer had in mind. Advisory.
    pub hints: DocumentHints,
}

/// What a page can ask of a document's drawing.
#[derive(Debug)]
pub struct PlotDocument {
    /// What reading it gave. Never changed, so that each mode is derived from
    /// it anew.
    pub read: ReadPlot,
    pub dark: bool,
    pub transparent: bool,
    pub pick_ids: bool,
}

/// An edge of the drawing: at least one pixel. One that is not a number
/// comes to one too, and an infinite one, which cannot be written, to zero.
pub open spec fn drawn_edge(r: Reading) -> Fixed {
    match r {
        Reading::Finite(x) => if x.nanos < ONE {
            Fixed { nanos: ONE }
        } else {
            x
        },
        Reading::Infinity => Fixed { nanos: 0 },
        _ => Fixed { nanos: ONE },
    }
}

fn edge_of(r: Reading) -> (x: Fixed)
    ensures
        x == drawn_edge(r),
{
    match r {
        Reading::Finite(x) => if x.nanos < ONE {
            Fixed { nanos: ONE }
        } else {
            x
        },
        Reading::Infinity => Fixed { nanos: 0 },
        _ => Fixed { nanos: ONE },
    }
}

/// The background of a drawing: the paper of the theme in use, unless
/// whatever is behind it is to show through.
pub open spec fn paper_of(doc: PlotDocument) -> Option<Color> {
    if doc.transparent {
        None
    } else if doc.dark {
        Some(doc.read.inverted_paper)
    } else {
        Some(doc.read.paper)
    }
}

/// The options a drawing is emitted with.
pub open spec fn drawing_config(doc: PlotDocument, prefix: Seq<char>) -> ConfigView {
    ConfigView {
        background: paper_of(doc),
        decimals: 3,
        units: SvgUnits::Px,
        prefix,
        pick_ids: doc.pick_ids,
        text: TextMode::Text,
        embed_fonts: false,
    }
}

impl PlotDocument {
    /// A document that was just read: in its own theme, over its paper, and
    /// open to picking. Fails only if the document is unreadable, with what
    /// reading it says.
    pub fn load(read: Result<ReadPlot, String>) -> (r: Result<PlotDocument, String>)
        ensures
            r == (match read {
                Ok(read) => Ok::<PlotDocument, String>(
                    PlotDocument { read, dark: false, transparent: false, pick_ids: true },
                ),
                Err(why) => Err(why),
            }),
    {
        match read {
            Ok(read) => Ok(
                PlotDocument { read, dark: false, transparent: false, pick_ids: true },
            ),
            Err(why) => Err(why),
        }
    }

    /// The scene to draw the document into, at `width` by `height` CSS
    /// pixels.
    ///
    /// `id_prefix` prefixes every generated id: two drawings inlined into one
    /// page that both define the same id would have the second refer to the
    /// first's definition. The resolution is that of CSS pixels, whatever the
    /// display.
    pub fn scene(&self, width: Reading, height: Reading, id_prefix: &str) -> (s: SvgScene)
        ensures
            s@ == fresh_scene(
                Size { width: drawn_edge(width), height: drawn_edge(height) },
                Fixed { nanos: (96 * ONE) as i64 },
                drawing_config(*self, id_prefix@),
            ),
    {
        let size = Size { width: edge_of(width), height: edge_of(height) };
        let background = if self.transparent {
            None
        } else if self.dark {
            Some(self.read.inverted_paper)
        } else {
            Some(self.read.paper)
        };
        let config = SvgConfig::new().background(background).id_prefix(id_prefix).pick_ids(
            self.pick_ids,
        );
        assert(config@ =~= drawing_config(*self, id_prefix@));
        SvgScene::with_config(size, Fixed { nanos: 96 * ONE }, config)
    }

    /// Switch between the document's theme and its inverted form. Says
    /// whether the theme has to be applied again.
    pub fn set_dark(&mut self, dark: bool) -> (changed: bool)
        ensures
            changed == (old(self).dark != dark),
            *final(self) == (PlotDocument { dark, ..*old(self) }),
    {
        if self.dark == dark {
            return false;
        }
        self.dark = dark;
        true
    }

    /// Whether the inverted theme is in use.
    pub fn is_dark(&self) -> (r: bool)
        ensures
            r == self.dark,
    {
        self.dark
    }

    /// Emit no background, so whatever is behind the drawing shows through.
    pub fn set_transparent(&mut self, transparent: bool)
        ensures
            *final(self) == (PlotDocument { transparent, ..*old(self) }),
    {
        self.transparent = transparent;
    }

    /// Whether the background is suppressed.
    pub fn is_transparent(&self) -> (r: bool)
        ensures
            r == self.transparent,
    {
        self.transparent
    }

    /// Emit picking attributes.
    pub fn set_pick_ids(&mut self, on: bool)
        ensures
            *final(self) == (PlotDocument { pick_ids: on, ..*old(self) }),
    {
        self.pick_ids = on;
    }

    /// Whether picking attributes are emitted.
    pub fn pick_ids(&self) -> (r: bool)
        ensures
            r == self.pick_ids,
    {
        self.pick_ids
    }

    /// Width, in points, the document's writer rendered at, if it recorded
    /// one. Advisory: a document can be drawn at any size.
    pub fn hint_width(&self) -> (r: Option<Fixed>)
        ensures
            r == (match self.read.hints.size {
                Some((w, _)) => Some(w),
                None => None,
            }),
    {
        match self.read.hints.size {
            Some((w, _)) => Some(w),
            None => None,
        }
    }

    /// Height, in points, the document's writer rendered at, if it recorded
    /// one.
    pub fn hint_height(&self) -> (r: Option<Fixed>)
        ensures
            r == (match self.read.hints.size {
                Some((_, h)) => Some(h),
                None => None,
            }),
    {
        match self.read.hints.size {
            Some((_, h)) => Some(h),
            None => None,
        }
    }

    /// Dots per inch the document's writer rendered at, if it recorded one.
    pub fn hint_dpi(&self) -> (r: Option<Fixed>)
        ensures
            r == self.read.hints.dpi,
    {
        self.read.hints.dpi
    }
}

/// The markup of a scene, and what it could not express.
pub fn to_svg(scene: &SvgScene) -> (r: SvgRender)
    ensures
        r.svg@ == scene@.document(),
        texts(r.warnings@) == scene@.reported().map_values(|w: SvgWarning| warning_name(w)),
{
    SvgRender { svg: encode_svg(scene), warnings: describe(&scene.warnings()) }
}

/// Setting a mode twice is setting it once: toggling never drifts.
pub proof fn lemma_modes_are_idempotent(doc: PlotDocument, on: bool)
    ensures
        ({
            let once = PlotDocument { dark: on, ..doc };
            (PlotDocument { dark: on, ..once }) == once && (PlotDocument {
                dark: doc.dark,
                ..once
            }) == doc
        }),
{
}

/// A drawing starts from a scene that serializes to a well-formed document,
/// as long as its prefix can stand in an id.
pub proof fn lemma_drawing_starts_sound(
    doc: PlotDocument,
    size: Size,
    dpi: Fixed,
    prefix: Seq<char>,
)
    requires
        crate::svg::laws::id_safe(prefix),
    ensures
        crate::svg::laws::sound(fresh_scene(size, dpi, drawing_config(doc, prefix))),
{
    crate::svg::laws::lemma_fresh_scene_is_sound(size, dpi, drawing_config(doc, prefix));
}

/// A drawing has edges of a pixel at least, and of the asked length from there
/// on. A length without end leaves no room for anything.
pub proof fn lemma_edges_are_a_pixel_at_least(r: Reading)
    ensures
        r is Finite && r->Finite_0.nanos >= 1_000_000_000 ==> drawn_edge(r) == r->Finite_0,
        r is Finite && r->Finite_0.nanos <= 1_000_000_000 ==> drawn_edge(r).nanos == 1_000_000_000,
        r is NotANumber || r is MinusInfinity ==> drawn_edge(r).nanos == 1_000_000_000,
        r is Infinity ==> drawn_edge(r).nanos == 0,
{
}

} // verus!
