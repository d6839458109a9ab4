//! How a face is named: families, stretch, features and variable axes.

use vstd::prelude::*;

use super::writer::{attr_text, escape_attr};
use crate::fixed::{num, num_text, Fixed, ONE};
use crate::text::{
    decimal_text, join, joined, lemma_append, lemma_append_nothing, push_decimal, texts,
};

verus! {

/// A generic family, resolved by whatever draws the text.
#[derive(Debug, Clone, Copy, PartialEq, Eq, Structural)]
pub enum GenericFamilyKind {
    Serif,
    SansSerif,
    Mono,
    Cursive,
    Fantasy,
    SystemUi,
}

/// One entry of a family chain.
#[derive(Debug)]
pub enum FontFamilyEntry {
    Named(String),
    Generic(GenericFamilyKind),
}

/// The posture of a face.
#[derive(Debug, Clone, Copy, PartialEq, Eq, Structural)]
pub enum FontStyleKind {
    Normal,
    Italic,
    /// Slanted by this many degrees.
    Oblique(Fixed),
}

/// An OpenType feature and the value it is set to.
#[derive(Debug)]
pub struct FontFeatureSetting {
    pub tag: [u8; 4],
    pub value: u32,
}

/// A variable-font axis and the place on it.
#[derive(Debug)]
pub struct FontVariationSetting {
    pub tag: [u8; 4],
    pub value: Fixed,
}

/// Everything that selects a face.
#[derive(Debug)]
pub struct FontSpec {
    pub families: Vec<FontFamilyEntry>,
    pub weight: u16,
    pub style: FontStyleKind,
    /// Width as a ratio of the normal width.
    pub width: Fixed,
    /// Extra spacing in thousandths of an em.
    pub tracking: Fixed,
    pub size_pt: Fixed,
    pub features: Vec<FontFeatureSetting>,
    pub variations: Vec<FontVariationSetting>,
}

/// One entry of a family chain as plain values.
#[verifier::ext_equal]
pub enum FamilyView {
    Named(Seq<char>),
    Generic(GenericFamilyKind),
}

/// A feature as plain values.
#[verifier::ext_equal]
pub struct FeatureView {
    pub tag: Seq<u8>,
    pub value: u32,
}

/// An axis as plain values.
#[verifier::ext_equal]
pub struct VariationView {
    pub tag: Seq<u8>,
    pub value: Fixed,
}

/// Everything that selects a face, as plain values.
#[verifier::ext_equal]
pub struct FontView {
    pub families: Seq<FamilyView>,
    pub weight: u16,
    pub style: FontStyleKind,
    pub width: Fixed,
    pub tracking: Fixed,
    pub size_pt: Fixed,
    pub features: Seq<FeatureView>,
    pub variations: Seq<VariationView>,
}

impl View for FontFamilyEntry {
    type V = FamilyView;

    open spec fn view(&self) -> FamilyView {
        match self {
            FontFamilyEntry::Named(n) => FamilyView::Named(n@),
            FontFamilyEntry::Generic(k) => FamilyView::Generic(*k),
        }
    }
}

impl View for FontFeatureSetting {
    type V = FeatureView;

    open spec fn view(&self) -> FeatureView {
        FeatureView { tag: self.tag@, value: self.value }
    }
}

impl View for FontVariationSetting {
    type V = VariationView;

    open spec fn view(&self) -> VariationView {
        VariationView { tag: self.tag@, value: self.value }
    }
}

impl View for FontSpec {
    type V = FontView;

    open spec fn view(&self) -> FontView {
        FontView {
            families: Seq::new(self.families@.len(), |i: int| self.families@[i]@),
            weight: self.weight,
            style: self.style,
            width: self.width,
            tracking: self.tracking,
            size_pt: self.size_pt,
            features: Seq::new(self.features@.len(), |i: int| self.features@[i]@),
            variations: Seq::new(self.variations@.len(), |i: int| self.variations@[i]@),
        }
    }
}

fn same_tag(a: &[u8; 4], b: &[u8; 4]) -> (r: bool)
    ensures
        r == (a@ == b@),
{
    let r = a[0] == b[0] && a[1] == b[1] && a[2] == b[2] && a[3] == b[3];
    assert(r ==> a@ =~= b@);
    r
}

fn same_family(a: &FontFamilyEntry, b: &FontFamilyEntry) -> (r: bool)
    ensures
        r == (a@ == b@),
{
    match (a, b) {
        (FontFamilyEntry::Named(x), FontFamilyEntry::Named(y)) => *x == *y,
        (FontFamilyEntry::Generic(x), FontFamilyEntry::Generic(y)) => *x == *y,
        _ => false,
    }
}

/// True when both select the same face in the same way.
pub fn font_eq(a: &FontSpec, b: &FontSpec) -> (r: bool)
    ensures
        r == (a@ == b@),
{
    if a.weight != b.weight || a.style != b.style || a.width != b.width || a.tracking != b.tracking
        || a.size_pt != b.size_pt || a.families.len() != b.families.len() || a.features.len()
        != b.features.len() || a.variations.len() != b.variations.len() {
        assert(a@.families.len() != b@.families.len() || a@.features.len() != b@.features.len()
            || a@.variations.len() != b@.variations.len() || a@.weight != b@.weight || a@.style
            != b@.style || a@.width != b@.width || a@.tracking != b@.tracking || a@.size_pt
            != b@.size_pt);
        return false;
    }
    let mut i: usize = 0;
    while i < a.families.len()
        invariant
            i <= a.families@.len(),
            a.families@.len() == b.families@.len(),
            forall|j: int| 0 <= j < i ==> a@.families[j] == b@.families[j],
        decreases a.families@.len() - i,
    {
        if !same_family(&a.families[i], &b.families[i]) {
            assert(a@.families[i as int] != b@.families[i as int]);
            return false;
        }
        i = i + 1;
    }
    let mut i: usize = 0;
    while i < a.features.len()
        invariant
            i <= a.features@.len(),
            a.features@.len() == b.features@.len(),
            forall|j: int| 0 <= j < i ==> a@.features[j] == b@.features[j],
        decreases a.features@.len() - i,
    {
        if !same_tag(&a.features[i].tag, &b.features[i].tag) || a.features[i].value
            != b.features[i].value {
            assert(a@.features[i as int] != b@.features[i as int]);
            return false;
        }
        i = i + 1;
    }
    let mut i: usize = 0;
    while i < a.variations.len()
        invariant
            i <= a.variations@.len(),
            a.variations@.len() == b.variations@.len(),
            forall|j: int| 0 <= j < i ==> a@.variations[j] == b@.variations[j],
        decreases a.variations@.len() - i,
    {
        if !same_tag(&a.variations[i].tag, &b.variations[i].tag) || a.variations[i].value
            != b.variations[i].value {
            assert(a@.variations[i as int] != b@.variations[i as int]);
            return false;
        }
        i = i + 1;
    }
    assert(a@.families =~= b@.families);
    assert(a@.features =~= b@.features);
    assert(a@.variations =~= b@.variations);
    true
}

/// A chain entry naming the same family.
fn copied_family(e: &FontFamilyEntry) -> (r: FontFamilyEntry)
    ensures
        r@ == e@,
{
    match e {
        FontFamilyEntry::Named(n) => FontFamilyEntry::Named(n.clone()),
        FontFamilyEntry::Generic(k) => FontFamilyEntry::Generic(*k),
    }
}

impl FontSpec {
    /// A spec selecting the same face.
    pub fn copied(&self) -> (r: FontSpec)
        ensures
            r@ == self@,
    {
        let mut families: Vec<FontFamilyEntry> = Vec::new();
        let mut i: usize = 0;
        while i < self.families.len()
            invariant
                i <= self.families@.len(),
                families@.len() == i,
                forall|j: int| 0 <= j < i ==> (#[trigger] families@[j])@ == self.families@[j]@,
            decreases self.families@.len() - i,
        {
            families.push(copied_family(&self.families[i]));
            i = i + 1;
        }
        let mut features: Vec<FontFeatureSetting> = Vec::new();
        let mut i: usize = 0;
        while i < self.features.len()
            invariant
                i <= self.features@.len(),
                features@.len() == i,
                forall|j: int| 0 <= j < i ==> (#[trigger] features@[j])@ == self.features@[j]@,
            decreases self.features@.len() - i,
        {
            let f = &self.features[i];
            features.push(FontFeatureSetting { tag: f.tag, value: f.value });
            i = i + 1;
        }
        let mut variations: Vec<FontVariationSetting> = Vec::new();
        let mut i: usize = 0;
        while i < self.variations.len()
            invariant
                i <= self.variations@.len(),
                variations@.len() == i,
                forall|j: int| 0 <= j < i ==> (#[trigger] variations@[j])@ == self.variations@[j]@,
            decreases self.variations@.len() - i,
        {
            let v = &self.variations[i];
            variations.push(FontVariationSetting { tag: v.tag, value: v.value });
            i = i + 1;
        }
        let r = FontSpec {
            families,
            weight: self.weight,
            style: self.style,
            width: self.width,
            tracking: self.tracking,
            size_pt: self.size_pt,
            features,
            variations,
        };
        assert(r@.families =~= self@.families);
        assert(r@.features =~= self@.features);
        assert(r@.variations =~= self@.variations);
        r
    }
}

/// The CSS keyword for a generic family.
pub open spec fn generic_text(kind: GenericFamilyKind) -> Seq<char> {
    match kind {
        GenericFamilyKind::Serif => "serif"@,
        GenericFamilyKind::SansSerif => "sans-serif"@,
        GenericFamilyKind::Mono => "monospace"@,
        GenericFamilyKind::Cursive => "cursive"@,
        GenericFamilyKind::Fantasy => "fantasy"@,
        GenericFamilyKind::SystemUi => "system-ui"@,
    }
}

/// CSS keyword for a generic family.
pub fn generic_keyword(kind: GenericFamilyKind) -> (r: &'static str)
    ensures
        r@ == generic_text(kind),
{
    match kind {
        GenericFamilyKind::Serif => "serif",
        GenericFamilyKind::SansSerif => "sans-serif",
        GenericFamilyKind::Mono => "monospace",
        GenericFamilyKind::Cursive => "cursive",
        GenericFamilyKind::Fantasy => "fantasy",
        GenericFamilyKind::SystemUi => "system-ui",
    }
}

/// A character that a bare CSS identifier may hold.
pub open spec fn identifier_char(c: char) -> bool {
    'a' <= c <= 'z' || 'A' <= c <= 'Z' || '0' <= c <= '9' || c == '-' || c == '_'
}

/// True when a family name can stand without quotes: not empty, not starting
/// with a digit, and made of letters, digits, hyphens and underscores.
pub open spec fn bare_family(name: Seq<char>) -> bool {
    &&& name.len() > 0
    &&& !('0' <= name[0] <= '9')
    &&& forall|i: int| 0 <= i < name.len() ==> identifier_char(#[trigger] name[i])
}

/// What a character becomes inside a single-quoted CSS string.
pub open spec fn quoted_char(c: char) -> Seq<char> {
    if c == '\\' {
        seq!['\\', '\\']
    } else if c == '\'' {
        seq!['\\', '\'']
    } else {
        seq![c]
    }
}

/// `s` inside a single-quoted CSS string.
pub open spec fn quoted_chars(s: Seq<char>) -> Seq<char>
    decreases s.len(),
{
    if s.len() == 0 {
        seq![]
    } else {
        quoted_chars(s.drop_last()) + quoted_char(s.last())
    }
}

/// A family name as CSS: quoted unless it is a bare identifier.
pub open spec fn family_name_text(name: Seq<char>) -> Seq<char> {
    if bare_family(name) {
        name
    } else {
        seq!['\''] + quoted_chars(name) + seq!['\'']
    }
}

fn is_bare_family(name: &str) -> (r: bool)
    ensures
        r == bare_family(name@),
{
    let mut first = true;
    let mut bare = true;
    for c in it: name.chars()
        invariant
            it.seq() == name@,
            first == (it.index() == 0),
            bare == ((forall|i: int| 0 <= i < it.index() ==> identifier_char(#[trigger] name@[i]))
                && (it.index() > 0 ==> !('0' <= name@[0] <= '9'))),
    {
        let digit = '0' <= c && c <= '9';
        let fits = ('a' <= c && c <= 'z') || ('A' <= c && c <= 'Z') || digit || c == '-' || c
            == '_';
        let ghost was = bare;
        if !fits || (first && digit) {
            bare = false;
        }
        first = false;
        assert(name@[it.index()] == c);
        assert(fits == identifier_char(c));
        assert((forall|i: int| 0 <= i < it.index() + 1 ==> identifier_char(#[trigger] name@[i]))
            == ((forall|i: int| 0 <= i < it.index() ==> identifier_char(#[trigger] name@[i]))
            && fits));
    }
    bare && !first
}

/// Quote a family name that is not a bare CSS identifier.
pub fn quote_family(name: &str) -> (out: String)
    ensures
        out@ == family_name_text(name@),
{
    if is_bare_family(name) {
        return name.to_owned();
    }
    let mut out = String::new();
    out.push('\'');
    assert(out@ =~= seq!['\''] + quoted_chars(name@.take(0)));
    for c in it: name.chars()
        invariant
            it.seq() == name@,
            out@ == seq!['\''] + quoted_chars(name@.take(it.index())),
    {
        if c == '\\' {
            out.push('\\');
            out.push('\\');
        } else if c == '\'' {
            out.push('\\');
            out.push('\'');
        } else {
            out.push(c);
        }
        proof {
            let next = name@.take(it.index() + 1);
            assert(next.drop_last() =~= name@.take(it.index()));
            assert(next.last() == c);
            assert(out@ =~= seq!['\''] + quoted_chars(next));
        }
    }
    out.push('\'');
    assert(name@.take(name@.len() as int) =~= name@);
    assert(out@ =~= family_name_text(name@));
    out
}

/// One entry of a family list as CSS.
pub open spec fn entry_text(e: FamilyView) -> Seq<char> {
    match e {
        FamilyView::Named(n) => family_name_text(n),
        FamilyView::Generic(k) => generic_text(k),
    }
}

/// True when the chain's last entry is a generic family.
pub open spec fn ends_generic(families: Seq<FamilyView>) -> bool {
    families.len() > 0 && families.last() is Generic
}

/// The families a list names, in order: those asked for, and a generic at
/// the end when none stands there.
pub open spec fn family_chain(families: Seq<FamilyView>) -> Seq<FamilyView> {
    if ends_generic(families) {
        families
    } else {
        families.push(FamilyView::Generic(GenericFamilyKind::SansSerif))
    }
}

/// The CSS of each entry of a chain.
pub open spec fn entry_texts(families: Seq<FamilyView>) -> Seq<Seq<char>> {
    Seq::new(families.len(), |i: int| entry_text(families[i]))
}

/// The CSS `font-family` list for a chain.
pub open spec fn family_list_text(families: Seq<FamilyView>) -> Seq<char> {
    joined(entry_texts(family_chain(families)), ", "@)
}

/// The CSS `font-family` list for a spec, always ending in a generic so the
/// text still resolves when nothing else does.
pub fn family_list(spec: &FontSpec) -> (out: String)
    ensures
        out@ == family_list_text(spec@.families),
{
    let mut parts: Vec<String> = Vec::new();
    let mut ends_in_generic = false;
    let ghost asked = entry_texts(spec@.families);
    let mut i: usize = 0;
    while i < spec.families.len()
        invariant
            i <= spec.families@.len(),
            asked == entry_texts(spec@.families),
            texts(parts@) =~= asked.take(i as int),
            ends_in_generic == (i > 0 && spec@.families[i - 1] is Generic),
        decreases spec.families@.len() - i,
    {
        let ghost before = texts(parts@);
        match &spec.families[i] {
            FontFamilyEntry::Named(name) => {
                parts.push(quote_family(name.as_str()));
                ends_in_generic = false;
            },
            FontFamilyEntry::Generic(kind) => {
                parts.push(generic_keyword(*kind).to_owned());
                ends_in_generic = true;
            },
        }
        assert(spec@.families[i as int] == spec.families@[i as int]@);
        assert(texts(parts@) =~= before.push(asked[i as int]));
        i = i + 1;
    }
    assert(asked.take(i as int) =~= asked);
    let ghost before = texts(parts@);
    if !ends_in_generic {
        parts.push("sans-serif".to_owned());
        assert(texts(parts@) =~= before.push("sans-serif"@));
    }
    assert(texts(parts@) =~= entry_texts(family_chain(spec@.families)));
    join(&parts, ", ")
}

/// A family list always ends in a generic keyword, whatever was asked for:
/// alone, or after a comma and a space.
pub proof fn lemma_family_list_ends_in_a_generic(families: Seq<FamilyView>)
    ensures
        exists|head: Seq<char>, kind: GenericFamilyKind|
            family_list_text(families) == #[trigger] (head + generic_text(kind)) && (head.len() == 0
                || head.len() >= 2 && head.skip(head.len() - 2) == ", "@),
{
    reveal_strlit(", ");
    let chain = family_chain(families);
    let parts = entry_texts(chain);
    let kind = match chain.last() {
        FamilyView::Generic(k) => k,
        FamilyView::Named(_) => GenericFamilyKind::SansSerif,
    };
    assert(parts.last() == generic_text(kind));
    if parts.len() == 1 {
        let head = Seq::<char>::empty();
        assert(family_list_text(families) =~= head + generic_text(kind));
    } else {
        let head = joined(parts.drop_last(), ", "@) + ", "@;
        assert(head.skip(head.len() - 2) =~= ", "@);
        assert(family_list_text(families) =~= head + generic_text(kind));
    }
}

/// The `font-stretch` keyword for a width ratio, when one names it.
pub open spec fn stretch_keyword(width: Fixed) -> Option<Seq<char>> {
    if width.nanos == 500_000_000 {
        Some("ultra-condensed"@)
    } else if width.nanos == 625_000_000 {
        Some("extra-condensed"@)
    } else if width.nanos == 750_000_000 {
        Some("condensed"@)
    } else if width.nanos == 875_000_000 {
        Some("semi-condensed"@)
    } else if width.nanos == 1_000_000_000 {
        Some("normal"@)
    } else if width.nanos == 1_125_000_000 {
        Some("semi-expanded"@)
    } else if width.nanos == 1_250_000_000 {
        Some("expanded"@)
    } else if width.nanos == 1_500_000_000 {
        Some("extra-expanded"@)
    } else if width.nanos == 2_000_000_000 {
        Some("ultra-expanded"@)
    } else {
        None
    }
}

/// A width ratio as CSS: its keyword, or a percentage between the keywords.
pub open spec fn stretch_value_text(width: Fixed, dec: nat) -> Seq<char> {
    match stretch_keyword(width) {
        Some(name) => name,
        None => num_text(width.spec_scaled(100, 1), dec) + seq!['%'],
    }
}

fn keyword_of_width(width: Fixed) -> (r: Option<&'static str>)
    ensures
        r is Some == stretch_keyword(width) is Some,
        r is Some ==> r->0@ == stretch_keyword(width)->0,
{
    match width.nanos {
        500_000_000 => Some("ultra-condensed"),
        625_000_000 => Some("extra-condensed"),
        750_000_000 => Some("condensed"),
        875_000_000 => Some("semi-condensed"),
        1_000_000_000 => Some("normal"),
        1_125_000_000 => Some("semi-expanded"),
        1_250_000_000 => Some("expanded"),
        1_500_000_000 => Some("extra-expanded"),
        2_000_000_000 => Some("ultra-expanded"),
        _ => None,
    }
}

/// Append a width ratio as CSS, for either an element or an `@font-face`
/// descriptor.
///
/// Shared so the two always spell a width the same way: a descriptor that
/// disagreed with the request would be a face the document asks for and its
/// own `@font-face` does not answer.
pub fn write_stretch_value(out: &mut String, width: Fixed, decimals: u8)
    ensures
        final(out)@ == old(out)@ + stretch_value_text(width, decimals as nat),
{
    match keyword_of_width(width) {
        // The keyword is what SVG 1.1 consumers and the desktop editors
        // read; percentages only arrived with CSS Fonts 4.
        Some(name) => out.append(name),
        // A variable font's `wdth` axis lands anywhere between the
        // keywords, and only a percentage can say where.
        None => {
            num(out, width.scaled(100, 1), decimals);
            out.push('%');
        },
    }
    assert(out@ =~= old(out)@ + stretch_value_text(width, decimals as nat));
}

/// The `font-stretch` attribute for a width ratio.
pub open spec fn stretch_text(width: Fixed, dec: nat) -> Seq<char> {
    " font-stretch=\""@ + stretch_value_text(width, dec) + seq!['"']
}

/// Append `font-stretch` for a width ratio.
///
/// Without it a viewer resolves the normal-width face and `textLength`
/// squeezes it into the condensed measurement.
pub fn write_stretch(out: &mut String, width: Fixed, decimals: u8)
    ensures
        final(out)@ == old(out)@ + stretch_text(width, decimals as nat),
{
    out.append(" font-stretch=\"");
    write_stretch_value(out, width, decimals);
    out.push('"');
    assert(out@ =~= old(out)@ + stretch_text(width, decimals as nat));
}

/// A byte that can stand in a quoted CSS string as it is.
pub open spec fn writable_byte(b: u8) -> bool {
    0x20 <= b <= 0x7e && b != 0x27 && b != 0x5c
}

/// True when every byte of a tag can stand in a quoted CSS string.
pub open spec fn tag_is_writable(tag: Seq<u8>) -> bool {
    forall|i: int| 0 <= i < tag.len() ==> writable_byte(#[trigger] tag[i])
}

fn byte_is_writable(b: u8) -> (r: bool)
    ensures
        r == writable_byte(b),
{
    b >= 0x20 && b <= 0x7e && b != 0x27 && b != 0x5c
}

/// True when a tag is the printable ASCII an OpenType tag should be, and so
/// can go in a CSS string without escaping.
pub fn writable_tag(tag: &[u8; 4]) -> (r: bool)
    ensures
        r == tag_is_writable(tag@),
{
    let r = byte_is_writable(tag[0]) && byte_is_writable(tag[1]) && byte_is_writable(tag[2])
        && byte_is_writable(tag[3]);
    assert(r == (writable_byte(tag@[0]) && writable_byte(tag@[1]) && writable_byte(tag@[2])
        && writable_byte(tag@[3])));
    r
}

/// A tag as a quoted CSS string.
pub open spec fn tag_text(tag: Seq<u8>) -> Seq<char> {
    seq!['\'', tag[0] as char, tag[1] as char, tag[2] as char, tag[3] as char, '\'']
}

/// Append a tag as the quoted CSS string both settings properties take.
///
/// Single quotes because the attribute around it is delimited with double
/// ones.
pub fn write_tag(css: &mut String, tag: &[u8; 4])
    ensures
        final(css)@ == old(css)@ + tag_text(tag@),
{
    css.push('\'');
    css.push(tag[0] as char);
    css.push(tag[1] as char);
    css.push(tag[2] as char);
    css.push(tag[3] as char);
    css.push('\'');
    assert(css@ =~= old(css)@ + tag_text(tag@));
}

/// One feature as CSS.
pub open spec fn feature_text(f: FeatureView) -> Seq<char> {
    tag_text(f.tag) + seq![' '] + decimal_text(f.value as nat)
}

/// One axis as CSS.
pub open spec fn variation_text(v: VariationView, dec: nat) -> Seq<char> {
    tag_text(v.tag) + seq![' '] + num_text(v.value, dec)
}

/// The first `n` features whose tags can be written, each as CSS.
pub open spec fn feature_items(fs: Seq<FeatureView>, n: nat) -> Seq<Seq<char>>
    decreases n,
{
    if n == 0 {
        seq![]
    } else {
        let before = feature_items(fs, (n - 1) as nat);
        if tag_is_writable(fs[n - 1].tag) {
            before.push(feature_text(fs[n - 1]))
        } else {
            before
        }
    }
}

/// The first `n` axes whose tags can be written, each as CSS.
pub open spec fn variation_items(vs: Seq<VariationView>, n: nat, dec: nat) -> Seq<Seq<char>>
    decreases n,
{
    if n == 0 {
        seq![]
    } else {
        let before = variation_items(vs, (n - 1) as nat, dec);
        if tag_is_writable(vs[n - 1].tag) {
            before.push(variation_text(vs[n - 1], dec))
        } else {
            before
        }
    }
}

/// A CSS declaration listing `items`; nothing when there are none.
pub open spec fn declaration(property: Seq<char>, items: Seq<Seq<char>>) -> Seq<char> {
    if items.len() == 0 {
        seq![]
    } else {
        property + joined(items, ","@)
    }
}

/// Both settings declarations, a semicolon between them.
pub open spec fn settings_css(features: Seq<Seq<char>>, variations: Seq<Seq<char>>) -> Seq<char> {
    declaration("font-feature-settings:"@, features) + (if features.len() > 0 && variations.len()
        > 0 {
        seq![';']
    } else {
        seq![]
    }) + declaration("font-variation-settings:"@, variations)
}

/// The `style` attribute holding the settings; nothing when there are none.
pub open spec fn settings_text(font: FontView, dec: nat) -> Seq<char> {
    let features = feature_items(font.features, font.features.len());
    let variations = variation_items(font.variations, font.variations.len(), dec);
    if features.len() == 0 && variations.len() == 0 {
        seq![]
    } else {
        " style=\""@ + attr_text(settings_css(features, variations)) + seq!['"']
    }
}

fn feature_list(spec: &FontSpec) -> (items: Vec<String>)
    ensures
        texts(items@) == feature_items(spec@.features, spec@.features.len()),
{
    let mut items: Vec<String> = Vec::new();
    let mut i: usize = 0;
    assert(texts(items@) =~= feature_items(spec@.features, 0));
    while i < spec.features.len()
        invariant
            i <= spec.features@.len(),
            texts(items@) == feature_items(spec@.features, i as nat),
        decreases spec.features@.len() - i,
    {
        let f = &spec.features[i];
        assert(spec@.features[i as int] == f@);
        if writable_tag(&f.tag) {
            let mut item = String::new();
            write_tag(&mut item, &f.tag);
            item.push(' ');
            push_decimal(&mut item, f.value as u64);
            assert(item@ =~= feature_text(f@));
            let ghost before = texts(items@);
            items.push(item);
            assert(texts(items@) =~= before.push(feature_text(f@)));
        }
        i = i + 1;
    }
    items
}

fn variation_list(spec: &FontSpec, decimals: u8) -> (items: Vec<String>)
    ensures
        texts(items@) == variation_items(
            spec@.variations,
            spec@.variations.len(),
            decimals as nat,
        ),
{
    let mut items: Vec<String> = Vec::new();
    let mut i: usize = 0;
    assert(texts(items@) =~= variation_items(spec@.variations, 0, decimals as nat));
    while i < spec.variations.len()
        invariant
            i <= spec.variations@.len(),
            texts(items@) == variation_items(spec@.variations, i as nat, decimals as nat),
        decreases spec.variations@.len() - i,
    {
        let v = &spec.variations[i];
        assert(spec@.variations[i as int] == v@);
        if writable_tag(&v.tag) {
            let mut item = String::new();
            write_tag(&mut item, &v.tag);
            item.push(' ');
            num(&mut item, v.value, decimals);
            assert(item@ =~= variation_text(v@, decimals as nat));
            let ghost before = texts(items@);
            items.push(item);
            assert(texts(items@) =~= before.push(variation_text(v@, decimals as nat)));
        }
        i = i + 1;
    }
    items
}

/// Append `font-feature-settings` and `font-variation-settings` as a
/// `style` attribute.
///
/// In `style` rather than as presentation attributes because SVG 1.1 names
/// neither, and a consumer that does not recognise an attribute ignores it
/// silently.
pub fn write_font_settings(out: &mut String, spec: &FontSpec, decimals: u8)
    ensures
        final(out)@ == old(out)@ + settings_text(spec@, decimals as nat),
{
    let features = feature_list(spec);
    let variations = variation_list(spec, decimals);
    assert(texts(features@).len() == features@.len());
    assert(texts(variations@).len() == variations@.len());
    if features.len() == 0 && variations.len() == 0 {
        assert(out@ =~= old(out)@ + settings_text(spec@, decimals as nat));
        return;
    }
    let mut css = String::new();
    if features.len() > 0 {
        css.append("font-feature-settings:");
        css.append(join(&features, ",").as_str());
    }
    assert(css@ =~= declaration("font-feature-settings:"@, texts(features@)));
    if variations.len() > 0 {
        if features.len() > 0 {
            css.push(';');
        }
        css.append("font-variation-settings:");
        css.append(join(&variations, ",").as_str());
    }
    assert(css@ =~= settings_css(texts(features@), texts(variations@)));
    out.append(" style=\"");
    escape_attr(out, css.as_str());
    out.push('"');
    assert(out@ =~= old(out)@ + settings_text(spec@, decimals as nat));
}

/// The font named on the document's root element, which every `<text>`
/// inherits.
///
/// The first run to draw claims it; text agreeing with it leaves the
/// attribute off rather than repeating it once per element. Family and size
/// are claimed separately, so a run differing in one still inherits the
/// other.
#[derive(Debug)]
pub struct RootFont {
    pub family: Option<String>,
    pub size: Option<Fixed>,
}

/// The root's font as plain values.
#[verifier::ext_equal]
pub struct RootView {
    pub family: Option<Seq<char>>,
    pub size: Option<Fixed>,
}

impl View for RootFont {
    type V = RootView;

    open spec fn view(&self) -> RootView {
        RootView {
            family: match self.family {
                Some(f) => Some(f@),
                None => None,
            },
            size: self.size,
        }
    }
}

/// The root once `family` and `size` have been offered: each taken where
/// nothing had been.
pub open spec fn claimed(root: RootView, family: Seq<char>, size: Fixed) -> RootView {
    RootView {
        family: match root.family {
            Some(f) => Some(f),
            None => Some(family),
        },
        size: match root.size {
            Some(s) => Some(s),
            None => Some(size),
        },
    }
}

impl RootFont {
    /// A root that names no font yet.
    pub fn new() -> (r: RootFont)
        ensures
            r@ == (RootView { family: None, size: None }),
    {
        RootFont { family: None, size: None }
    }

    /// A root naming the same font.
    pub fn copied(&self) -> (r: RootFont)
        ensures
            r@ == self@,
    {
        let family = match &self.family {
            Some(f) => Some(f.clone()),
            None => None,
        };
        RootFont { family, size: self.size }
    }

    /// True when `family` is what the root names, claiming it if nothing has.
    pub fn claim_family(&mut self, family: &str) -> (r: bool)
        ensures
            r == match old(self)@.family {
                Some(f) => f == family@,
                None => true,
            },
            final(self)@ == (RootView {
                family: match old(self)@.family {
                    Some(f) => Some(f),
                    None => Some(family@),
                },
                size: old(self)@.size,
            }),
    {
        match &self.family {
            Some(f) => crate::text::same_text(f.as_str(), family),
            None => {
                self.family = Some(family.to_owned());
                true
            },
        }
    }

    /// True when `size` is what the root names, claiming it if nothing has.
    pub fn claim_size(&mut self, size: Fixed) -> (r: bool)
        ensures
            r == match old(self)@.size {
                Some(s) => s == size,
                None => true,
            },
            final(self)@ == (RootView {
                family: old(self)@.family,
                size: match old(self)@.size {
                    Some(s) => Some(s),
                    None => Some(size),
                },
            }),
    {
        match self.size {
            Some(s) => s == size,
            None => {
                self.size = Some(size);
                true
            },
        }
    }
}

/// The family attribute, unless the root names the same list or none yet.
pub open spec fn family_attr_text(root: RootView, family: Seq<char>) -> Seq<char> {
    match root.family {
        Some(f) => if f == family {
            seq![]
        } else {
            " font-family=\""@ + attr_text(family) + seq!['"']
        },
        None => seq![],
    }
}

/// The size attribute, unless the root names the same size or none yet.
pub open spec fn size_attr_text(root: RootView, size: Fixed, dec: nat) -> Seq<char> {
    match root.size {
        Some(s) => if s == size {
            seq![]
        } else {
            " font-size=\""@ + num_text(size, dec) + seq!['"']
        },
        None => seq![],
    }
}

/// The weight attribute; 400 is the default.
pub open spec fn weight_text(weight: u16) -> Seq<char> {
    if weight != 400 {
        " font-weight=\""@ + decimal_text(weight as nat) + seq!['"']
    } else {
        seq![]
    }
}

/// The style attribute; upright is the default.
pub open spec fn posture_text(style: FontStyleKind) -> Seq<char> {
    match style {
        FontStyleKind::Normal => seq![],
        FontStyleKind::Italic => " font-style=\"italic\""@,
        FontStyleKind::Oblique(angle) => " font-style=\"oblique "@ + num_text(angle, 1) + "deg\""@,
    }
}

/// The letter spacing: tracking is in thousandths of an em.
pub open spec fn spacing_text(tracking: Fixed, size: Fixed, dec: nat) -> Seq<char> {
    if tracking.nanos != 0 {
        " letter-spacing=\""@ + num_text(
            tracking.spec_scaled(size.nanos as int, 1000 * ONE),
            dec,
        ) + seq!['"']
    } else {
        seq![]
    }
}

/// The stretch attribute; the normal width is the default.
pub open spec fn width_ratio_text(width: Fixed, dec: nat) -> Seq<char> {
    if width.nanos != ONE {
        stretch_text(width, dec)
    } else {
        seq![]
    }
}

/// Everything naming the face, less what matches the default or what the
/// root already says.
pub open spec fn font_text(font: FontView, size: Fixed, dec: nat, root: RootView) -> Seq<char> {
    family_attr_text(root, family_list_text(font.families)) + size_attr_text(root, size, dec)
        + weight_text(font.weight) + posture_text(font.style) + width_ratio_text(font.width, dec)
        + spacing_text(font.tracking, size, dec) + settings_text(font, dec)
}

/// The root once a face has been named.
pub open spec fn font_root(font: FontView, size: Fixed, root: RootView) -> RootView {
    claimed(root, family_list_text(font.families), size)
}

/// Append what the face's weight, posture and spacing say.
#[verifier::spinoff_prover]
#[verifier::rlimit(60)]
fn write_face_attrs(out: &mut String, spec: &FontSpec, font_size: Fixed, decimals: u8)
    ensures
        final(out)@ == old(out)@ + (weight_text(spec@.weight) + posture_text(spec@.style)
            + width_ratio_text(spec@.width, decimals as nat) + spacing_text(
            spec@.tracking,
            font_size,
            decimals as nat,
        )),
{
    let ghost start = out@;
    let ghost dec = decimals as nat;
    if spec.weight != 400 {
        out.append(" font-weight=\"");
        push_decimal(out, spec.weight as u64);
        out.push('"');
    }
    let ghost weight_part = weight_text(spec@.weight);
    assert(out@ =~= start + weight_part);
    match spec.style {
        FontStyleKind::Normal => {},
        FontStyleKind::Italic => out.append(" font-style=\"italic\""),
        FontStyleKind::Oblique(angle) => {
            out.append(" font-style=\"oblique ");
            num(out, angle, 1);
            out.append("deg\"");
        },
    }
    let ghost style_part = weight_part + posture_text(spec@.style);
    assert(out@ =~= start + style_part);
    if spec.width.nanos != ONE {
        write_stretch(out, spec.width, decimals);
    }
    let ghost width_part = style_part + width_ratio_text(spec@.width, dec);
    assert(out@ =~= start + width_part);
    if spec.tracking.nanos != 0 {
        // Tracking is 1/1000 em, which is `em` in CSS once divided.
        out.append(" letter-spacing=\"");
        num(out, spec.tracking.scaled(font_size.nanos, 1000 * ONE), decimals);
        out.push('"');
    }
    assert(out@ =~= start + (width_part + spacing_text(spec@.tracking, font_size, dec)));
}

/// Append the family attribute, claiming the list where the root names none.
fn write_family_attr(out: &mut String, family: &str, root: &mut RootFont)
    ensures
        final(out)@ == old(out)@ + family_attr_text(old(root)@, family@),
        final(root)@ == (RootView {
            family: match old(root)@.family {
                Some(f) => Some(f),
                None => Some(family@),
            },
            size: old(root)@.size,
        }),
{
    let ghost start = out@;
    let ghost was = root@;
    if root.claim_family(family) {
        proof {
            lemma_append_nothing(start);
        }
    } else {
        out.append(" font-family=\"");
        escape_attr(out, family);
        out.push('"');
        assert(out@ =~= start + family_attr_text(was, family@));
    }
}

/// Append the size attribute, claiming the size where the root names none.
fn write_size_attr(out: &mut String, size: Fixed, decimals: u8, root: &mut RootFont)
    ensures
        final(out)@ == old(out)@ + size_attr_text(old(root)@, size, decimals as nat),
        final(root)@ == (RootView {
            family: old(root)@.family,
            size: match old(root)@.size {
                Some(s) => Some(s),
                None => Some(size),
            },
        }),
{
    let ghost start = out@;
    let ghost was = root@;
    if root.claim_size(size) {
        proof {
            lemma_append_nothing(start);
        }
    } else {
        out.append(" font-size=\"");
        num(out, size, decimals);
        out.push('"');
        assert(out@ =~= start + size_attr_text(was, size, decimals as nat));
    }
}

/// Append everything naming the face: `font-family`, `font-size`,
/// `font-weight`, `font-style`, `font-stretch`, `letter-spacing`, and the
/// OpenType features and variable-font axes.
///
/// Whatever matches the CSS default, or what the element already inherits
/// from the root, is left off.
#[verifier::spinoff_prover]
pub fn write_font_attrs(
    out: &mut String,
    spec: &FontSpec,
    font_size: Fixed,
    decimals: u8,
    root: &mut RootFont,
)
    ensures
        final(out)@ == old(out)@ + font_text(spec@, font_size, decimals as nat, old(root)@),
        final(root)@ == font_root(spec@, font_size, old(root)@),
{
    let ghost start = out@;
    let ghost dec = decimals as nat;
    let family = family_list(spec);
    let ghost a = family_attr_text(root@, family@);
    let ghost b = size_attr_text(root@, font_size, dec);
    let ghost c = weight_text(spec@.weight);
    let ghost d = posture_text(spec@.style);
    let ghost e = width_ratio_text(spec@.width, dec);
    let ghost f = spacing_text(spec@.tracking, font_size, dec);
    let ghost g = settings_text(spec@, dec);
    write_family_attr(out, family.as_str(), root);
    write_size_attr(out, font_size, decimals, root);
    write_face_attrs(out, spec, font_size, decimals);
    write_font_settings(out, spec, decimals);
    proof {
        lemma_append(start, a, b);
        lemma_append(start, a + b, c + d + e + f);
        lemma_append(a + b, c + d + e, f);
        lemma_append(a + b, c + d, e);
        lemma_append(a + b, c, d);
        lemma_append(start, a + b + c + d + e + f, g);
    }
}

} // verus!
