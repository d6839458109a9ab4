//! Paints, the definitions they refer to, and the faces a document inlines.

use vstd::prelude::*;

use super::config::{noted, SvgWarning, Warnings};
use super::fragment::DefBody;
use super::refs::read_as;
use crate::color::{solid, solid_paint, Color};
use crate::fixed::{Fixed, ONE};
use crate::text::{
    decimal_text, lemma_decimal_text_is_digits, lemma_decimal_text_is_injective, push_decimal,
    same_text,
};

verus! {

/// A paint as an attribute value, with the opacity beside it.
#[derive(Debug, Clone)]
pub struct Paint {
    /// A color or a reference such as `url(#lg0)`.
    pub value: String,
    /// The companion opacity, when it is not one.
    pub opacity: Option<Fixed>,
}

/// A paint as plain values.
#[verifier::ext_equal]
pub struct PaintView {
    pub value: Seq<char>,
    pub opacity: Option<Fixed>,
}

impl View for Paint {
    type V = PaintView;

    open spec fn view(&self) -> PaintView {
        PaintView { value: self.value@, opacity: self.opacity }
    }
}

/// An optional paint as plain values.
pub open spec fn paint_option_view(p: Option<Paint>) -> Option<PaintView> {
    match p {
        Some(p) => Some(p@),
        None => None,
    }
}

/// True when both paints are absent, or both are there and agree.
pub fn paint_eq(a: Option<&Paint>, b: Option<&Paint>) -> (r: bool)
    ensures
        r == match (a, b) {
            (None, None) => true,
            (Some(x), Some(y)) => x@ == y@,
            _ => false,
        },
{
    match (a, b) {
        (None, None) => true,
        (Some(x), Some(y)) => {
            let same_opacity = match (x.opacity, y.opacity) {
                (None, None) => true,
                (Some(p), Some(q)) => p == q,
                _ => false,
            };
            let r = x.value == y.value && same_opacity;
            assert(r == (x@ == y@));
            r
        },
        _ => false,
    }
}

/// `p` with `alpha` folded into its opacity; an `alpha` of one or more
/// leaves it alone.
pub open spec fn scaled_paint(p: PaintView, alpha: Fixed) -> PaintView {
    if alpha.nanos < ONE {
        let base = match p.opacity {
            Some(a) => a,
            None => Fixed { nanos: ONE },
        };
        PaintView { opacity: Some(base.spec_times(alpha)), ..p }
    } else {
        p
    }
}

/// Fold a run's brush alpha into its paint opacity.
pub fn scale_alpha(p: Paint, alpha: Fixed) -> (r: Paint)
    ensures
        r@ == scaled_paint(p@, alpha),
{
    if alpha.nanos < ONE {
        let base = match p.opacity {
            Some(a) => a,
            None => Fixed { nanos: ONE },
        };
        Paint { value: p.value, opacity: Some(base.times(alpha)) }
    } else {
        p
    }
}

/// What a definition defines.
#[derive(Debug, Clone, Copy, PartialEq, Eq, Structural)]
pub enum DefKind {
    Clip,
    LinearGradient,
    RadialGradient,
    Image,
}

/// The start of every id of a kind.
pub open spec fn kind_tag(kind: DefKind) -> Seq<char> {
    match kind {
        DefKind::Clip => "c"@,
        DefKind::LinearGradient => "lg"@,
        DefKind::RadialGradient => "rg"@,
        DefKind::Image => "im"@,
    }
}

/// The element a definition of a kind is.
pub open spec fn kind_element(kind: DefKind) -> Seq<char> {
    match kind {
        DefKind::Clip => "clipPath"@,
        DefKind::LinearGradient => "linearGradient"@,
        DefKind::RadialGradient => "radialGradient"@,
        DefKind::Image => "image"@,
    }
}

fn tag_of(kind: DefKind) -> (r: &'static str)
    ensures
        r@ == kind_tag(kind),
{
    match kind {
        DefKind::Clip => "c",
        DefKind::LinearGradient => "lg",
        DefKind::RadialGradient => "rg",
        DefKind::Image => "im",
    }
}

pub(crate) fn element_of(kind: DefKind) -> (r: &'static str)
    ensures
        r@ == kind_element(kind),
{
    match kind {
        DefKind::Clip => "clipPath",
        DefKind::LinearGradient => "linearGradient",
        DefKind::RadialGradient => "radialGradient",
        DefKind::Image => "image",
    }
}

/// One definition.
#[derive(Debug)]
pub struct Def {
    kind: DefKind,
    id: String,
    /// The element after its name and id: further attributes, the closing
    /// bracket, and the content with its end tag.
    rest: String,
}

/// One definition as plain values.
#[verifier::ext_equal]
pub struct DefView {
    pub kind: DefKind,
    pub id: Seq<char>,
    pub rest: Seq<char>,
}

impl View for Def {
    type V = DefView;

    closed spec fn view(&self) -> DefView {
        DefView { kind: self.kind, id: self.id@, rest: self.rest@ }
    }
}

/// The definitions a document holds, in the order they were first needed.
#[derive(Debug)]
pub struct Defs {
    items: Vec<Def>,
}

impl View for Defs {
    type V = Seq<DefView>;

    closed spec fn view(&self) -> Seq<DefView> {
        Seq::new(self.items@.len(), |i: int| self.items@[i]@)
    }
}

/// How many of `defs` are of `kind`.
pub open spec fn kind_count(defs: Seq<DefView>, kind: DefKind) -> nat
    decreases defs.len(),
{
    if defs.len() == 0 {
        0
    } else {
        let before = kind_count(defs.drop_last(), kind);
        if defs.last().kind == kind {
            before + 1
        } else {
            before
        }
    }
}

/// The id under which a definition already stands, if it does.
pub open spec fn defined_as(defs: Seq<DefView>, kind: DefKind, rest: Seq<char>) -> Option<Seq<char>>
    decreases defs.len(),
{
    if defs.len() == 0 {
        None
    } else {
        match defined_as(defs.drop_last(), kind, rest) {
            Some(id) => Some(id),
            None => if defs.last().kind == kind && defs.last().rest == rest {
                Some(defs.last().id)
            } else {
                None
            },
        }
    }
}

/// The id a new definition of `kind` gets: the prefix, the kind's tag, and
/// how many of the kind came before.
pub open spec fn fresh_id(defs: Seq<DefView>, kind: DefKind, prefix: Seq<char>) -> Seq<char> {
    prefix + kind_tag(kind) + decimal_text(kind_count(defs, kind))
}

/// The id that a definition is referred to by.
pub open spec fn interned_id(
    defs: Seq<DefView>,
    kind: DefKind,
    rest: Seq<char>,
    prefix: Seq<char>,
) -> Seq<char> {
    match defined_as(defs, kind, rest) {
        Some(id) => id,
        None => fresh_id(defs, kind, prefix),
    }
}

/// The definitions once `rest` is among them: the same ones when it was
/// there before, one more otherwise.
pub open spec fn interned(
    defs: Seq<DefView>,
    kind: DefKind,
    rest: Seq<char>,
    prefix: Seq<char>,
) -> Seq<DefView> {
    match defined_as(defs, kind, rest) {
        Some(_) => defs,
        None => defs.push(DefView { kind, id: fresh_id(defs, kind, prefix), rest }),
    }
}

/// One definition as markup.
pub open spec fn def_text(d: DefView) -> Seq<char> {
    seq!['<'] + kind_element(d.kind) + " id=\""@ + d.id + seq!['"'] + d.rest
}

/// The first `n` definitions as markup.
pub open spec fn def_list_text(defs: Seq<DefView>, n: nat) -> Seq<char>
    decreases n,
{
    if n == 0 {
        seq![]
    } else {
        def_list_text(defs, (n - 1) as nat) + def_text(defs[n - 1])
    }
}

/// The stylesheet as markup, when there is one.
pub open spec fn style_text(style: Option<Seq<char>>) -> Seq<char> {
    match style {
        Some(css) => "<style><![CDATA["@ + css + "]]></style>"@,
        None => seq![],
    }
}

/// The whole `<defs>` element; nothing when there is nothing to define.
pub open spec fn defs_text(defs: Seq<DefView>, style: Option<Seq<char>>) -> Seq<char> {
    if defs.len() == 0 && style is None {
        seq![]
    } else {
        "<defs>"@ + style_text(style) + def_list_text(defs, defs.len()) + "</defs>"@
    }
}

impl Defs {
    /// No definitions.
    pub fn new() -> (r: Defs)
        ensures
            r@ == Seq::<DefView>::empty(),
    {
        let r = Defs { items: Vec::new() };
        assert(r@ =~= Seq::<DefView>::empty());
        r
    }

    /// Define `rest` as `kind`, unless it is defined already, and return the
    /// id to refer to it by.
    pub fn intern(&mut self, kind: DefKind, rest: &str, prefix: &str) -> (id: String)
        ensures
            id@ == interned_id(old(self)@, kind, rest@, prefix@),
            final(self)@ == interned(old(self)@, kind, rest@, prefix@),
    {
        let mut count: u64 = 0;
        let mut i: usize = 0;
        while i < self.items.len()
            invariant
                i <= self.items@.len(),
                count <= i,
                *self == *old(self),
                count == kind_count(self@.take(i as int), kind),
                defined_as(self@.take(i as int), kind, rest@) is None,
            decreases self.items@.len() - i,
        {
            let d = &self.items[i];
            assert(self@.take(i + 1).drop_last() =~= self@.take(i as int));
            assert(self@.take(i + 1).last() == d@);
            if d.kind == kind && same_text(d.rest.as_str(), rest) {
                proof {
                    lemma_first_match_stays(self@, i + 1, kind, rest@);
                }
                return d.id.clone();
            }
            if d.kind == kind {
                count = count + 1;
            }
            i = i + 1;
        }
        assert(self@.take(i as int) =~= self@);
        let mut id = String::new();
        id.append(prefix);
        id.append(tag_of(kind));
        push_decimal(&mut id, count);
        assert(id@ =~= fresh_id(self@, kind, prefix@));
        let ghost before = self@;
        self.items.push(Def { kind, id: id.clone(), rest: rest.to_owned() });
        assert(self@ =~= interned(before, kind, rest@, prefix@));
        id
    }

    /// Append the `<defs>` element, if there is anything in it.
    pub fn write(&self, out: &mut String, style: Option<&str>)
        ensures
            final(out)@ == old(out)@ + defs_text(
                self@,
                match style {
                    Some(s) => Some(s@),
                    None => None,
                },
            ),
    {
        let ghost before = out@;
        let ghost css: Option<Seq<char>> = match style {
            Some(s) => Some(s@),
            None => None,
        };
        if self.items.len() == 0 && style.is_none() {
            assert(out@ =~= before + defs_text(self@, css));
            return;
        }
        out.append("<defs>");
        if let Some(s) = style {
            out.append("<style><![CDATA[");
            out.append(s);
            out.append("]]></style>");
        }
        let ghost head = "<defs>"@ + style_text(css);
        assert(out@ =~= before + head + def_list_text(self@, 0));
        let mut i: usize = 0;
        while i < self.items.len()
            invariant
                i <= self.items@.len(),
                out@ == before + head + def_list_text(self@, i as nat),
            decreases self.items@.len() - i,
        {
            let d = &self.items[i];
            let ghost so_far = out@;
            out.push('<');
            out.append(element_of(d.kind));
            out.append(" id=\"");
            out.append(d.id.as_str());
            out.push('"');
            out.append(d.rest.as_str());
            assert(out@ =~= so_far + def_text(self@[i as int]));
            i = i + 1;
            assert(out@ =~= before + head + def_list_text(self@, i as nat));
        }
        out.append("</defs>");
        assert(out@ =~= before + defs_text(self@, css));
    }
}

proof fn lemma_first_match_stays(defs: Seq<DefView>, n: int, kind: DefKind, rest: Seq<char>)
    requires
        0 <= n <= defs.len(),
        defined_as(defs.take(n), kind, rest) is Some,
    ensures
        defined_as(defs, kind, rest) == defined_as(defs.take(n), kind, rest),
    decreases defs.len() - n,
{
    if n == defs.len() {
        assert(defs.take(n) =~= defs);
    } else {
        assert(defs.take(n + 1).drop_last() =~= defs.take(n));
        lemma_first_match_stays(defs, n + 1, kind, rest);
    }
}

/// How a paint is to be expressed.
#[derive(Debug)]
pub enum PaintSource {
    /// A flat color.
    Flat(Color),
    /// A gradient, defined once and referred to.
    Server(DefBody),
}

/// What to paint with: how SVG can express it, and what was lost by doing
/// so, if anything was.
#[derive(Debug)]
pub struct Brush {
    pub source: PaintSource,
    pub warning: Option<SvgWarning>,
}

/// The warnings once a brush has been expressed.
pub open spec fn brush_warnings(seen: Seq<SvgWarning>, b: Brush) -> Seq<SvgWarning> {
    match b.warning {
        Some(w) => noted(seen, w),
        None => seen,
    }
}

/// The definitions once a brush has been expressed.
pub open spec fn brush_defs(defs: Seq<DefView>, b: Brush, prefix: Seq<char>) -> Seq<DefView> {
    match b.source {
        PaintSource::Flat(_) => defs,
        PaintSource::Server(body) => interned(defs, body@.kind, body@.rest, prefix),
    }
}

/// The paint a brush comes to: its flat color, or a reference to its
/// gradient.
pub open spec fn brush_paint(defs: Seq<DefView>, b: Brush, prefix: Seq<char>) -> PaintView {
    match b.source {
        PaintSource::Flat(c) => solid_paint(c),
        PaintSource::Server(body) => PaintView {
            value: "url(#"@ + interned_id(defs, body@.kind, body@.rest, prefix) + ")"@,
            opacity: None,
        },
    }
}

/// Express `brush`, defining its gradient and reporting what was lost.
pub fn resolve(brush: &Brush, defs: &mut Defs, prefix: &str, warnings: &mut Warnings) -> (p: Paint)
    ensures
        p@ == brush_paint(old(defs)@, *brush, prefix@),
        final(defs)@ == brush_defs(old(defs)@, *brush, prefix@),
        final(warnings)@ == brush_warnings(old(warnings)@, *brush),
{
    if let Some(w) = brush.warning {
        warnings.note(w);
    }
    match &brush.source {
        PaintSource::Flat(c) => solid(*c),
        PaintSource::Server(body) => {
            let id = defs.intern(body.kind(), body.rest(), prefix);
            let mut value = String::new();
            value.append("url(#");
            value.append(id.as_str());
            value.append(")");
            let p = Paint { value, opacity: None };
            assert(p@ =~= brush_paint(old(defs)@, *brush, prefix@));
            p
        },
    }
}

/// The ids of the definitions.
pub open spec fn ids_of(defs: Seq<DefView>) -> Seq<Seq<char>> {
    defs.map_values(|d: DefView| d.id)
}

/// The ids of the definitions, and what references to them are read as.
pub open spec fn named_of(defs: Seq<DefView>) -> Seq<Seq<char>> {
    ids_of(defs) + defs.map_values(|d: DefView| read_as(d.id))
}

/// Where the first `n` definitions give their ids.
pub open spec fn id_places(defs: Seq<DefView>, n: nat) -> Seq<int>
    decreases n,
{
    if n == 0 {
        seq![]
    } else {
        id_places(defs, (n - 1) as nat).push(
            (def_list_text(defs, (n - 1) as nat).len() + 1 + kind_element(
                defs[n - 1].kind,
            ).len()) as int,
        )
    }
}

/// Every definition stands under the id it was due when it was first needed,
/// and no two say the same thing.
pub open spec fn defs_in_order(defs: Seq<DefView>, prefix: Seq<char>) -> bool {
    &&& forall|i: int|
        0 <= i < defs.len() ==> (#[trigger] defs[i]).id == fresh_id(
            defs.take(i),
            defs[i].kind,
            prefix,
        )
    &&& forall|i: int, j: int|
        0 <= i < j < defs.len() && defs[i].kind == defs[j].kind ==> (#[trigger] defs[i]).rest != (
        #[trigger] defs[j]).rest
}

proof fn lemma_defined_as_finds(defs: Seq<DefView>, kind: DefKind, rest: Seq<char>)
    ensures
        defined_as(defs, kind, rest) is None ==> forall|i: int|
            0 <= i < defs.len() ==> !((#[trigger] defs[i]).kind == kind && defs[i].rest == rest),
        defined_as(defs, kind, rest) is Some ==> exists|i: int|
            0 <= i < defs.len() && (#[trigger] defs[i]).kind == kind && defs[i].rest == rest
                && defs[i].id == defined_as(defs, kind, rest)->0,
    decreases defs.len(),
{
    if defs.len() > 0 {
        let before = defs.drop_last();
        lemma_defined_as_finds(before, kind, rest);
        if defined_as(before, kind, rest) is None {
            assert forall|i: int|
                0 <= i < defs.len() && defined_as(defs, kind, rest) is None implies !((
            #[trigger] defs[i]).kind == kind && defs[i].rest == rest) by {
                if i < before.len() {
                    assert(before[i] == defs[i]);
                }
            }
            if defined_as(defs, kind, rest) is Some {
                assert(defs[defs.len() - 1].kind == kind);
            }
        } else {
            let i = choose|i: int|
                0 <= i < before.len() && (#[trigger] before[i]).kind == kind && before[i].rest
                    == rest && before[i].id == defined_as(before, kind, rest)->0;
            assert(defs[i] == before[i]);
        }
    }
}

proof fn lemma_kind_count_grows(defs: Seq<DefView>, i: int, j: int, kind: DefKind)
    requires
        0 <= i <= j <= defs.len(),
    ensures
        kind_count(defs.take(i), kind) <= kind_count(defs.take(j), kind),
        i < j && defs[i].kind == kind ==> kind_count(defs.take(i), kind) < kind_count(
            defs.take(j),
            kind,
        ),
    decreases j - i,
{
    if i < j {
        assert(defs.take(i + 1).drop_last() =~= defs.take(i));
        assert(defs.take(i + 1).last() == defs[i]);
        lemma_kind_count_grows(defs, i + 1, j, kind);
    }
}

/// An id is generated in one way only: under another prefix, for another
/// kind or as another one of its kind, an id differs. So documents with
/// different prefixes can share a page.
pub proof fn lemma_ids_stay_apart(
    p: Seq<char>,
    k: DefKind,
    m: nat,
    q: Seq<char>,
    l: DefKind,
    n: nat,
)
    requires
        p + kind_tag(k) + decimal_text(m) == q + kind_tag(l) + decimal_text(n),
    ensures
        p == q && k == l && m == n,
{
    reveal_strlit("c");
    reveal_strlit("lg");
    reveal_strlit("rg");
    reveal_strlit("im");
    lemma_decimal_text_is_digits(m);
    lemma_decimal_text_is_digits(n);
    let a = p + kind_tag(k) + decimal_text(m);
    let b = q + kind_tag(l) + decimal_text(n);
    let i = a.len() - decimal_text(m).len();
    let j = b.len() - decimal_text(n).len();
    assert(a[i - 1] == kind_tag(k).last());
    assert(b[j - 1] == kind_tag(l).last());
    if i > j {
        assert(b[i - 1] == decimal_text(n)[i - 1 - j]);
    } else if j > i {
        assert(a[j - 1] == decimal_text(m)[j - 1 - i]);
    }
    assert(i == j);
    assert(a.skip(i) =~= decimal_text(m));
    assert(b.skip(j) =~= decimal_text(n));
    lemma_decimal_text_is_injective(m, n);
    assert(k == l) by {
        if kind_tag(k).len() == 2 && kind_tag(l).len() == 2 {
            assert(a[i - 2] == kind_tag(k)[0]);
            assert(b[j - 2] == kind_tag(l)[0]);
        }
    }
    assert(a.take(p.len() as int) =~= p);
    assert(b.take(q.len() as int) =~= q);
}

/// Every id is defined exactly once.
pub proof fn lemma_ids_are_unique(defs: Seq<DefView>, prefix: Seq<char>, i: int, j: int)
    requires
        defs_in_order(defs, prefix),
        0 <= i < defs.len(),
        0 <= j < defs.len(),
        defs[i].id == defs[j].id,
    ensures
        i == j,
{
    if i != j {
        let a = if i < j { i } else { j };
        let b = if i < j { j } else { i };
        lemma_ids_stay_apart(
            prefix,
            defs[a].kind,
            kind_count(defs.take(a), defs[a].kind),
            prefix,
            defs[b].kind,
            kind_count(defs.take(b), defs[b].kind),
        );
        lemma_kind_count_grows(defs, a, b, defs[a].kind);
    }
}

/// Interning keeps the definitions in order, keeps the ones that were there,
/// and hands back an id that is defined.
pub proof fn lemma_interning_defines(
    defs: Seq<DefView>,
    kind: DefKind,
    rest: Seq<char>,
    prefix: Seq<char>,
)
    requires
        defs_in_order(defs, prefix),
    ensures
        defs_in_order(interned(defs, kind, rest, prefix), prefix),
        defs.is_prefix_of(interned(defs, kind, rest, prefix)),
        exists|i: int|
            0 <= i < interned(defs, kind, rest, prefix).len() && (#[trigger] interned(
                defs,
                kind,
                rest,
                prefix,
            )[i]) == (DefView { kind, rest, id: interned_id(defs, kind, rest, prefix) }),
{
    lemma_defined_as_finds(defs, kind, rest);
    let after = interned(defs, kind, rest, prefix);
    match defined_as(defs, kind, rest) {
        Some(id) => {
            let i = choose|i: int|
                0 <= i < defs.len() && (#[trigger] defs[i]).kind == kind && defs[i].rest == rest
                    && defs[i].id == id;
            assert(after[i] == (DefView { kind, rest, id }));
        },
        None => {
            let n = defs.len() as int;
            assert(after[n] == (DefView { kind, rest, id: fresh_id(defs, kind, prefix) }));
            assert forall|i: int| 0 <= i < after.len() implies (#[trigger] after[i]).id == fresh_id(
                after.take(i),
                after[i].kind,
                prefix,
            ) by {
                assert(after.take(i) =~= defs.take(i));
                if i < n {
                    assert(after[i] == defs[i]);
                } else {
                    assert(defs.take(n) =~= defs);
                }
            }
            assert forall|i: int, j: int|
                0 <= i < j < after.len() && after[i].kind == after[j].kind implies (
            #[trigger] after[i]).rest != (#[trigger] after[j]).rest by {
                assert(after[i] == defs[i]);
                if j < n {
                    assert(after[j] == defs[j]);
                }
            }
        },
    }
}

/// What is defined already is not defined again: the second time the same id
/// is handed back and nothing is added.
pub proof fn lemma_interning_shares(
    defs: Seq<DefView>,
    kind: DefKind,
    rest: Seq<char>,
    prefix: Seq<char>,
)
    ensures
        ({
            let once = interned(defs, kind, rest, prefix);
            &&& interned(once, kind, rest, prefix) == once
            &&& interned_id(once, kind, rest, prefix) == interned_id(defs, kind, rest, prefix)
        }),
{
    if defined_as(defs, kind, rest) is None {
        let once = interned(defs, kind, rest, prefix);
        assert(once.drop_last() =~= defs);
    }
}

/// Every id starts with the prefix.
pub proof fn lemma_ids_carry_the_prefix(defs: Seq<DefView>, prefix: Seq<char>, i: int)
    requires
        defs_in_order(defs, prefix),
        0 <= i < defs.len(),
    ensures
        prefix.is_prefix_of(defs[i].id),
{
    assert(defs[i].id.take(prefix.len() as int) =~= prefix);
}

/// Two documents under different prefixes define no id in common.
pub proof fn lemma_prefixes_keep_documents_apart(
    these: Seq<DefView>,
    p: Seq<char>,
    those: Seq<DefView>,
    q: Seq<char>,
    i: int,
    j: int,
)
    requires
        defs_in_order(these, p),
        defs_in_order(those, q),
        p != q,
        0 <= i < these.len(),
        0 <= j < those.len(),
    ensures
        these[i].id != those[j].id,
{
    if these[i].id == those[j].id {
        lemma_ids_stay_apart(
            p,
            these[i].kind,
            kind_count(these.take(i), these[i].kind),
            q,
            those[j].kind,
            kind_count(those.take(j), those[j].kind),
        );
    }
}

/// The faces a document inlines, each as its `@font-face` rule.
#[derive(Debug)]
pub struct FontRegistry {
    rules: Vec<String>,
}

impl View for FontRegistry {
    type V = Seq<Seq<char>>;

    closed spec fn view(&self) -> Seq<Seq<char>> {
        Seq::new(self.rules@.len(), |i: int| self.rules@[i]@)
    }
}

/// The rules once a face has been used: one more when it has a rule that is
/// not there yet.
pub open spec fn faces_noted(rules: Seq<Seq<char>>, rule: Option<Seq<char>>) -> Seq<Seq<char>> {
    match rule {
        Some(r) => if rules.contains(r) {
            rules
        } else {
            rules.push(r)
        },
        None => rules,
    }
}

/// The first `n` rules, one after another.
pub open spec fn rules_text(rules: Seq<Seq<char>>, n: nat) -> Seq<char>
    decreases n,
{
    if n == 0 {
        seq![]
    } else {
        rules_text(rules, (n - 1) as nat) + rules[n - 1]
    }
}

/// The stylesheet: every rule, when faces are inlined and there is one.
pub open spec fn stylesheet_text(rules: Seq<Seq<char>>, embed: bool) -> Option<Seq<char>> {
    if embed && rules.len() > 0 {
        Some(rules_text(rules, rules.len()))
    } else {
        None
    }
}

impl FontRegistry {
    /// No faces.
    pub fn new() -> (r: FontRegistry)
        ensures
            r@ == Seq::<Seq<char>>::empty(),
    {
        let r = FontRegistry { rules: Vec::new() };
        assert(r@ =~= Seq::<Seq<char>>::empty());
        r
    }

    /// Record the rule of a face that was used.
    pub fn note(&mut self, rule: Option<&str>)
        ensures
            final(self)@ == faces_noted(
                old(self)@,
                match rule {
                    Some(s) => Some(s@),
                    None => None,
                },
            ),
    {
        if let Some(r) = rule {
            let mut i: usize = 0;
            while i < self.rules.len()
                invariant
                    i <= self.rules@.len(),
                    rule == Some(r),
                    *self == *old(self),
                    forall|j: int| 0 <= j < i ==> #[trigger] self@[j] != r@,
                decreases self.rules@.len() - i,
            {
                if same_text(self.rules[i].as_str(), r) {
                    assert(old(self)@[i as int] == r@);
                    return;
                }
                assert(self@[i as int] != r@);
                i = i + 1;
            }
            let ghost before = self@;
            self.rules.push(r.to_owned());
            assert(self@ =~= before.push(r@));
        }
    }

    /// The stylesheet that inlines the faces, when that was asked for.
    pub fn stylesheet(&self, embed: bool) -> (r: Option<String>)
        ensures
            r is Some == stylesheet_text(self@, embed) is Some,
            r is Some ==> r->0@ == stylesheet_text(self@, embed)->0,
    {
        if !embed || self.rules.len() == 0 {
            return None;
        }
        let mut out = String::new();
        let mut i: usize = 0;
        while i < self.rules.len()
            invariant
                i <= self.rules@.len(),
                out@ == rules_text(self@, i as nat),
            decreases self.rules@.len() - i,
        {
            out.append(self.rules[i].as_str());
            i = i + 1;
        }
        Some(out)
    }
}

} // verus!
