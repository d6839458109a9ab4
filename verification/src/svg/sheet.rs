//! What a document says of itself: its size, its background, its definitions
//! and the face its text falls back to.

use vstd::prelude::*;

use super::attrs::{opacity_text, PickId, Stroke};
use super::config::{noted, SvgUnits, SvgWarning, TextMode};
use super::drawn::{drawn, ends, lemma_ends, lemma_text_attrs, says_text};
use super::font::RootView;
use super::model::{
    background_text, in_points, root_family_text, root_font_size_text, root_length_text,
    root_size_text, root_style_text, BlendMode, Compose, SceneView,
};
use super::paint::{
    def_list_text, def_text, defs_text, rules_text, style_text, stylesheet_text, Brush, DefKind,
    DefView,
};
use super::reading::{
    color_reads, is_tag, lemma_color_reads_back, lemma_lists_joined, lemma_lists_maybe, lemma_names,
    lemma_number_is_quoteless, lemma_numbers_more, lemma_numbers_one, lemma_openings,
    lemma_quoteless_joined, lists, maybe, numbers_read, said, says, says_number, silent, tidy_name,
    Attr,
};
use super::refs::quoteless;
use super::shown::{lemma_number_attrs, lemma_opacity_attrs, says_opacity};
use super::text::{claims, GlyphRun};
use crate::color::{solid_paint, Color};
use crate::fixed::{lemma_scaling_is_nearest, num_text, Fixed};
use crate::geometry::{rect_of, Affine, FillRule, PathEl, Size};
use crate::numeral::{lemma_number_reads_back, writes};
use crate::text::{lemma_append, lemma_append_nothing};

verus! {

/// True when `x` pixels at a resolution are `p` points long, to the nearest
/// billionth, where that can be held.
pub open spec fn points_long(p: Fixed, x: Fixed, dpi: Fixed) -> bool {
    dpi.nanos > 0 && i64::MIN * dpi.nanos <= x.nanos * 72_000_000_000 <= i64::MAX * dpi.nanos
        ==> -dpi.nanos <= 2 * (p.nanos * dpi.nanos - x.nanos * 72_000_000_000) <= dpi.nanos
}

/// True when `s` is a length: in pixels, or in points and said to be.
pub open spec fn length_reads(
    s: Seq<char>,
    x: Fixed,
    dpi: Fixed,
    units: SvgUnits,
    dec: nat,
) -> bool {
    match units {
        SvgUnits::Px => writes(s, x, dec),
        SvgUnits::Pt => s.len() >= 2 && s.skip(s.len() - 2) == "pt"@ && exists|p: Fixed| #[trigger]
            writes(s.take(s.len() - 2), p, dec) && points_long(p, x, dpi),
    }
}

/// True when a root is as large as a scene, which it shows whole: a unit of it
/// is a pixel of the scene.
pub open spec fn sized(list: Seq<Attr>, size: Size, dpi: Fixed, units: SvgUnits, dec: nat) -> bool {
    let zero = Fixed { nanos: 0 };
    &&& said(list, "width"@).len() == 1
    &&& length_reads(said(list, "width"@)[0], size.width, dpi, units, dec)
    &&& said(list, "height"@).len() == 1
    &&& length_reads(said(list, "height"@)[0], size.height, dpi, units, dec)
    &&& said(list, "viewBox"@).len() == 1
    &&& numbers_read(
        said(list, "viewBox"@)[0],
        seq![(zero, dec), (zero, dec), (size.width, dec), (size.height, dec)],
    )
}

/// True when a root names the face that text falls back to, once there is one,
/// and then keeps white space as it is. It always stands by itself.
pub open spec fn faced(list: Seq<Attr>, root: RootView, dec: nat) -> bool {
    &&& says(list, "xmlns"@, "http://www.w3.org/2000/svg"@)
    &&& says_text(list, "font-family"@, root.family)
    &&& match root.size {
        Some(s) => says_number(list, "font-size"@, s, dec),
        None => silent(list, "font-size"@),
    }
    &&& if root.family is Some {
        says(list, "xml:space"@, "preserve"@) && says(
            list,
            "style"@,
            "isolation:isolate;white-space:pre"@,
        )
    } else {
        silent(list, "xml:space"@) && says(list, "style"@, "isolation:isolate"@)
    }
}

/// True when `s` is a background: a rectangle as large as the scene in its
/// color, or nothing for none.
pub open spec fn backed(s: Seq<char>, color: Option<Color>, size: Size, dec: nat) -> bool {
    match color {
        Some(c) => exists|list: Seq<Attr>| #[trigger]
            is_tag(s, "rect"@, list, "/>"@) && says_number(list, "width"@, size.width, dec)
                && says_number(list, "height"@, size.height, dec) && said(list, "fill"@).len() == 1
                && color_reads(said(list, "fill"@)[0], c.red, c.green, c.blue) && says_opacity(
                list,
                "fill-opacity"@,
                if c.alpha.nanos == 1_000_000_000 {
                    None
                } else {
                    Some(c.alpha)
                },
                3,
            ),
        None => s.len() == 0,
    }
}

/// The element that defines a kind of thing.
pub open spec fn defining(kind: DefKind) -> Seq<char> {
    match kind {
        DefKind::Clip => "<clipPath id=\""@,
        DefKind::LinearGradient => "<linearGradient id=\""@,
        DefKind::RadialGradient => "<radialGradient id=\""@,
        DefKind::Image => "<image id=\""@,
    }
}

/// True when `s` defines something: an element of its kind, under its id.
pub open spec fn defines(s: Seq<char>, d: DefView) -> bool {
    exists|a: Seq<char>, b: Seq<char>|
        s == "<defs>"@ + #[trigger] (a + (defining(d.kind) + d.id + seq!['"'] + d.rest) + b)
            + "</defs>"@
}

/// True when `s` holds a rule of the stylesheet.
pub open spec fn styles(s: Seq<char>, rule: Seq<char>) -> bool {
    exists|a: Seq<char>, b: Seq<char>|
        s == "<defs><style><![CDATA["@ + #[trigger] (a + rule + b) + "</defs>"@
}

proof fn lemma_zero_is_one_digit(dec: nat)
    ensures
        num_text(Fixed { nanos: 0 }, dec) == seq!['0'],
{
    let places = crate::fixed::places_kept(dec);
    let unit = crate::fixed::power_of_ten((9 - places) as nat);
    let whole = crate::fixed::power_of_ten(places);
    crate::numeral::lemma_pow((9 - places) as nat);
    crate::numeral::lemma_pow(places);
    assert(0nat / unit == 0 && 0nat % unit == 0 && 0nat / whole == 0 && 0nat % whole == 0) by {
        vstd::arithmetic::div_mod::lemma_basic_div(0, unit as int);
        vstd::arithmetic::div_mod::lemma_basic_div(0, whole as int);
        vstd::arithmetic::div_mod::lemma_small_mod(0, unit);
        vstd::arithmetic::div_mod::lemma_small_mod(0, whole);
    }
    assert(crate::fixed::rounded(Fixed { nanos: 0 }, dec) == 0);
    reveal_with_fuel(crate::text::decimal_text, 2);
    assert(num_text(Fixed { nanos: 0 }, dec) =~= seq!['0']);
}

proof fn lemma_length_reads_back(x: Fixed, dpi: Fixed, units: SvgUnits, dec: nat)
    ensures
        length_reads(root_length_text(x, dpi, units, dec), x, dpi, units, dec),
        quoteless(root_length_text(x, dpi, units, dec)),
{
    lemma_number_reads_back(x, dec);
    lemma_number_is_quoteless(x, dec);
    let p = in_points(x, dpi);
    lemma_number_reads_back(p, dec);
    lemma_number_is_quoteless(p, dec);
    reveal_strlit("pt");
    lemma_quoteless_joined(num_text(p, dec), "pt"@);
    let s = num_text(p, dec) + "pt"@;
    assert(s.skip(s.len() - 2) =~= "pt"@);
    assert(s.take(s.len() - 2) =~= num_text(p, dec));
    if dpi.nanos > 0 {
        lemma_scaling_is_nearest(x, 72_000_000_000, dpi.nanos as int);
    }
}

/// What the view of a root says.
proof fn lemma_view_box(size: Size, dec: nat) -> (value: Seq<char>)
    ensures
        value == "0 0 "@ + num_text(size.width, dec) + seq![' '] + num_text(size.height, dec),
        numbers_read(
            value,
            seq![
                (Fixed { nanos: 0 }, dec),
                (Fixed { nanos: 0 }, dec),
                (size.width, dec),
                (size.height, dec),
            ],
        ),
        quoteless(value),
{
    let zero = Fixed { nanos: 0 };
    lemma_zero_is_one_digit(dec);
    let one = seq![(zero, dec)];
    let two = one.push((zero, dec));
    let three = two.push((size.width, dec));
    let four = three.push((size.height, dec));
    let a = num_text(zero, dec);
    let b = a + seq![' '] + num_text(zero, dec);
    let c = b + seq![' '] + num_text(size.width, dec);
    let d = c + seq![' '] + num_text(size.height, dec);
    lemma_numbers_one(zero, dec);
    lemma_numbers_more(a, one, zero, dec);
    lemma_numbers_more(b, two, size.width, dec);
    lemma_numbers_more(c, three, size.height, dec);
    assert(four =~= seq![(zero, dec), (zero, dec), (size.width, dec), (size.height, dec)]);
    assert("0 0 "@ =~= b + seq![' ']) by {
        reveal_strlit("0 0 ");
    }
    lemma_number_is_quoteless(size.width, dec);
    lemma_number_is_quoteless(size.height, dec);
    lemma_number_is_quoteless(zero, dec);
    lemma_quoteless_joined(a, seq![' ']);
    lemma_quoteless_joined(a + seq![' '], num_text(zero, dec));
    lemma_quoteless_joined(b, seq![' ']);
    lemma_quoteless_joined(b + seq![' '], num_text(size.width, dec));
    lemma_quoteless_joined(c, seq![' ']);
    lemma_quoteless_joined(c + seq![' '], num_text(size.height, dec));
    d
}

/// The size of a root as attributes.
#[verifier::spinoff_prover]
#[verifier::rlimit(60)]
proof fn lemma_size_attrs(size: Size, dpi: Fixed, units: SvgUnits, dec: nat) -> (r: (
    Seq<char>,
    Seq<Attr>,
))
    ensures
        root_size_text(size, dpi, units, dec) == seq!['<'] + "svg"@ + r.0,
        lists(r.0, r.1),
        sized(r.1, size, dpi, units, dec),
        says(r.1, "xmlns"@, "http://www.w3.org/2000/svg"@),
        forall|n: Seq<char>|
            n != "xmlns"@ && n != "width"@ && n != "height"@ && n != "viewBox"@ ==> #[trigger] silent(
                r.1,
                n,
            ),
{
    let url = "http://www.w3.org/2000/svg"@;
    let w = root_length_text(size.width, dpi, units, dec);
    let h = root_length_text(size.height, dpi, units, dec);
    lemma_length_reads_back(size.width, dpi, units, dec);
    lemma_length_reads_back(size.height, dpi, units, dec);
    let v = lemma_view_box(size, dec);
    assert(" xmlns=\""@ == seq![' '] + "xmlns"@ + "=\""@ && tidy_name("xmlns"@) && " width=\""@
        == seq![' '] + "width"@ + "=\""@ && tidy_name("width"@) && " height=\""@ == seq![' ']
        + "height"@ + "=\""@ && tidy_name("height"@) && " viewBox=\""@ == seq![' '] + "viewBox"@
        + "=\""@ && tidy_name("viewBox"@)) by {
        lemma_openings();
    }
    assert(quoteless(url)) by {
        reveal_strlit("http://www.w3.org/2000/svg");
    }
    lemma_lists_maybe(true, " xmlns=\""@, "xmlns"@, url);
    lemma_lists_maybe(true, " width=\""@, "width"@, w);
    lemma_lists_maybe(true, " height=\""@, "height"@, h);
    lemma_lists_maybe(true, " viewBox=\""@, "viewBox"@, v);
    let a = maybe(true, "xmlns"@, url);
    let b = maybe(true, "width"@, w);
    let c = maybe(true, "height"@, h);
    let d = maybe(true, "viewBox"@, v);
    let s = " xmlns=\""@ + url + seq!['"'];
    let t = " width=\""@ + w + seq!['"'];
    let u = " height=\""@ + h + seq!['"'];
    let x = " viewBox=\""@ + v + seq!['"'];
    lemma_lists_joined(s, a, t, b);
    lemma_lists_joined(s + t, a + b, u, c);
    lemma_lists_joined(s + t + u, a + b + c, x, d);
    lemma_size_text(size, dec, w, h, v, s, t, u, x);
    let list = a + b + c + d;
    assert(said(list, "xmlns"@) == said(a, "xmlns"@) && said(list, "width"@) == said(b, "width"@)
        && said(list, "height"@) == said(c, "height"@) && said(list, "viewBox"@) == said(
        d,
        "viewBox"@,
    )) by {
        lemma_names();
    }
    (s + t + u + x, list)
}

#[verifier::spinoff_prover]
#[verifier::rlimit(40)]
proof fn lemma_size_text(
    size: Size,
    dec: nat,
    w: Seq<char>,
    h: Seq<char>,
    v: Seq<char>,
    s: Seq<char>,
    t: Seq<char>,
    u: Seq<char>,
    x: Seq<char>,
)
    requires
        v == "0 0 "@ + num_text(size.width, dec) + seq![' '] + num_text(size.height, dec),
        s == " xmlns=\""@ + "http://www.w3.org/2000/svg"@ + seq!['"'],
        t == " width=\""@ + w + seq!['"'],
        u == " height=\""@ + h + seq!['"'],
        x == " viewBox=\""@ + v + seq!['"'],
    ensures
        "<svg xmlns=\"http://www.w3.org/2000/svg\" width=\""@ + w + "\" height=\""@ + h
            + "\" viewBox=\"0 0 "@ + num_text(size.width, dec) + seq![' '] + num_text(
            size.height,
            dec,
        ) + seq!['"'] == seq!['<'] + "svg"@ + (s + t + u + x),
{
    assert("<svg xmlns=\"http://www.w3.org/2000/svg\" width=\""@ =~= seq!['<'] + "svg"@ + (
    " xmlns=\""@ + "http://www.w3.org/2000/svg"@ + seq!['"']) + " width=\""@) by {
        reveal_strlit("<svg xmlns=\"http://www.w3.org/2000/svg\" width=\"");
        reveal_strlit("svg");
        reveal_strlit(" xmlns=\"");
        reveal_strlit("http://www.w3.org/2000/svg");
        reveal_strlit(" width=\"");
    }
    assert("\" height=\""@ =~= seq!['"'] + " height=\""@) by {
        reveal_strlit("\" height=\"");
        reveal_strlit(" height=\"");
    }
    assert("\" viewBox=\"0 0 "@ =~= seq!['"'] + " viewBox=\""@ + "0 0 "@) by {
        reveal_strlit("\" viewBox=\"0 0 ");
        reveal_strlit(" viewBox=\"");
        reveal_strlit("0 0 ");
    }
    let n = num_text(size.width, dec);
    let m = num_text(size.height, dec);
    assert(seq!['<'] + "svg"@ + s + " width=\""@ + w + (seq!['"'] + " height=\""@) + h + (seq!['"']
        + " viewBox=\""@ + "0 0 "@) + n + seq![' '] + m + seq!['"'] =~= seq!['<'] + "svg"@ + (s + (
    " width=\""@ + w + seq!['"']) + (" height=\""@ + h + seq!['"']) + (" viewBox=\""@ + ("0 0 "@ + n
        + seq![' '] + m) + seq!['"'])));
}

/// What a root says of white space, as attributes.
#[verifier::spinoff_prover]
#[verifier::rlimit(40)]
proof fn lemma_style_attrs(root: RootView) -> (r: (Seq<char>, Seq<Attr>))
    ensures
        root_style_text(root) == r.0 + seq!['>'],
        lists(r.0, r.1),
        if root.family is Some {
            says(r.1, "xml:space"@, "preserve"@) && says(
                r.1,
                "style"@,
                "isolation:isolate;white-space:pre"@,
            )
        } else {
            silent(r.1, "xml:space"@) && says(r.1, "style"@, "isolation:isolate"@)
        },
        forall|n: Seq<char>| n != "xml:space"@ && n != "style"@ ==> #[trigger] silent(r.1, n),
{
    let named = root.family is Some;
    assert(" style=\""@ == seq![' '] + "style"@ + "=\""@ && tidy_name("style"@)) by {
        lemma_openings();
    }
    assert(" xml:space=\""@ =~= seq![' '] + "xml:space"@ + "=\""@ && tidy_name("xml:space"@)
        && "xml:space"@ != "style"@ && quoteless("preserve"@) && quoteless("isolation:isolate"@)
        && quoteless("isolation:isolate;white-space:pre"@)) by {
        reveal_strlit(" xml:space=\"");
        reveal_strlit("xml:space");
        reveal_strlit("=\"");
        reveal_strlit("style");
        reveal_strlit("preserve");
        reveal_strlit("isolation:isolate");
        reveal_strlit("isolation:isolate;white-space:pre");
    }
    let css = if named {
        "isolation:isolate;white-space:pre"@
    } else {
        "isolation:isolate"@
    };
    lemma_lists_maybe(named, " xml:space=\""@, "xml:space"@, "preserve"@);
    lemma_lists_maybe(true, " style=\""@, "style"@, css);
    let a = maybe(named, "xml:space"@, "preserve"@);
    let b = maybe(true, "style"@, css);
    let s = if named {
        " xml:space=\""@ + "preserve"@ + seq!['"']
    } else {
        seq![]
    };
    let t = " style=\""@ + css + seq!['"'];
    lemma_lists_joined(s, a, t, b);
    assert(root_style_text(root) =~= s + t + seq!['>']) by {
        reveal_strlit(" xml:space=\"");
        reveal_strlit("preserve");
        reveal_strlit(" style=\"");
        reveal_strlit("isolation:isolate");
        reveal_strlit("isolation:isolate;white-space:pre");
        reveal_strlit(" xml:space=\"preserve\" style=\"isolation:isolate;white-space:pre\">");
        reveal_strlit(" style=\"isolation:isolate\">");
    }
    (s + t, a + b)
}

/// The root is a tag that is as large as the scene and names the face that its
/// text falls back to.
#[verifier::spinoff_prover]
#[verifier::rlimit(60)]
pub proof fn lemma_root_says_its_size(v: SceneView) -> (list: Seq<Attr>)
    ensures
        is_tag(v.root_open_text(), "svg"@, list, seq!['>']),
        sized(list, v.size, v.dpi, v.config.units, v.config.decimals),
        faced(list, v.final_root(), v.config.decimals),
{
    let dec = v.config.decimals;
    let root = v.final_root();
    let (s, a) = lemma_size_attrs(v.size, v.dpi, v.config.units, dec);
    assert(" font-family=\""@ == seq![' '] + "font-family"@ + "=\""@ && tidy_name("font-family"@)
        && " font-size=\""@ == seq![' '] + "font-size"@ + "=\""@ && tidy_name("font-size"@)) by {
        lemma_openings();
    }
    let b = lemma_text_attrs(" font-family=\""@, "font-family"@, root.family);
    let t = root_family_text(root);
    let size = match root.size {
        Some(size) => size,
        None => Fixed { nanos: 0 },
    };
    let c = lemma_number_attrs(root.size is Some, " font-size=\""@, "font-size"@, size, dec);
    let u = root_font_size_text(root, dec);
    let (x, d) = lemma_style_attrs(root);
    lemma_lists_joined(s, a, t, b);
    lemma_lists_joined(s + t, a + b, u, c);
    lemma_lists_joined(s + t + u, a + b + c, x, d);
    let list = a + b + c + d;
    let name = seq!['<'] + "svg"@;
    lemma_append(name, s, t);
    lemma_append(name, s + t, u);
    assert(name + (s + t + u) + (x + seq!['>']) =~= name + (s + t + u + x) + seq!['>']);
    assert(lists(s + t + u + x, list));
    assert(said(list, "xmlns"@) == said(a, "xmlns"@) && said(list, "width"@) == said(a, "width"@)
        && said(list, "height"@) == said(a, "height"@) && said(list, "viewBox"@) == said(
        a,
        "viewBox"@,
    ) && said(list, "font-family"@) == said(b, "font-family"@) && said(list, "font-size"@) == said(
        c,
        "font-size"@,
    ) && said(list, "style"@) == said(d, "style"@) && said(list, "xml:space"@) == said(
        d,
        "xml:space"@,
    )) by {
        lemma_names();
        reveal_strlit("xml:space");
        reveal_strlit("font-size");
        assert("xml:space"@[0] != "font-size"@[0]);
    }
    list
}

/// The background is a rectangle as large as the scene, in its color.
#[verifier::spinoff_prover]
#[verifier::rlimit(60)]
pub proof fn lemma_background_covers_the_scene(color: Option<Color>, size: Size, dec: nat)
    ensures
        backed(background_text(color, size, dec), color, size, dec),
{
    if let Some(c) = color {
        let p = solid_paint(c);
        lemma_color_reads_back(c);
        assert(" width=\""@ == seq![' '] + "width"@ + "=\""@ && tidy_name("width"@)
            && " height=\""@ == seq![' '] + "height"@ + "=\""@ && tidy_name("height"@)
            && " fill=\""@ == seq![' '] + "fill"@ + "=\""@ && tidy_name("fill"@)
            && " fill-opacity=\""@ == seq![' '] + "fill-opacity"@ + "=\""@ && tidy_name(
            "fill-opacity"@,
        )) by {
            lemma_openings();
        }
        let a = lemma_number_attrs(true, " width=\""@, "width"@, size.width, dec);
        let b = lemma_number_attrs(true, " height=\""@, "height"@, size.height, dec);
        lemma_lists_maybe(true, " fill=\""@, "fill"@, p.value);
        let e = maybe(true, "fill"@, p.value);
        let f = lemma_opacity_attrs(" fill-opacity=\""@, "fill-opacity"@, p.opacity, 3);
        let s = " width=\""@ + num_text(size.width, dec) + seq!['"'];
        let t = " height=\""@ + num_text(size.height, dec) + seq!['"'];
        let u = " fill=\""@ + p.value + seq!['"'];
        let x = opacity_text(" fill-opacity=\""@, p.opacity, 3);
        lemma_lists_joined(s, a, t, b);
        lemma_lists_joined(s + t, a + b, u, e);
        lemma_lists_joined(s + t + u, a + b + e, x, f);
        let list = a + b + e + f;
        assert("<rect width=\""@ =~= seq!['<'] + "rect"@ + " width=\""@) by {
            reveal_strlit("<rect width=\"");
            reveal_strlit("rect");
            reveal_strlit(" width=\"");
        }
        assert("\" height=\""@ =~= seq!['"'] + " height=\""@ && "\" fill=\""@ =~= seq!['"']
            + " fill=\""@) by {
            reveal_strlit("\" height=\"");
            reveal_strlit(" height=\"");
            reveal_strlit("\" fill=\"");
            reveal_strlit(" fill=\"");
        }
        let w = num_text(size.width, dec);
        let h = num_text(size.height, dec);
        assert(seq!['<'] + "rect"@ + " width=\""@ + w + (seq!['"'] + " height=\""@) + h + (seq!['"']
            + " fill=\""@) + p.value + seq!['"'] + x + "/>"@ =~= seq!['<'] + "rect"@ + (s + t + u
            + x) + "/>"@);
        assert(lists(s + t + u + x, list));
        assert(is_tag(background_text(color, size, dec), "rect"@, list, "/>"@));
        assert(said(list, "width"@) == said(a, "width"@) && said(list, "height"@) == said(
            b,
            "height"@,
        ) && said(list, "fill"@) == said(e, "fill"@) && said(list, "fill-opacity"@) == said(
            f,
            "fill-opacity"@,
        )) by {
            lemma_names();
        }
    }
}

proof fn lemma_def_among(defs: Seq<DefView>, n: nat, i: int) -> (around: (Seq<char>, Seq<char>))
    requires
        0 <= i < n <= defs.len(),
    ensures
        def_list_text(defs, n) == around.0 + def_text(defs[i]) + around.1,
    decreases n,
{
    let m = (n - 1) as nat;
    let last = def_text(defs[m as int]);
    if i == m {
        lemma_append_nothing(def_list_text(defs, m) + last);
        (def_list_text(defs, m), seq![])
    } else {
        let around = lemma_def_among(defs, m, i);
        lemma_append(around.0 + def_text(defs[i]), around.1, last);
        (around.0, around.1 + last)
    }
}

/// Everything that was defined is defined once, under its id, by an element of
/// its kind.
pub proof fn lemma_definitions_are_listed(v: SceneView, i: int)
    requires
        0 <= i < v.defs.len(),
    ensures
        defines(defs_text(v.defs, stylesheet_text(v.fonts, v.config.embed_fonts)), v.defs[i]),
{
    let d = v.defs[i];
    let css = style_text(stylesheet_text(v.fonts, v.config.embed_fonts));
    let around = lemma_def_among(v.defs, v.defs.len(), i);
    reveal_strlit("clipPath");
    reveal_strlit("linearGradient");
    reveal_strlit("radialGradient");
    reveal_strlit("image");
    reveal_strlit(" id=\"");
    reveal_strlit("<clipPath id=\"");
    reveal_strlit("<linearGradient id=\"");
    reveal_strlit("<radialGradient id=\"");
    reveal_strlit("<image id=\"");
    assert(defining(d.kind) =~= seq!['<'] + super::paint::kind_element(d.kind) + " id=\""@);
    let a = css + around.0;
    let own = defining(d.kind) + d.id + seq!['"'] + d.rest;
    assert(def_text(d) =~= own);
    assert("<defs>"@ + css + (around.0 + own + around.1) + "</defs>"@ =~= "<defs>"@ + (a + own
        + around.1) + "</defs>"@);
}

proof fn lemma_rule_among(rules: Seq<Seq<char>>, n: nat, i: int) -> (around: (
    Seq<char>,
    Seq<char>,
))
    requires
        0 <= i < n <= rules.len(),
    ensures
        rules_text(rules, n) == around.0 + rules[i] + around.1,
    decreases n,
{
    let m = (n - 1) as nat;
    let last = rules[m as int];
    if i == m {
        lemma_append_nothing(rules_text(rules, m) + last);
        (rules_text(rules, m), seq![])
    } else {
        let around = lemma_rule_among(rules, m, i);
        lemma_append(around.0 + rules[i], around.1, last);
        (around.0, around.1 + last)
    }
}

/// With faces inlined, the rule of every face that was used is in the
/// stylesheet.
pub proof fn lemma_faces_are_listed(v: SceneView, i: int)
    requires
        v.config.embed_fonts,
        0 <= i < v.fonts.len(),
    ensures
        styles(defs_text(v.defs, stylesheet_text(v.fonts, v.config.embed_fonts)), v.fonts[i]),
{
    let around = lemma_rule_among(v.fonts, v.fonts.len(), i);
    let rest = def_list_text(v.defs, v.defs.len());
    let open = "<style><![CDATA["@;
    let close = "]]></style>"@;
    let b = around.1 + close + rest;
    let rule = v.fonts[i];
    assert("<defs><style><![CDATA["@ =~= "<defs>"@ + open) by {
        reveal_strlit("<defs><style><![CDATA[");
        reveal_strlit("<defs>");
        reveal_strlit("<style><![CDATA[");
    }
    assert("<defs>"@ + (open + (around.0 + rule + around.1) + close) + rest + "</defs>"@
        =~= "<defs>"@ + open + (around.0 + rule + b) + "</defs>"@);
}

/// A document is its root's tag, its definitions if it has any, its background,
/// everything drawn, the end of what is still open, and the end of the root.
pub proof fn lemma_document_is_in_order(v: SceneView)
    ensures
        exists|root: Seq<char>, list: Seq<Attr>, defs: Seq<char>, back: Seq<char>|
            #![trigger is_tag(root, "svg"@, list, seq!['>']), defs + back]
            {
                &&& v.document() == root + (defs + back) + drawn(v) + ends(v.groups.len())
                    + "</svg>"@
                &&& is_tag(root, "svg"@, list, seq!['>'])
                &&& sized(list, v.size, v.dpi, v.config.units, v.config.decimals)
                &&& faced(list, v.final_root(), v.config.decimals)
                &&& backed(back, v.config.background, v.size, v.config.decimals)
                &&& forall|i: int| 0 <= i < v.defs.len() ==> defines(defs, #[trigger] v.defs[i])
                &&& forall|i: int|
                    v.config.embed_fonts && 0 <= i < v.fonts.len() ==> styles(
                        defs,
                        #[trigger] v.fonts[i],
                    )
                &&& v.defs.len() == 0 && (!v.config.embed_fonts || v.fonts.len() == 0)
                    ==> defs.len() == 0
            },
{
    let root = v.root_open_text();
    let list = lemma_root_says_its_size(v);
    let defs = defs_text(v.defs, stylesheet_text(v.fonts, v.config.embed_fonts));
    let back = background_text(v.config.background, v.size, v.config.decimals);
    lemma_background_covers_the_scene(v.config.background, v.size, v.config.decimals);
    assert forall|i: int| 0 <= i < v.defs.len() implies defines(defs, #[trigger] v.defs[i]) by {
        lemma_definitions_are_listed(v, i);
    }
    assert forall|i: int| v.config.embed_fonts && 0 <= i < v.fonts.len() implies styles(
        defs,
        #[trigger] v.fonts[i],
    ) by {
        lemma_faces_are_listed(v, i);
    }
    lemma_ends(v.groups.len());
    lemma_in_order(
        root,
        defs,
        back,
        v.body,
        v.prelude,
        v.held_block_text(),
        v.held_fill_text(),
    );
    assert(is_tag(root, "svg"@, list, seq!['>']));
    let both = defs + back;
}

proof fn lemma_in_order(
    root: Seq<char>,
    defs: Seq<char>,
    back: Seq<char>,
    body: Seq<char>,
    prelude: Seq<char>,
    block: Seq<char>,
    fill: Seq<char>,
)
    ensures
        root + defs + back + body + prelude + block + fill == root + (defs + back) + (body + prelude
            + block + fill),
{
    assert(root + defs + back + body + prelude + block + fill =~= root + (defs + back) + (body
        + prelude + block + fill));
}

/// True when exactly these are reported beside what was: `first` and `second`,
/// where there are any.
pub open spec fn reports_also(
    before: Seq<SvgWarning>,
    first: Option<SvgWarning>,
    second: Option<SvgWarning>,
    after: Seq<SvgWarning>,
) -> bool {
    forall|w: SvgWarning| #[trigger]
        after.contains(w) <==> before.contains(w) || first == Some(w) || second == Some(w)
}

proof fn lemma_noted(before: Seq<SvgWarning>, w: SvgWarning)
    ensures
        forall|x: SvgWarning| #[trigger]
            noted(before, w).contains(x) <==> before.contains(x) || x == w,
{
    let after = noted(before, w);
    assert forall|x: SvgWarning| before.contains(x) || x == w implies #[trigger] after.contains(
        x,
    ) by {
        if before.contains(x) {
            let i = choose|i: int| 0 <= i < before.len() && before[i] == x;
            assert(after[i] == x);
        } else {
            assert(after[before.len() as int] == x);
        }
    }
    assert forall|x: SvgWarning| #[trigger] after.contains(x) implies before.contains(x) || x
        == w by {
        let i = choose|i: int| 0 <= i < after.len() && after[i] == x;
        if i < before.len() {
            assert(before[i] == x);
        }
    }
}

/// What a stroke loses is reported: what its brush cannot be drawn as, and ends
/// that are not alike. Nothing else is.
pub proof fn lemma_stroke_losses_are_reported(
    v: SceneView,
    stroke: Stroke,
    transform: Affine,
    brush: Brush,
    path: Seq<PathEl>,
    pick: PickId,
)
    requires
        path.len() > 0,
    ensures
        reports_also(
            v.warnings,
            brush.warning,
            if stroke.start_cap == stroke.end_cap {
                None
            } else {
                Some(SvgWarning::AsymmetricCaps)
            },
            v.stroked(stroke, transform, brush, path, pick).warnings,
        ),
{
    lemma_brush_losses(v.warnings, brush);
    lemma_noted(super::paint::brush_warnings(v.warnings, brush), SvgWarning::AsymmetricCaps);
}

proof fn lemma_brush_losses(before: Seq<SvgWarning>, brush: Brush)
    ensures
        reports_also(before, brush.warning, None, super::paint::brush_warnings(before, brush)),
{
    if let Some(w) = brush.warning {
        lemma_noted(before, w);
    }
}

/// What a fill loses is reported: what its brush cannot be drawn as. Nothing
/// else is, and nothing is of a fill that is taken for a decoration of text.
pub proof fn lemma_fill_losses_are_reported(
    v: SceneView,
    rule: FillRule,
    transform: Affine,
    brush: Brush,
    path: Seq<PathEl>,
    pick: PickId,
)
    requires
        path.len() > 0,
        v.block.runs.len() == 0 || rect_of(path, transform) is None || !claims(
            v.block.runs,
            rect_of(path, transform)->0,
        ),
    ensures
        reports_also(
            v.warnings,
            brush.warning,
            None,
            v.filled(rule, transform, brush, path, pick).warnings,
        ),
{
    reveal(SceneView::filled);
    lemma_brush_losses(v.warnings, brush);
}

/// What text loses is reported: what its brush cannot be drawn as, and, with
/// faces inlined, a face that cannot be. Nothing else is.
pub proof fn lemma_text_losses_are_reported(v: SceneView, run: GlyphRun, pick: PickId)
    requires
        run.source is Some,
        v.config.text == TextMode::Text,
        run.glyphs@.len() > 0,
    ensures
        reports_also(
            v.warnings,
            run.brush.warning,
            if v.config.embed_fonts && run.face.rule is None {
                Some(SvgWarning::FontNotEmbeddable)
            } else {
                None
            },
            v.glyphs_drawn(run, pick).warnings,
        ),
{
    let after = v.glyphs_drawn(run, pick);
    let painted = super::paint::brush_warnings(v.warnings, run.brush);
    lemma_brush_losses(v.warnings, run.brush);
    lemma_noted(painted, SvgWarning::FontNotEmbeddable);
    assert(after.warnings == if v.config.embed_fonts && run.face.rule is None {
        noted(painted, SvgWarning::FontNotEmbeddable)
    } else {
        painted
    });
}

/// What a layer loses is reported: a way of being composed that is not the plain
/// one. Nothing else is.
pub proof fn lemma_layer_losses_are_reported(
    v: SceneView,
    blend: BlendMode,
    alpha: Fixed,
    transform: Affine,
    clip: Seq<PathEl>,
)
    ensures
        reports_also(
            v.warnings,
            if blend.compose == Compose::SrcOver {
                None
            } else {
                Some(SvgWarning::UnsupportedCompose)
            },
            None,
            v.layer_pushed(blend, alpha, transform, clip).warnings,
        ),
{
    lemma_noted(v.warnings, SvgWarning::UnsupportedCompose);
}

} // verus!
