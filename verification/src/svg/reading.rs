//! What a document says, read back from its text: tags and their attributes,
//! numbers, path data, matrices, colors and escaped text.
//!
//! Nothing here is written in terms of how a document is written, so that what
//! is shown of a document with it is what any reader would find.

use vstd::prelude::*;

use super::refs::{at, quoteless};
use super::writer::{
    attr_char, attr_text, content_char, content_text, path_text, point_text, step_text, steps_text,
    transform_text,
};
use crate::color::{channel_byte, hex_digit, solid_paint, Color};
use crate::fixed::{num_text, round_div, Fixed, ONE};
use crate::geometry::{identity, Affine, PathEl, Point};
use crate::numeral::{last_place, lemma_number_reads_back, writes};
use crate::text::lemma_append;

verus! {

/// One attribute of a tag.
#[verifier::ext_equal]
pub struct Attr {
    pub name: Seq<char>,
    pub value: Seq<char>,
}

/// True for the name of an attribute: nothing in it ends it.
pub open spec fn tidy_name(s: Seq<char>) -> bool {
    s.len() > 0 && forall|i: int|
        0 <= i < s.len() ==> #[trigger] s[i] != ' ' && s[i] != '"' && s[i] != '=' && s[i] != '<'
            && s[i] != '>'
}

/// Attributes as a tag lists them: each after a space, with its value in
/// quotes.
pub open spec fn spelled(list: Seq<Attr>) -> Seq<char>
    decreases list.len(),
{
    if list.len() == 0 {
        seq![]
    } else {
        spelled(list.drop_last()) + (seq![' '] + list.last().name + "=\""@ + list.last().value
            + seq!['"'])
    }
}

/// True when `s` lists these attributes, in a way that can be read but once.
pub open spec fn lists(s: Seq<char>, list: Seq<Attr>) -> bool {
    &&& s == spelled(list)
    &&& forall|i: int|
        0 <= i < list.len() ==> tidy_name((#[trigger] list[i]).name) && quoteless(list[i].value)
}

/// True when `s` is a tag of this name with these attributes, ended by `end`.
pub open spec fn is_tag(s: Seq<char>, name: Seq<char>, list: Seq<Attr>, end: Seq<char>) -> bool {
    exists|attrs: Seq<char>| #[trigger]
        lists(attrs, list) && s == seq!['<'] + name + attrs + end
}

/// Every value that is given under a name.
pub open spec fn said(list: Seq<Attr>, name: Seq<char>) -> Seq<Seq<char>>
    decreases list.len(),
{
    if list.len() == 0 {
        seq![]
    } else {
        said(list.drop_last(), name) + if list.last().name == name {
            seq![list.last().value]
        } else {
            seq![]
        }
    }
}

/// True when nothing is given under a name.
pub open spec fn silent(list: Seq<Attr>, name: Seq<char>) -> bool {
    said(list, name).len() == 0
}

/// True when exactly this is given under a name.
pub open spec fn says(list: Seq<Attr>, name: Seq<char>, value: Seq<char>) -> bool {
    said(list, name).len() == 1 && said(list, name)[0] == value
}

/// True when exactly `x`, to `decimals` places, is given under a name.
pub open spec fn says_number(list: Seq<Attr>, name: Seq<char>, x: Fixed, decimals: nat) -> bool {
    said(list, name).len() == 1 && writes(said(list, name)[0], x, decimals)
}

/// True when `s` is these numbers, each to its own number of places, with a
/// space between each two.
#[verifier::opaque]
pub open spec fn numbers_read(s: Seq<char>, xs: Seq<(Fixed, nat)>) -> bool
    decreases xs.len(),
{
    if xs.len() == 0 {
        s.len() == 0
    } else if xs.len() == 1 {
        writes(s, xs[0].0, xs[0].1)
    } else {
        exists|k: int|
            0 <= k < s.len() && #[trigger] s[k] == ' ' && numbers_read(s.take(k), xs.drop_last())
                && writes(s.skip(k + 1), xs.last().0, xs.last().1)
    }
}

/// True when `s` is one step of a path, its coordinates to `dec` places: the
/// letter of the step, and each of its points across and then down.
pub open spec fn step_reads(s: Seq<char>, el: PathEl, dec: nat) -> bool {
    s.len() > 0 && match el {
        PathEl::MoveTo(p) => s[0] == 'M' && numbers_read(s.skip(1), seq![(p.x, dec), (p.y, dec)]),
        PathEl::LineTo(p) => s[0] == 'L' && numbers_read(s.skip(1), seq![(p.x, dec), (p.y, dec)]),
        PathEl::QuadTo(a, p) => s[0] == 'Q' && numbers_read(
            s.skip(1),
            seq![(a.x, dec), (a.y, dec), (p.x, dec), (p.y, dec)],
        ),
        PathEl::CurveTo(a, b, p) => s[0] == 'C' && numbers_read(
            s.skip(1),
            seq![(a.x, dec), (a.y, dec), (b.x, dec), (b.y, dec), (p.x, dec), (p.y, dec)],
        ),
        PathEl::ClosePath => s == seq!['Z'],
    }
}

/// True when `d` is a path as path data, its coordinates to `dec` places: its
/// steps one after another.
pub open spec fn path_reads(d: Seq<char>, path: Seq<PathEl>, dec: nat) -> bool
    decreases path.len(),
{
    if path.len() == 0 {
        d.len() == 0
    } else {
        exists|k: int|
            0 <= k <= d.len() && path_reads(d.take(k), path.drop_last(), dec)
                && #[trigger] step_reads(d.skip(k), path.last(), dec)
    }
}

/// The larger of two counts.
pub open spec fn at_least(n: nat, least: nat) -> nat {
    if n < least {
        least
    } else {
        n
    }
}

/// True when a map leaves every point where it is.
pub open spec fn stays(t: Affine) -> bool {
    &&& t.xx.nanos == 1_000_000_000 && t.yy.nanos == 1_000_000_000
    &&& t.yx.nanos == 0 && t.xy.nanos == 0 && t.dx.nanos == 0 && t.dy.nanos == 0
}

/// True when `v` is a map as a matrix, by columns: what it makes of a step
/// across, of a step down, and where it takes the origin. The columns of the
/// steps are to six places at least.
#[verifier::opaque]
pub open spec fn matrix_reads(v: Seq<char>, t: Affine, dec: nat) -> bool {
    let lin = at_least(dec, 6);
    &&& v.len() > 8 && v.take(7) == "matrix("@ && v.last() == ')'
    &&& numbers_read(
        v.subrange(7, v.len() - 1),
        seq![(t.xx, lin), (t.yx, lin), (t.xy, lin), (t.yy, lin), (t.dx, dec), (t.dy, dec)],
    )
}

/// True when a tag is drawn under a map: it says the map, unless that leaves
/// every point where it is.
pub open spec fn moved_by(list: Seq<Attr>, t: Affine, dec: nat) -> bool {
    if stays(t) {
        silent(list, "transform"@)
    } else {
        said(list, "transform"@).len() == 1 && matrix_reads(said(list, "transform"@)[0], t, dec)
    }
}

/// What a hexadecimal digit is worth.
pub open spec fn hex_worth(c: char) -> int {
    if '0' <= c <= '9' {
        c as u32 - 48
    } else if 'a' <= c <= 'f' {
        c as u32 - 87
    } else {
        -1
    }
}

/// True when two hexadecimal digits are a channel in 255ths: the nearest, or
/// the end of the range for a channel beyond it.
pub open spec fn channel_reads(high: char, low: char, channel: Fixed) -> bool {
    let b = 16 * hex_worth(high) + hex_worth(low);
    &&& hex_worth(high) >= 0 && hex_worth(low) >= 0
    &&& channel.nanos <= 0 ==> b == 0
    &&& channel.nanos >= 1_000_000_000 ==> b == 255
    &&& 0 <= channel.nanos <= 1_000_000_000 ==> -1_000_000_000 <= 2 * (b * 1_000_000_000
        - channel.nanos * 255) <= 1_000_000_000
}

/// True when `v` is a color without its alpha: a number sign, and red, green
/// and blue in hexadecimal.
pub open spec fn color_reads(v: Seq<char>, red: Fixed, green: Fixed, blue: Fixed) -> bool {
    &&& v.len() == 7
    &&& v[0] == '#'
    &&& channel_reads(v[1], v[2], red)
    &&& channel_reads(v[3], v[4], green)
    &&& channel_reads(v[5], v[6], blue)
}

/// Escaped text as a reader takes it.
pub open spec fn unescaped(s: Seq<char>) -> Seq<char>
    decreases s.len(),
{
    if s.len() == 0 {
        seq![]
    } else if s.len() >= 5 && at(s, 0, seq!['&', 'a', 'm', 'p', ';']) {
        seq!['&'] + unescaped(s.skip(5))
    } else if s.len() >= 4 && at(s, 0, seq!['&', 'l', 't', ';']) {
        seq!['<'] + unescaped(s.skip(4))
    } else if s.len() >= 4 && at(s, 0, seq!['&', 'g', 't', ';']) {
        seq!['>'] + unescaped(s.skip(4))
    } else if s.len() >= 6 && at(s, 0, seq!['&', 'q', 'u', 'o', 't', ';']) {
        seq!['"'] + unescaped(s.skip(6))
    } else {
        seq![s[0]] + unescaped(s.skip(1))
    }
}

/// Listing two lists one after the other is listing both.
pub proof fn lemma_lists_joined(s: Seq<char>, a: Seq<Attr>, t: Seq<char>, b: Seq<Attr>)
    requires
        lists(s, a),
        lists(t, b),
    ensures
        lists(s + t, a + b),
        forall|n: Seq<char>| #[trigger] said(a + b, n) == said(a, n) + said(b, n),
        forall|n: Seq<char>| silent(b, n) ==> #[trigger] said(a + b, n) == said(a, n),
        forall|n: Seq<char>| silent(a, n) ==> #[trigger] said(a + b, n) == said(b, n),
{
    let c = a + b;
    lemma_spelled_joined(a, b);
    assert forall|i: int| 0 <= i < c.len() implies tidy_name((#[trigger] c[i]).name) && quoteless(
        c[i].value,
    ) by {
        if i < a.len() {
            assert(c[i] == a[i]);
        } else {
            assert(c[i] == b[i - a.len()]);
        }
    }
    assert forall|n: Seq<char>| #[trigger] said(c, n) == said(a, n) + said(b, n) by {
        lemma_said_joined(a, b, n);
    }
    assert forall|n: Seq<char>| silent(b, n) implies #[trigger] said(c, n) == said(a, n) by {
        assert(said(c, n) =~= said(a, n));
    }
    assert forall|n: Seq<char>| silent(a, n) implies #[trigger] said(c, n) == said(b, n) by {
        assert(said(c, n) =~= said(b, n));
    }
}

proof fn lemma_spelled_joined(a: Seq<Attr>, b: Seq<Attr>)
    ensures
        spelled(a + b) == spelled(a) + spelled(b),
    decreases b.len(),
{
    if b.len() == 0 {
        assert(a + b =~= a);
        assert(spelled(a) + spelled(b) =~= spelled(a));
    } else {
        assert((a + b).drop_last() =~= a + b.drop_last());
        assert((a + b).last() == b.last());
        lemma_spelled_joined(a, b.drop_last());
        assert(spelled(a + b) =~= spelled(a) + spelled(b));
    }
}

proof fn lemma_said_joined(a: Seq<Attr>, b: Seq<Attr>, n: Seq<char>)
    ensures
        said(a + b, n) == said(a, n) + said(b, n),
    decreases b.len(),
{
    if b.len() == 0 {
        assert(a + b =~= a);
        assert(said(a, n) + said(b, n) =~= said(a, n));
    } else {
        assert((a + b).drop_last() =~= a + b.drop_last());
        assert((a + b).last() == b.last());
        lemma_said_joined(a, b.drop_last(), n);
        assert(said(a + b, n) =~= said(a, n) + said(b, n));
    }
}

/// No attributes.
pub proof fn lemma_lists_nothing()
    ensures
        lists(seq![], seq![]),
        forall|n: Seq<char>| #[trigger] said(seq![], n) == Seq::<Seq<char>>::empty(),
{
}

/// One attribute.
pub proof fn lemma_lists_one(name: Seq<char>, value: Seq<char>)
    requires
        tidy_name(name),
        quoteless(value),
    ensures
        lists(
            seq![' '] + name + "=\""@ + value + seq!['"'],
            seq![Attr { name, value }],
        ),
        forall|n: Seq<char>| #[trigger]
            said(seq![Attr { name, value }], n) == if n == name {
                seq![value]
            } else {
                seq![]
            },
{
    reveal_with_fuel(spelled, 2);
    reveal_with_fuel(said, 2);
    let one = seq![Attr { name, value }];
    assert(one.drop_last() =~= Seq::<Attr>::empty());
    assert(spelled(one) =~= seq![' '] + name + "=\""@ + value + seq!['"']);
    assert forall|n: Seq<char>| #[trigger] said(one, n) == if n == name {
        seq![value]
    } else {
        seq![]
    } by {
        assert(said(one.drop_last(), n) =~= seq![]);
        assert(said(one, n) =~= if n == name {
            seq![value]
        } else {
            seq![]
        });
    }
}

/// One attribute, if it is wanted.
pub open spec fn maybe(wanted: bool, name: Seq<char>, value: Seq<char>) -> Seq<Attr> {
    if wanted {
        seq![Attr { name, value }]
    } else {
        seq![]
    }
}

/// One attribute, if it is wanted, after what opens its value.
pub proof fn lemma_lists_maybe(
    wanted: bool,
    opening: Seq<char>,
    name: Seq<char>,
    value: Seq<char>,
)
    requires
        tidy_name(name),
        opening == seq![' '] + name + "=\""@,
        wanted ==> quoteless(value),
    ensures
        lists(
            if wanted {
                opening + value + seq!['"']
            } else {
                seq![]
            },
            maybe(wanted, name, value),
        ),
        forall|n: Seq<char>| #[trigger]
            said(maybe(wanted, name, value), n) == if wanted && n == name {
                seq![value]
            } else {
                seq![]
            },
{
    lemma_lists_nothing();
    if wanted {
        lemma_lists_one(name, value);
    }
}

/// One more number after others.
pub proof fn lemma_numbers_more(s: Seq<char>, xs: Seq<(Fixed, nat)>, x: Fixed, dec: nat)
    requires
        xs.len() > 0,
        numbers_read(s, xs),
    ensures
        numbers_read(s + seq![' '] + num_text(x, dec), xs.push((x, dec))),
{
    reveal(numbers_read);
    lemma_number_reads_back(x, dec);
    let t = s + seq![' '] + num_text(x, dec);
    let ys = xs.push((x, dec));
    let k = s.len() as int;
    assert(t[k] == ' ');
    assert(t.take(k) =~= s);
    assert(t.skip(k + 1) =~= num_text(x, dec));
    assert(ys.drop_last() =~= xs);
}

/// The first number.
pub proof fn lemma_numbers_one(x: Fixed, dec: nat)
    ensures
        numbers_read(num_text(x, dec), seq![(x, dec)]),
{
    reveal(numbers_read);
    lemma_number_reads_back(x, dec);
}

proof fn lemma_two(a: Fixed, b: Fixed, i: nat, j: nat)
    ensures
        numbers_read(num_text(a, i) + seq![' '] + num_text(b, j), seq![(a, i), (b, j)]),
{
    lemma_numbers_one(a, i);
    lemma_numbers_more(num_text(a, i), seq![(a, i)], b, j);
    assert(seq![(a, i)].push((b, j)) =~= seq![(a, i), (b, j)]);
}

proof fn lemma_four(a: Point, b: Point, dec: nat)
    ensures
        numbers_read(
            point_text(a, dec) + seq![' '] + point_text(b, dec),
            seq![(a.x, dec), (a.y, dec), (b.x, dec), (b.y, dec)],
        ),
{
    lemma_two(a.x, a.y, dec, dec);
    let two = seq![(a.x, dec), (a.y, dec)];
    lemma_numbers_more(point_text(a, dec), two, b.x, dec);
    let s = point_text(a, dec) + seq![' '] + num_text(b.x, dec);
    lemma_numbers_more(s, two.push((b.x, dec)), b.y, dec);
    assert(two.push((b.x, dec)).push((b.y, dec)) =~= seq![
        (a.x, dec),
        (a.y, dec),
        (b.x, dec),
        (b.y, dec),
    ]);
    assert(s + seq![' '] + num_text(b.y, dec) =~= point_text(a, dec) + seq![' '] + point_text(
        b,
        dec,
    ));
}

proof fn lemma_six(a: Point, b: Point, p: Point, dec: nat)
    ensures
        numbers_read(
            point_text(a, dec) + seq![' '] + point_text(b, dec) + seq![' '] + point_text(p, dec),
            seq![(a.x, dec), (a.y, dec), (b.x, dec), (b.y, dec), (p.x, dec), (p.y, dec)],
        ),
{
    lemma_four(a, b, dec);
    let four = seq![(a.x, dec), (a.y, dec), (b.x, dec), (b.y, dec)];
    let t = point_text(a, dec) + seq![' '] + point_text(b, dec);
    lemma_numbers_more(t, four, p.x, dec);
    let u = t + seq![' '] + num_text(p.x, dec);
    lemma_numbers_more(u, four.push((p.x, dec)), p.y, dec);
    assert(four.push((p.x, dec)).push((p.y, dec)) =~= seq![
        (a.x, dec),
        (a.y, dec),
        (b.x, dec),
        (b.y, dec),
        (p.x, dec),
        (p.y, dec),
    ]);
    lemma_append(t + seq![' '], num_text(p.x, dec), seq![' ']);
    lemma_append(t + seq![' '], num_text(p.x, dec) + seq![' '], num_text(p.y, dec));
}

/// A step of path data reads back as the step.
#[verifier::spinoff_prover]
#[verifier::rlimit(40)]
pub proof fn lemma_step_reads_back(el: PathEl, dec: nat)
    ensures
        step_reads(step_text(el, dec), el, dec),
{
    let s = step_text(el, dec);
    match el {
        PathEl::MoveTo(p) => {
            lemma_two(p.x, p.y, dec, dec);
            assert(s.skip(1) =~= point_text(p, dec));
        },
        PathEl::LineTo(p) => {
            lemma_two(p.x, p.y, dec, dec);
            assert(s.skip(1) =~= point_text(p, dec));
        },
        PathEl::QuadTo(a, p) => {
            lemma_four(a, p, dec);
            assert(s.skip(1) =~= point_text(a, dec) + seq![' '] + point_text(p, dec));
        },
        PathEl::CurveTo(a, b, p) => {
            lemma_six(a, b, p, dec);
            assert(s.skip(1) =~= point_text(a, dec) + seq![' '] + point_text(b, dec) + seq![' ']
                + point_text(p, dec));
        },
        PathEl::ClosePath => {},
    }
}

/// Two texts without quotes make one.
pub proof fn lemma_quoteless_joined(a: Seq<char>, b: Seq<char>)
    requires
        quoteless(a),
        quoteless(b),
    ensures
        quoteless(a + b),
{
    let c = a + b;
    assert forall|i: int| 0 <= i < c.len() implies #[trigger] c[i] != '"' by {
        if i < a.len() {
            assert(c[i] == a[i]);
        } else {
            assert(c[i] == b[i - a.len()]);
        }
    }
}

/// A number has no quotes.
pub proof fn lemma_number_is_quoteless(x: Fixed, dec: nat)
    ensures
        quoteless(num_text(x, dec)),
{
    super::markup::lemma_number_is_quiet(x, dec);
}

proof fn lemma_steps_read_back(path: Seq<PathEl>, n: nat, dec: nat)
    requires
        n <= path.len(),
    ensures
        path_reads(steps_text(path, n, dec), path.take(n as int), dec),
    decreases n,
{
    let steps = path.take(n as int);
    if n > 0 {
        let m = (n - 1) as nat;
        lemma_steps_read_back(path, m, dec);
        lemma_step_reads_back(path[m as int], dec);
        let before = steps_text(path, m, dec);
        let d = steps_text(path, n, dec);
        let k = before.len() as int;
        assert(d.take(k) =~= before);
        assert(d.skip(k) =~= step_text(path[m as int], dec));
        assert(steps.drop_last() =~= path.take(m as int));
        assert(path_reads(d.take(k), steps.drop_last(), dec));
        assert(step_reads(d.skip(k), steps.last(), dec));
    }
}

/// Path data reads back as the path it was written for: the same steps in the
/// same order, through the same points to the places kept.
pub proof fn lemma_path_reads_back(path: Seq<PathEl>, dec: nat)
    ensures
        path_reads(path_text(path, dec), path, dec),
{
    lemma_steps_read_back(path, path.len(), dec);
    assert(path.take(path.len() as int) =~= path);
}

/// The six numbers of a matrix.
spec fn six_text(t: Affine, dec: nat) -> Seq<char> {
    let lin = at_least(dec, 6);
    num_text(t.xx, lin) + seq![' '] + num_text(t.yx, lin) + seq![' '] + num_text(t.xy, lin)
        + seq![' '] + num_text(t.yy, lin) + seq![' '] + num_text(t.dx, dec) + seq![' '] + num_text(
        t.dy,
        dec,
    )
}

proof fn lemma_six_read_back(t: Affine, dec: nat)
    ensures
        numbers_read(
            six_text(t, dec),
            seq![
                (t.xx, at_least(dec, 6)),
                (t.yx, at_least(dec, 6)),
                (t.xy, at_least(dec, 6)),
                (t.yy, at_least(dec, 6)),
                (t.dx, dec),
                (t.dy, dec),
            ],
        ),
{
    let lin = at_least(dec, 6);
    lemma_two(t.xx, t.yx, lin, lin);
    let a = num_text(t.xx, lin) + seq![' '] + num_text(t.yx, lin);
    let xs = seq![(t.xx, lin), (t.yx, lin)];
    lemma_numbers_more(a, xs, t.xy, lin);
    let b = a + seq![' '] + num_text(t.xy, lin);
    let ys = xs.push((t.xy, lin));
    lemma_numbers_more(b, ys, t.yy, lin);
    let c = b + seq![' '] + num_text(t.yy, lin);
    let zs = ys.push((t.yy, lin));
    lemma_numbers_more(c, zs, t.dx, dec);
    let d = c + seq![' '] + num_text(t.dx, dec);
    let us = zs.push((t.dx, dec));
    lemma_numbers_more(d, us, t.dy, dec);
    assert(us.push((t.dy, dec)) =~= seq![
        (t.xx, lin),
        (t.yx, lin),
        (t.xy, lin),
        (t.yy, lin),
        (t.dx, dec),
        (t.dy, dec),
    ]);
}

proof fn lemma_six_are_quoteless(t: Affine, dec: nat)
    ensures
        quoteless(six_text(t, dec)),
        six_text(t, dec).len() > 0,
{
    let lin = at_least(dec, 6);
    lemma_number_is_quoteless(t.xx, lin);
    lemma_number_is_quoteless(t.yx, lin);
    lemma_number_is_quoteless(t.xy, lin);
    lemma_number_is_quoteless(t.yy, lin);
    lemma_number_is_quoteless(t.dx, dec);
    lemma_number_is_quoteless(t.dy, dec);
    let space = seq![' '];
    let a = num_text(t.xx, lin) + space;
    lemma_quoteless_joined(num_text(t.xx, lin), space);
    let b = a + num_text(t.yx, lin);
    lemma_quoteless_joined(a, num_text(t.yx, lin));
    lemma_quoteless_joined(b, space);
    let c = b + space + num_text(t.xy, lin);
    lemma_quoteless_joined(b + space, num_text(t.xy, lin));
    lemma_quoteless_joined(c, space);
    let d = c + space + num_text(t.yy, lin);
    lemma_quoteless_joined(c + space, num_text(t.yy, lin));
    lemma_quoteless_joined(d, space);
    let e = d + space + num_text(t.dx, dec);
    lemma_quoteless_joined(d + space, num_text(t.dx, dec));
    lemma_quoteless_joined(e, space);
    lemma_quoteless_joined(e + space, num_text(t.dy, dec));
    assert(a.len() > 0);
}

proof fn lemma_matrix_reads_back(t: Affine, dec: nat, v: Seq<char>)
    requires
        v == "matrix("@ + six_text(t, dec) + seq![')'],
    ensures
        matrix_reads(v, t, dec),
        quoteless(v),
{
    reveal(matrix_reads);
    reveal_strlit("matrix(");
    let n = six_text(t, dec);
    lemma_six_read_back(t, dec);
    lemma_six_are_quoteless(t, dec);
    lemma_quoteless_joined("matrix("@, n);
    lemma_quoteless_joined("matrix("@ + n, seq![')']);
    assert(v.take(7) =~= "matrix("@);
    assert(v.subrange(7, v.len() - 1) =~= n);
}

/// A written transform reads back as the transform.
pub proof fn lemma_transform_reads_back(t: Affine, dec: nat) -> (list: Seq<Attr>)
    ensures
        lists(transform_text(t, dec), list),
        moved_by(list, t, dec),
        forall|n: Seq<char>|
            n != "transform"@ ==> #[trigger] said(list, n) == Seq::<Seq<char>>::empty(),
{
    assert(" transform=\""@ == seq![' '] + "transform"@ + "=\""@ && tidy_name("transform"@)) by {
        lemma_openings();
    }
    lemma_lists_nothing();
    if t == identity() {
        assert(said(seq![], "transform"@) == Seq::<Seq<char>>::empty());
        seq![]
    } else {
        let n = six_text(t, dec);
        let v = "matrix("@ + n + seq![')'];
        lemma_matrix_reads_back(t, dec, v);
        lemma_lists_maybe(true, " transform=\""@, "transform"@, v);
        assert(transform_text(t, dec) == " transform=\""@ + v + seq!['"']) by {
            lemma_transform_is_matrix(t, dec);
        }
        let list = maybe(true, "transform"@, v);
        assert(said(list, "transform"@) == seq![v]);
        list
    }
}

proof fn lemma_transform_is_matrix(t: Affine, dec: nat)
    requires
        t != identity(),
    ensures
        transform_text(t, dec) == " transform=\""@ + ("matrix("@ + six_text(t, dec) + seq![')'])
            + seq!['"'],
{
    let a = " transform=\""@;
    let b = "matrix("@;
    assert(" transform=\"matrix("@ == a + b) by {
        reveal_strlit(" transform=\"matrix(");
        reveal_strlit(" transform=\"");
        reveal_strlit("matrix(");
        assert(" transform=\"matrix("@ =~= a + b);
    }
    assert(")\""@ == seq![')'] + seq!['"']) by {
        reveal_strlit(")\"");
        assert(")\""@ =~= seq![')'] + seq!['"']);
    }
    let lin = at_least(dec, 6);
    let n = six_text(t, dec);
    let head = a + b;
    let space = seq![' '];
    let p = num_text(t.xx, lin);
    let q = p + space;
    lemma_append(head, p, space);
    lemma_append(head, q, num_text(t.yx, lin));
    let r = q + num_text(t.yx, lin);
    lemma_append(head, r, space);
    lemma_append(head, r + space, num_text(t.xy, lin));
    let u = r + space + num_text(t.xy, lin);
    lemma_append(head, u, space);
    lemma_append(head, u + space, num_text(t.yy, lin));
    let w = u + space + num_text(t.yy, lin);
    lemma_append(head, w, space);
    lemma_append(head, w + space, num_text(t.dx, dec));
    let x = w + space + num_text(t.dx, dec);
    lemma_append(head, x, space);
    lemma_append(head, x + space, num_text(t.dy, dec));
    assert(transform_text(t, dec) == head + n + (seq![')'] + seq!['"']));
    assert(head + n + (seq![')'] + seq!['"']) =~= a + (b + n + seq![')']) + seq!['"']);
}

/// No two names of attributes are alike.
pub proof fn lemma_names()
    ensures
        "d"@.len() == 1,
        "fill"@.len() == 4,
        "fill-opacity"@.len() == 12,
        "fill-rule"@.len() == 9,
        "stroke"@.len() == 6,
        "stroke-opacity"@.len() == 14,
        "stroke-width"@.len() == 12,
        "stroke-linecap"@.len() == 14,
        "stroke-linejoin"@.len() == 15,
        "stroke-miterlimit"@.len() == 17,
        "stroke-dasharray"@.len() == 16,
        "stroke-dashoffset"@.len() == 17,
        "transform"@.len() == 9,
        "opacity"@.len() == 7,
        "style"@.len() == 5,
        "clip-path"@.len() == 9,
        "href"@.len() == 4,
        "pointer-events"@.len() == 14,
        "data-pick-block"@.len() == 15,
        "data-pick-id"@.len() == 12,
        "data-pick-kind"@.len() == 14,
        "data-pick-name"@.len() == 14,
        "data-pick-index"@.len() == 15,
        "x"@.len() == 1,
        "y"@.len() == 1,
        "textLength"@.len() == 10,
        "lengthAdjust"@.len() == 12,
        "text-decoration-line"@.len() == 20,
        "direction"@.len() == 9,
        "unicode-bidi"@.len() == 12,
        "paint-order"@.len() == 11,
        "width"@.len() == 5,
        "height"@.len() == 6,
        "viewBox"@.len() == 7,
        "xmlns"@.len() == 5,
        "target"@.len() == 6,
        "rel"@.len() == 3,
        "id"@.len() == 2,
        "font-family"@.len() == 11,
        "font-size"@.len() == 9,
        "font-weight"@.len() == 11,
        "font-style"@.len() == 10,
        "font-stretch"@.len() == 12,
        "letter-spacing"@.len() == 14,
        "clipPathUnits"@.len() == 13,
        "d"@ != "x"@,
        "d"@ != "y"@,
        "x"@ != "y"@,
        "fill"@ != "href"@,
        "style"@ != "width"@,
        "style"@ != "xmlns"@,
        "width"@ != "xmlns"@,
        "stroke"@ != "height"@,
        "stroke"@ != "target"@,
        "height"@ != "target"@,
        "opacity"@ != "viewBox"@,
        "fill-rule"@ != "transform"@,
        "fill-rule"@ != "clip-path"@,
        "fill-rule"@ != "direction"@,
        "fill-rule"@ != "font-size"@,
        "transform"@ != "clip-path"@,
        "transform"@ != "direction"@,
        "transform"@ != "font-size"@,
        "clip-path"@ != "direction"@,
        "clip-path"@ != "font-size"@,
        "direction"@ != "font-size"@,
        "textLength"@ != "font-style"@,
        "paint-order"@ != "font-family"@,
        "paint-order"@ != "font-weight"@,
        "font-family"@ != "font-weight"@,
        "fill-opacity"@ != "stroke-width"@,
        "fill-opacity"@ != "data-pick-id"@,
        "fill-opacity"@ != "lengthAdjust"@,
        "fill-opacity"@ != "unicode-bidi"@,
        "fill-opacity"@ != "font-stretch"@,
        "stroke-width"@ != "data-pick-id"@,
        "stroke-width"@ != "lengthAdjust"@,
        "stroke-width"@ != "unicode-bidi"@,
        "stroke-width"@ != "font-stretch"@,
        "data-pick-id"@ != "lengthAdjust"@,
        "data-pick-id"@ != "unicode-bidi"@,
        "data-pick-id"@ != "font-stretch"@,
        "lengthAdjust"@ != "unicode-bidi"@,
        "lengthAdjust"@ != "font-stretch"@,
        "unicode-bidi"@ != "font-stretch"@,
        "stroke-opacity"@ != "stroke-linecap"@,
        "stroke-opacity"@ != "pointer-events"@,
        "stroke-opacity"@ != "data-pick-kind"@,
        "stroke-opacity"@ != "data-pick-name"@,
        "stroke-opacity"@ != "letter-spacing"@,
        "stroke-linecap"@ != "pointer-events"@,
        "stroke-linecap"@ != "data-pick-kind"@,
        "stroke-linecap"@ != "data-pick-name"@,
        "stroke-linecap"@ != "letter-spacing"@,
        "pointer-events"@ != "data-pick-kind"@,
        "pointer-events"@ != "data-pick-name"@,
        "pointer-events"@ != "letter-spacing"@,
        "data-pick-kind"@ != "data-pick-name"@,
        "data-pick-kind"@ != "letter-spacing"@,
        "data-pick-name"@ != "letter-spacing"@,
        "stroke-linejoin"@ != "data-pick-block"@,
        "stroke-linejoin"@ != "data-pick-index"@,
        "data-pick-block"@ != "data-pick-index"@,
        "stroke-miterlimit"@ != "stroke-dashoffset"@,
{
    reveal_strlit("d");
    reveal_strlit("fill");
    reveal_strlit("fill-opacity");
    reveal_strlit("fill-rule");
    reveal_strlit("stroke");
    reveal_strlit("stroke-opacity");
    reveal_strlit("stroke-width");
    reveal_strlit("stroke-linecap");
    reveal_strlit("stroke-linejoin");
    reveal_strlit("stroke-miterlimit");
    reveal_strlit("stroke-dasharray");
    reveal_strlit("stroke-dashoffset");
    reveal_strlit("transform");
    reveal_strlit("opacity");
    reveal_strlit("style");
    reveal_strlit("clip-path");
    reveal_strlit("href");
    reveal_strlit("pointer-events");
    reveal_strlit("data-pick-block");
    reveal_strlit("data-pick-id");
    reveal_strlit("data-pick-kind");
    reveal_strlit("data-pick-name");
    reveal_strlit("data-pick-index");
    reveal_strlit("x");
    reveal_strlit("y");
    reveal_strlit("textLength");
    reveal_strlit("lengthAdjust");
    reveal_strlit("text-decoration-line");
    reveal_strlit("direction");
    reveal_strlit("unicode-bidi");
    reveal_strlit("paint-order");
    reveal_strlit("width");
    reveal_strlit("height");
    reveal_strlit("viewBox");
    reveal_strlit("xmlns");
    reveal_strlit("target");
    reveal_strlit("rel");
    reveal_strlit("id");
    reveal_strlit("font-family");
    reveal_strlit("font-size");
    reveal_strlit("font-weight");
    reveal_strlit("font-style");
    reveal_strlit("font-stretch");
    reveal_strlit("letter-spacing");
    reveal_strlit("clipPathUnits");
    assert("d"@[0] != "x"@[0]);
    assert("d"@[0] != "y"@[0]);
    assert("x"@[0] != "y"@[0]);
    assert("fill"@[0] != "href"@[0]);
    assert("style"@[0] != "width"@[0]);
    assert("style"@[0] != "xmlns"@[0]);
    assert("width"@[0] != "xmlns"@[0]);
    assert("stroke"@[0] != "height"@[0]);
    assert("stroke"@[0] != "target"@[0]);
    assert("height"@[0] != "target"@[0]);
    assert("opacity"@[0] != "viewBox"@[0]);
    assert("fill-rule"@[0] != "transform"@[0]);
    assert("fill-rule"@[0] != "clip-path"@[0]);
    assert("fill-rule"@[0] != "direction"@[0]);
    assert("fill-rule"@[1] != "font-size"@[1]);
    assert("transform"@[0] != "clip-path"@[0]);
    assert("transform"@[0] != "direction"@[0]);
    assert("transform"@[0] != "font-size"@[0]);
    assert("clip-path"@[0] != "direction"@[0]);
    assert("clip-path"@[0] != "font-size"@[0]);
    assert("direction"@[0] != "font-size"@[0]);
    assert("textLength"@[0] != "font-style"@[0]);
    assert("paint-order"@[0] != "font-family"@[0]);
    assert("paint-order"@[0] != "font-weight"@[0]);
    assert("font-family"@[5] != "font-weight"@[5]);
    assert("fill-opacity"@[0] != "stroke-width"@[0]);
    assert("fill-opacity"@[0] != "data-pick-id"@[0]);
    assert("fill-opacity"@[0] != "lengthAdjust"@[0]);
    assert("fill-opacity"@[0] != "unicode-bidi"@[0]);
    assert("fill-opacity"@[1] != "font-stretch"@[1]);
    assert("stroke-width"@[0] != "data-pick-id"@[0]);
    assert("stroke-width"@[0] != "lengthAdjust"@[0]);
    assert("stroke-width"@[0] != "unicode-bidi"@[0]);
    assert("stroke-width"@[0] != "font-stretch"@[0]);
    assert("data-pick-id"@[0] != "lengthAdjust"@[0]);
    assert("data-pick-id"@[0] != "unicode-bidi"@[0]);
    assert("data-pick-id"@[0] != "font-stretch"@[0]);
    assert("lengthAdjust"@[0] != "unicode-bidi"@[0]);
    assert("lengthAdjust"@[0] != "font-stretch"@[0]);
    assert("unicode-bidi"@[0] != "font-stretch"@[0]);
    assert("stroke-opacity"@[7] != "stroke-linecap"@[7]);
    assert("stroke-opacity"@[0] != "pointer-events"@[0]);
    assert("stroke-opacity"@[0] != "data-pick-kind"@[0]);
    assert("stroke-opacity"@[0] != "data-pick-name"@[0]);
    assert("stroke-opacity"@[0] != "letter-spacing"@[0]);
    assert("stroke-linecap"@[0] != "pointer-events"@[0]);
    assert("stroke-linecap"@[0] != "data-pick-kind"@[0]);
    assert("stroke-linecap"@[0] != "data-pick-name"@[0]);
    assert("stroke-linecap"@[0] != "letter-spacing"@[0]);
    assert("pointer-events"@[0] != "data-pick-kind"@[0]);
    assert("pointer-events"@[0] != "data-pick-name"@[0]);
    assert("pointer-events"@[0] != "letter-spacing"@[0]);
    assert("data-pick-kind"@[10] != "data-pick-name"@[10]);
    assert("data-pick-kind"@[0] != "letter-spacing"@[0]);
    assert("data-pick-name"@[0] != "letter-spacing"@[0]);
    assert("stroke-linejoin"@[0] != "data-pick-block"@[0]);
    assert("stroke-linejoin"@[0] != "data-pick-index"@[0]);
    assert("data-pick-block"@[10] != "data-pick-index"@[10]);
    assert("stroke-miterlimit"@[7] != "stroke-dashoffset"@[7]);
}

/// What comes before the value of each attribute.
pub proof fn lemma_openings()
    ensures
        " d=\""@ == seq![' '] + "d"@ + "=\""@,
        tidy_name("d"@),
        " fill=\""@ == seq![' '] + "fill"@ + "=\""@,
        tidy_name("fill"@),
        " fill-opacity=\""@ == seq![' '] + "fill-opacity"@ + "=\""@,
        tidy_name("fill-opacity"@),
        " fill-rule=\""@ == seq![' '] + "fill-rule"@ + "=\""@,
        tidy_name("fill-rule"@),
        " stroke=\""@ == seq![' '] + "stroke"@ + "=\""@,
        tidy_name("stroke"@),
        " stroke-opacity=\""@ == seq![' '] + "stroke-opacity"@ + "=\""@,
        tidy_name("stroke-opacity"@),
        " stroke-width=\""@ == seq![' '] + "stroke-width"@ + "=\""@,
        tidy_name("stroke-width"@),
        " stroke-linecap=\""@ == seq![' '] + "stroke-linecap"@ + "=\""@,
        tidy_name("stroke-linecap"@),
        " stroke-linejoin=\""@ == seq![' '] + "stroke-linejoin"@ + "=\""@,
        tidy_name("stroke-linejoin"@),
        " stroke-miterlimit=\""@ == seq![' '] + "stroke-miterlimit"@ + "=\""@,
        tidy_name("stroke-miterlimit"@),
        " stroke-dasharray=\""@ == seq![' '] + "stroke-dasharray"@ + "=\""@,
        tidy_name("stroke-dasharray"@),
        " stroke-dashoffset=\""@ == seq![' '] + "stroke-dashoffset"@ + "=\""@,
        tidy_name("stroke-dashoffset"@),
        " transform=\""@ == seq![' '] + "transform"@ + "=\""@,
        tidy_name("transform"@),
        " opacity=\""@ == seq![' '] + "opacity"@ + "=\""@,
        tidy_name("opacity"@),
        " style=\""@ == seq![' '] + "style"@ + "=\""@,
        tidy_name("style"@),
        " clip-path=\""@ == seq![' '] + "clip-path"@ + "=\""@,
        tidy_name("clip-path"@),
        " href=\""@ == seq![' '] + "href"@ + "=\""@,
        tidy_name("href"@),
        " pointer-events=\""@ == seq![' '] + "pointer-events"@ + "=\""@,
        tidy_name("pointer-events"@),
        " data-pick-block=\""@ == seq![' '] + "data-pick-block"@ + "=\""@,
        tidy_name("data-pick-block"@),
        " data-pick-id=\""@ == seq![' '] + "data-pick-id"@ + "=\""@,
        tidy_name("data-pick-id"@),
        " data-pick-kind=\""@ == seq![' '] + "data-pick-kind"@ + "=\""@,
        tidy_name("data-pick-kind"@),
        " data-pick-name=\""@ == seq![' '] + "data-pick-name"@ + "=\""@,
        tidy_name("data-pick-name"@),
        " data-pick-index=\""@ == seq![' '] + "data-pick-index"@ + "=\""@,
        tidy_name("data-pick-index"@),
        " x=\""@ == seq![' '] + "x"@ + "=\""@,
        tidy_name("x"@),
        " y=\""@ == seq![' '] + "y"@ + "=\""@,
        tidy_name("y"@),
        " textLength=\""@ == seq![' '] + "textLength"@ + "=\""@,
        tidy_name("textLength"@),
        " lengthAdjust=\""@ == seq![' '] + "lengthAdjust"@ + "=\""@,
        tidy_name("lengthAdjust"@),
        " text-decoration-line=\""@ == seq![' '] + "text-decoration-line"@ + "=\""@,
        tidy_name("text-decoration-line"@),
        " direction=\""@ == seq![' '] + "direction"@ + "=\""@,
        tidy_name("direction"@),
        " unicode-bidi=\""@ == seq![' '] + "unicode-bidi"@ + "=\""@,
        tidy_name("unicode-bidi"@),
        " paint-order=\""@ == seq![' '] + "paint-order"@ + "=\""@,
        tidy_name("paint-order"@),
        " width=\""@ == seq![' '] + "width"@ + "=\""@,
        tidy_name("width"@),
        " height=\""@ == seq![' '] + "height"@ + "=\""@,
        tidy_name("height"@),
        " viewBox=\""@ == seq![' '] + "viewBox"@ + "=\""@,
        tidy_name("viewBox"@),
        " xmlns=\""@ == seq![' '] + "xmlns"@ + "=\""@,
        tidy_name("xmlns"@),
        " target=\""@ == seq![' '] + "target"@ + "=\""@,
        tidy_name("target"@),
        " rel=\""@ == seq![' '] + "rel"@ + "=\""@,
        tidy_name("rel"@),
        " id=\""@ == seq![' '] + "id"@ + "=\""@,
        tidy_name("id"@),
        " font-family=\""@ == seq![' '] + "font-family"@ + "=\""@,
        tidy_name("font-family"@),
        " font-size=\""@ == seq![' '] + "font-size"@ + "=\""@,
        tidy_name("font-size"@),
        " font-weight=\""@ == seq![' '] + "font-weight"@ + "=\""@,
        tidy_name("font-weight"@),
        " font-style=\""@ == seq![' '] + "font-style"@ + "=\""@,
        tidy_name("font-style"@),
        " font-stretch=\""@ == seq![' '] + "font-stretch"@ + "=\""@,
        tidy_name("font-stretch"@),
        " letter-spacing=\""@ == seq![' '] + "letter-spacing"@ + "=\""@,
        tidy_name("letter-spacing"@),
        " clipPathUnits=\""@ == seq![' '] + "clipPathUnits"@ + "=\""@,
        tidy_name("clipPathUnits"@),
{
    reveal_strlit("=\"");
    assert(" d=\""@ == seq![' '] + "d"@ + "=\""@ && tidy_name("d"@)) by {
        reveal_strlit(" d=\"");
        reveal_strlit("d");
        assert(" d=\""@ =~= seq![' '] + "d"@ + "=\""@);
    }
    assert(" fill=\""@ == seq![' '] + "fill"@ + "=\""@ && tidy_name("fill"@)) by {
        reveal_strlit(" fill=\"");
        reveal_strlit("fill");
        assert(" fill=\""@ =~= seq![' '] + "fill"@ + "=\""@);
    }
    assert(" fill-opacity=\""@ == seq![' '] + "fill-opacity"@ + "=\""@
        && tidy_name("fill-opacity"@)) by {
        reveal_strlit(" fill-opacity=\"");
        reveal_strlit("fill-opacity");
        assert(" fill-opacity=\""@ =~= seq![' '] + "fill-opacity"@ + "=\""@);
    }
    assert(" fill-rule=\""@ == seq![' '] + "fill-rule"@ + "=\""@ && tidy_name("fill-rule"@)) by {
        reveal_strlit(" fill-rule=\"");
        reveal_strlit("fill-rule");
        assert(" fill-rule=\""@ =~= seq![' '] + "fill-rule"@ + "=\""@);
    }
    assert(" stroke=\""@ == seq![' '] + "stroke"@ + "=\""@ && tidy_name("stroke"@)) by {
        reveal_strlit(" stroke=\"");
        reveal_strlit("stroke");
        assert(" stroke=\""@ =~= seq![' '] + "stroke"@ + "=\""@);
    }
    assert(" stroke-opacity=\""@ == seq![' '] + "stroke-opacity"@ + "=\""@
        && tidy_name("stroke-opacity"@)) by {
        reveal_strlit(" stroke-opacity=\"");
        reveal_strlit("stroke-opacity");
        assert(" stroke-opacity=\""@ =~= seq![' '] + "stroke-opacity"@ + "=\""@);
    }
    assert(" stroke-width=\""@ == seq![' '] + "stroke-width"@ + "=\""@
        && tidy_name("stroke-width"@)) by {
        reveal_strlit(" stroke-width=\"");
        reveal_strlit("stroke-width");
        assert(" stroke-width=\""@ =~= seq![' '] + "stroke-width"@ + "=\""@);
    }
    assert(" stroke-linecap=\""@ == seq![' '] + "stroke-linecap"@ + "=\""@
        && tidy_name("stroke-linecap"@)) by {
        reveal_strlit(" stroke-linecap=\"");
        reveal_strlit("stroke-linecap");
        assert(" stroke-linecap=\""@ =~= seq![' '] + "stroke-linecap"@ + "=\""@);
    }
    assert(" stroke-linejoin=\""@ == seq![' '] + "stroke-linejoin"@ + "=\""@
        && tidy_name("stroke-linejoin"@)) by {
        reveal_strlit(" stroke-linejoin=\"");
        reveal_strlit("stroke-linejoin");
        assert(" stroke-linejoin=\""@ =~= seq![' '] + "stroke-linejoin"@ + "=\""@);
    }
    assert(" stroke-miterlimit=\""@ == seq![' '] + "stroke-miterlimit"@ + "=\""@
        && tidy_name("stroke-miterlimit"@)) by {
        reveal_strlit(" stroke-miterlimit=\"");
        reveal_strlit("stroke-miterlimit");
        assert(" stroke-miterlimit=\""@ =~= seq![' '] + "stroke-miterlimit"@ + "=\""@);
    }
    assert(" stroke-dasharray=\""@ == seq![' '] + "stroke-dasharray"@ + "=\""@
        && tidy_name("stroke-dasharray"@)) by {
        reveal_strlit(" stroke-dasharray=\"");
        reveal_strlit("stroke-dasharray");
        assert(" stroke-dasharray=\""@ =~= seq![' '] + "stroke-dasharray"@ + "=\""@);
    }
    assert(" stroke-dashoffset=\""@ == seq![' '] + "stroke-dashoffset"@ + "=\""@
        && tidy_name("stroke-dashoffset"@)) by {
        reveal_strlit(" stroke-dashoffset=\"");
        reveal_strlit("stroke-dashoffset");
        assert(" stroke-dashoffset=\""@ =~= seq![' '] + "stroke-dashoffset"@ + "=\""@);
    }
    assert(" transform=\""@ == seq![' '] + "transform"@ + "=\""@ && tidy_name("transform"@)) by {
        reveal_strlit(" transform=\"");
        reveal_strlit("transform");
        assert(" transform=\""@ =~= seq![' '] + "transform"@ + "=\""@);
    }
    assert(" opacity=\""@ == seq![' '] + "opacity"@ + "=\""@ && tidy_name("opacity"@)) by {
        reveal_strlit(" opacity=\"");
        reveal_strlit("opacity");
        assert(" opacity=\""@ =~= seq![' '] + "opacity"@ + "=\""@);
    }
    assert(" style=\""@ == seq![' '] + "style"@ + "=\""@ && tidy_name("style"@)) by {
        reveal_strlit(" style=\"");
        reveal_strlit("style");
        assert(" style=\""@ =~= seq![' '] + "style"@ + "=\""@);
    }
    assert(" clip-path=\""@ == seq![' '] + "clip-path"@ + "=\""@ && tidy_name("clip-path"@)) by {
        reveal_strlit(" clip-path=\"");
        reveal_strlit("clip-path");
        assert(" clip-path=\""@ =~= seq![' '] + "clip-path"@ + "=\""@);
    }
    assert(" href=\""@ == seq![' '] + "href"@ + "=\""@ && tidy_name("href"@)) by {
        reveal_strlit(" href=\"");
        reveal_strlit("href");
        assert(" href=\""@ =~= seq![' '] + "href"@ + "=\""@);
    }
    assert(" pointer-events=\""@ == seq![' '] + "pointer-events"@ + "=\""@
        && tidy_name("pointer-events"@)) by {
        reveal_strlit(" pointer-events=\"");
        reveal_strlit("pointer-events");
        assert(" pointer-events=\""@ =~= seq![' '] + "pointer-events"@ + "=\""@);
    }
    assert(" data-pick-block=\""@ == seq![' '] + "data-pick-block"@ + "=\""@
        && tidy_name("data-pick-block"@)) by {
        reveal_strlit(" data-pick-block=\"");
        reveal_strlit("data-pick-block");
        assert(" data-pick-block=\""@ =~= seq![' '] + "data-pick-block"@ + "=\""@);
    }
    assert(" data-pick-id=\""@ == seq![' '] + "data-pick-id"@ + "=\""@
        && tidy_name("data-pick-id"@)) by {
        reveal_strlit(" data-pick-id=\"");
        reveal_strlit("data-pick-id");
        assert(" data-pick-id=\""@ =~= seq![' '] + "data-pick-id"@ + "=\""@);
    }
    assert(" data-pick-kind=\""@ == seq![' '] + "data-pick-kind"@ + "=\""@
        && tidy_name("data-pick-kind"@)) by {
        reveal_strlit(" data-pick-kind=\"");
        reveal_strlit("data-pick-kind");
        assert(" data-pick-kind=\""@ =~= seq![' '] + "data-pick-kind"@ + "=\""@);
    }
    assert(" data-pick-name=\""@ == seq![' '] + "data-pick-name"@ + "=\""@
        && tidy_name("data-pick-name"@)) by {
        reveal_strlit(" data-pick-name=\"");
        reveal_strlit("data-pick-name");
        assert(" data-pick-name=\""@ =~= seq![' '] + "data-pick-name"@ + "=\""@);
    }
    assert(" data-pick-index=\""@ == seq![' '] + "data-pick-index"@ + "=\""@
        && tidy_name("data-pick-index"@)) by {
        reveal_strlit(" data-pick-index=\"");
        reveal_strlit("data-pick-index");
        assert(" data-pick-index=\""@ =~= seq![' '] + "data-pick-index"@ + "=\""@);
    }
    assert(" x=\""@ == seq![' '] + "x"@ + "=\""@ && tidy_name("x"@)) by {
        reveal_strlit(" x=\"");
        reveal_strlit("x");
        assert(" x=\""@ =~= seq![' '] + "x"@ + "=\""@);
    }
    assert(" y=\""@ == seq![' '] + "y"@ + "=\""@ && tidy_name("y"@)) by {
        reveal_strlit(" y=\"");
        reveal_strlit("y");
        assert(" y=\""@ =~= seq![' '] + "y"@ + "=\""@);
    }
    assert(" textLength=\""@ == seq![' '] + "textLength"@ + "=\""@ && tidy_name("textLength"@)) by {
        reveal_strlit(" textLength=\"");
        reveal_strlit("textLength");
        assert(" textLength=\""@ =~= seq![' '] + "textLength"@ + "=\""@);
    }
    assert(" lengthAdjust=\""@ == seq![' '] + "lengthAdjust"@ + "=\""@
        && tidy_name("lengthAdjust"@)) by {
        reveal_strlit(" lengthAdjust=\"");
        reveal_strlit("lengthAdjust");
        assert(" lengthAdjust=\""@ =~= seq![' '] + "lengthAdjust"@ + "=\""@);
    }
    assert(" text-decoration-line=\""@ == seq![' '] + "text-decoration-line"@ + "=\""@
        && tidy_name("text-decoration-line"@)) by {
        reveal_strlit(" text-decoration-line=\"");
        reveal_strlit("text-decoration-line");
        assert(" text-decoration-line=\""@ =~= seq![' '] + "text-decoration-line"@ + "=\""@);
    }
    assert(" direction=\""@ == seq![' '] + "direction"@ + "=\""@ && tidy_name("direction"@)) by {
        reveal_strlit(" direction=\"");
        reveal_strlit("direction");
        assert(" direction=\""@ =~= seq![' '] + "direction"@ + "=\""@);
    }
    assert(" unicode-bidi=\""@ == seq![' '] + "unicode-bidi"@ + "=\""@
        && tidy_name("unicode-bidi"@)) by {
        reveal_strlit(" unicode-bidi=\"");
        reveal_strlit("unicode-bidi");
        assert(" unicode-bidi=\""@ =~= seq![' '] + "unicode-bidi"@ + "=\""@);
    }
    assert(" paint-order=\""@ == seq![' '] + "paint-order"@ + "=\""@
        && tidy_name("paint-order"@)) by {
        reveal_strlit(" paint-order=\"");
        reveal_strlit("paint-order");
        assert(" paint-order=\""@ =~= seq![' '] + "paint-order"@ + "=\""@);
    }
    assert(" width=\""@ == seq![' '] + "width"@ + "=\""@ && tidy_name("width"@)) by {
        reveal_strlit(" width=\"");
        reveal_strlit("width");
        assert(" width=\""@ =~= seq![' '] + "width"@ + "=\""@);
    }
    assert(" height=\""@ == seq![' '] + "height"@ + "=\""@ && tidy_name("height"@)) by {
        reveal_strlit(" height=\"");
        reveal_strlit("height");
        assert(" height=\""@ =~= seq![' '] + "height"@ + "=\""@);
    }
    assert(" viewBox=\""@ == seq![' '] + "viewBox"@ + "=\""@ && tidy_name("viewBox"@)) by {
        reveal_strlit(" viewBox=\"");
        reveal_strlit("viewBox");
        assert(" viewBox=\""@ =~= seq![' '] + "viewBox"@ + "=\""@);
    }
    assert(" xmlns=\""@ == seq![' '] + "xmlns"@ + "=\""@ && tidy_name("xmlns"@)) by {
        reveal_strlit(" xmlns=\"");
        reveal_strlit("xmlns");
        assert(" xmlns=\""@ =~= seq![' '] + "xmlns"@ + "=\""@);
    }
    assert(" target=\""@ == seq![' '] + "target"@ + "=\""@ && tidy_name("target"@)) by {
        reveal_strlit(" target=\"");
        reveal_strlit("target");
        assert(" target=\""@ =~= seq![' '] + "target"@ + "=\""@);
    }
    assert(" rel=\""@ == seq![' '] + "rel"@ + "=\""@ && tidy_name("rel"@)) by {
        reveal_strlit(" rel=\"");
        reveal_strlit("rel");
        assert(" rel=\""@ =~= seq![' '] + "rel"@ + "=\""@);
    }
    assert(" id=\""@ == seq![' '] + "id"@ + "=\""@ && tidy_name("id"@)) by {
        reveal_strlit(" id=\"");
        reveal_strlit("id");
        assert(" id=\""@ =~= seq![' '] + "id"@ + "=\""@);
    }
    assert(" font-family=\""@ == seq![' '] + "font-family"@ + "=\""@
        && tidy_name("font-family"@)) by {
        reveal_strlit(" font-family=\"");
        reveal_strlit("font-family");
        assert(" font-family=\""@ =~= seq![' '] + "font-family"@ + "=\""@);
    }
    assert(" font-size=\""@ == seq![' '] + "font-size"@ + "=\""@ && tidy_name("font-size"@)) by {
        reveal_strlit(" font-size=\"");
        reveal_strlit("font-size");
        assert(" font-size=\""@ =~= seq![' '] + "font-size"@ + "=\""@);
    }
    assert(" font-weight=\""@ == seq![' '] + "font-weight"@ + "=\""@
        && tidy_name("font-weight"@)) by {
        reveal_strlit(" font-weight=\"");
        reveal_strlit("font-weight");
        assert(" font-weight=\""@ =~= seq![' '] + "font-weight"@ + "=\""@);
    }
    assert(" font-style=\""@ == seq![' '] + "font-style"@ + "=\""@ && tidy_name("font-style"@)) by {
        reveal_strlit(" font-style=\"");
        reveal_strlit("font-style");
        assert(" font-style=\""@ =~= seq![' '] + "font-style"@ + "=\""@);
    }
    assert(" font-stretch=\""@ == seq![' '] + "font-stretch"@ + "=\""@
        && tidy_name("font-stretch"@)) by {
        reveal_strlit(" font-stretch=\"");
        reveal_strlit("font-stretch");
        assert(" font-stretch=\""@ =~= seq![' '] + "font-stretch"@ + "=\""@);
    }
    assert(" letter-spacing=\""@ == seq![' '] + "letter-spacing"@ + "=\""@
        && tidy_name("letter-spacing"@)) by {
        reveal_strlit(" letter-spacing=\"");
        reveal_strlit("letter-spacing");
        assert(" letter-spacing=\""@ =~= seq![' '] + "letter-spacing"@ + "=\""@);
    }
    assert(" clipPathUnits=\""@ == seq![' '] + "clipPathUnits"@ + "=\""@
        && tidy_name("clipPathUnits"@)) by {
        reveal_strlit(" clipPathUnits=\"");
        reveal_strlit("clipPathUnits");
        assert(" clipPathUnits=\""@ =~= seq![' '] + "clipPathUnits"@ + "=\""@);
    }
}

proof fn lemma_channel_reads_back(c: Fixed)
    ensures
        channel_reads(
            hex_digit(channel_byte(c) / 16),
            hex_digit(channel_byte(c) % 16),
            c,
        ),
{
    let n = c.nanos * 255;
    let v = round_div(n, ONE as int);
    let b = channel_byte(c);
    assert(0 <= b <= 255);
    assert(b == 16 * (b / 16) + b % 16);
    assert(hex_worth(hex_digit(b / 16)) == b / 16);
    assert(hex_worth(hex_digit(b % 16)) == b % 16);
}

/// A written color reads back as the color.
pub proof fn lemma_color_reads_back(c: Color)
    ensures
        color_reads(solid_paint(c).value, c.red, c.green, c.blue),
{
    let v = solid_paint(c).value;
    lemma_channel_reads_back(c.red);
    lemma_channel_reads_back(c.green);
    lemma_channel_reads_back(c.blue);
    let (r, g, b) = (channel_byte(c.red), channel_byte(c.green), channel_byte(c.blue));
    assert(v =~= seq![
        '#',
        hex_digit(r / 16),
        hex_digit(r % 16),
        hex_digit(g / 16),
        hex_digit(g % 16),
        hex_digit(b / 16),
        hex_digit(b % 16),
    ]);
}

proof fn lemma_attr_text_from_front(s: Seq<char>)
    requires
        s.len() > 0,
    ensures
        attr_text(s) == attr_char(s[0]) + attr_text(s.skip(1)),
    decreases s.len(),
{
    reveal_with_fuel(attr_text, 2);
    let rest = s.skip(1);
    if s.len() == 1 {
        assert(s.drop_last() =~= seq![]);
        assert(attr_text(s) =~= attr_char(s[0]) + attr_text(rest));
    } else {
        lemma_attr_text_from_front(s.drop_last());
        assert(s.drop_last().skip(1) =~= rest.drop_last());
        assert(attr_text(s) =~= attr_char(s[0]) + attr_text(rest));
    }
}

proof fn lemma_content_text_from_front(s: Seq<char>)
    requires
        s.len() > 0,
    ensures
        content_text(s) == content_char(s[0]) + content_text(s.skip(1)),
    decreases s.len(),
{
    reveal_with_fuel(content_text, 2);
    let rest = s.skip(1);
    if s.len() == 1 {
        assert(s.drop_last() =~= seq![]);
        assert(content_text(s) =~= content_char(s[0]) + content_text(rest));
    } else {
        lemma_content_text_from_front(s.drop_last());
        assert(s.drop_last().skip(1) =~= rest.drop_last());
        assert(content_text(s) =~= content_char(s[0]) + content_text(rest));
    }
}

/// What one character is escaped to is read as that character.
proof fn lemma_one_unescaped(c: char, e: Seq<char>, rest: Seq<char>)
    requires
        c == '&' ==> e == "&amp;"@,
        c == '<' ==> e == "&lt;"@,
        c == '>' ==> e == "&gt;"@,
        c == '"' ==> e == "&quot;"@ || e == seq![c],
        c != '&' && c != '<' && c != '>' && c != '"' ==> e == seq![c],
    ensures
        unescaped(e + rest) == seq![c] + unescaped(rest),
{
    reveal_strlit("&amp;");
    reveal_strlit("&lt;");
    reveal_strlit("&gt;");
    reveal_strlit("&quot;");
    let s = e + rest;
    assert(s[0] == e[0]);
    assert(s.skip(e.len() as int) =~= rest);
    if e.len() == 1 {
        assert forall|p: Seq<char>| p.len() > 0 && p[0] == '&' implies !(#[trigger] at(
            s,
            0,
            p,
        )) by {
            if at(s, 0, p) {
                assert(s.subrange(0, p.len() as int)[0] == s[0]);
            }
        }
    } else {
        let four = seq!['&', 'l', 't', ';'];
        let more = seq!['&', 'g', 't', ';'];
        let five = seq!['&', 'a', 'm', 'p', ';'];
        let six = seq!['&', 'q', 'u', 'o', 't', ';'];
        assert(s[1] == e[1]);
        assert forall|p: Seq<char>| p.len() > 1 && p[1] != e[1] implies !(#[trigger] at(
            s,
            0,
            p,
        )) by {
            if at(s, 0, p) {
                assert(s.subrange(0, p.len() as int)[1] == s[1]);
            }
        }
        assert(s.subrange(0, e.len() as int) =~= e);
        assert(e =~= four || e =~= more || e =~= five || e =~= six);
    }
}

/// An escaped attribute value reads back as what was escaped.
pub proof fn lemma_attr_text_reads_back(s: Seq<char>)
    ensures
        unescaped(attr_text(s)) == s,
    decreases s.len(),
{
    if s.len() > 0 {
        lemma_attr_text_from_front(s);
        lemma_attr_text_reads_back(s.skip(1));
        lemma_one_unescaped(s[0], attr_char(s[0]), attr_text(s.skip(1)));
        assert(seq![s[0]] + s.skip(1) =~= s);
    }
}

/// Escaped content reads back as what was escaped.
pub proof fn lemma_content_text_reads_back(s: Seq<char>)
    ensures
        unescaped(content_text(s)) == s,
    decreases s.len(),
{
    if s.len() > 0 {
        lemma_content_text_from_front(s);
        lemma_content_text_reads_back(s.skip(1));
        lemma_one_unescaped(s[0], content_char(s[0]), content_text(s.skip(1)));
        assert(seq![s[0]] + s.skip(1) =~= s);
    }
}

/// True when two numbers are alike to so many places: no further apart than a
/// unit of the last.
pub open spec fn alike(x: Fixed, y: Fixed, decimals: nat) -> bool {
    -last_place(decimals) <= x.nanos - y.nanos <= last_place(decimals)
}

/// Numbers that are written alike are alike.
proof fn lemma_written_alike(x: Fixed, y: Fixed, decimals: nat)
    requires
        num_text(x, decimals) == num_text(y, decimals),
    ensures
        alike(x, y, decimals),
{
    reveal(writes);
    lemma_number_reads_back(x, decimals);
    lemma_number_reads_back(y, decimals);
}

proof fn lemma_last_number(a: Seq<char>, x: Seq<char>, b: Seq<char>, y: Seq<char>)
    requires
        a + seq![' '] + x == b + seq![' '] + y,
        crate::fixed::plain_number(x),
        crate::fixed::plain_number(y),
    ensures
        a == b,
        x == y,
{
    let s = a + seq![' '] + x;
    let t = b + seq![' '] + y;
    assert(s.len() == a.len() + 1 + x.len());
    assert(t.len() == b.len() + 1 + y.len());
    if x.len() < y.len() {
        assert(s[a.len() as int] == ' ');
        assert(t[a.len() as int] == y[a.len() - b.len() - 1]);
    } else if y.len() < x.len() {
        assert(t[b.len() as int] == ' ');
        assert(s[b.len() as int] == x[b.len() - a.len() - 1]);
    }
    assert(a =~= s.take(a.len() as int));
    assert(b =~= t.take(a.len() as int));
    assert(x =~= s.skip(a.len() as int + 1));
    assert(y =~= t.skip(a.len() as int + 1));
}

proof fn lemma_next_number(
    a: Seq<char>,
    x: Fixed,
    b: Seq<char>,
    y: Fixed,
    dec: nat,
)
    requires
        a + seq![' '] + num_text(x, dec) == b + seq![' '] + num_text(y, dec),
    ensures
        a == b,
        alike(x, y, dec),
{
    crate::fixed::lemma_num_text_is_plain(x, dec);
    crate::fixed::lemma_num_text_is_plain(y, dec);
    lemma_last_number(a, num_text(x, dec), b, num_text(y, dec));
    lemma_written_alike(x, y, dec);
}

/// Two maps that are written alike are one map, or differ in no number by more
/// than a unit of the last place it is written to.
pub proof fn lemma_maps_are_told_apart(t: Affine, u: Affine, dec: nat)
    requires
        transform_text(t, dec) == transform_text(u, dec),
    ensures
        ({
            let lin = at_least(dec, 6);
            t == u || alike(t.xx, u.xx, lin) && alike(t.yx, u.yx, lin) && alike(t.xy, u.xy, lin)
                && alike(t.yy, u.yy, lin) && alike(t.dx, u.dx, dec) && alike(t.dy, u.dy, dec)
        }),
{
    if t == identity() {
        if u != identity() {
            lemma_map_is_written(u, dec);
        }
    } else if u == identity() {
        lemma_map_is_written(t, dec);
    } else {
        lemma_same_six(t, u, dec);
        lemma_six_are_told_apart(t, u, dec);
    }
}

proof fn lemma_map_is_written(t: Affine, dec: nat)
    requires
        t != identity(),
    ensures
        transform_text(t, dec).len() > 0,
        transform_text(identity(), dec).len() == 0,
{
    lemma_transform_is_matrix(t, dec);
    let front = " transform=\""@ + ("matrix("@ + six_text(t, dec) + seq![')']);
    assert((front + seq!['"']).len() == front.len() + 1);
}

proof fn lemma_same_six(t: Affine, u: Affine, dec: nat)
    requires
        t != identity(),
        u != identity(),
        transform_text(t, dec) == transform_text(u, dec),
    ensures
        six_text(t, dec) == six_text(u, dec),
{
    lemma_transform_is_matrix(t, dec);
    lemma_transform_is_matrix(u, dec);
    lemma_same_inside(" transform=\""@, "matrix("@, six_text(t, dec), six_text(u, dec));
}

proof fn lemma_same_inside(a: Seq<char>, b: Seq<char>, v: Seq<char>, w: Seq<char>)
    requires
        a + (b + v + seq![')']) + seq!['"'] == a + (b + w + seq![')']) + seq!['"'],
    ensures
        v == w,
{
    let s = a + (b + v + seq![')']) + seq!['"'];
    let r = a + (b + w + seq![')']) + seq!['"'];
    let n = (a.len() + b.len()) as int;
    assert(s.len() == n + v.len() + 2);
    assert(r.len() == n + w.len() + 2);
    assert(v =~= s.subrange(n, n + v.len()));
    assert(w =~= r.subrange(n, n + v.len()));
}

proof fn lemma_six_are_told_apart(t: Affine, u: Affine, dec: nat)
    requires
        six_text(t, dec) == six_text(u, dec),
    ensures
        ({
            let lin = at_least(dec, 6);
            alike(t.xx, u.xx, lin) && alike(t.yx, u.yx, lin) && alike(t.xy, u.xy, lin) && alike(
                t.yy,
                u.yy,
                lin,
            ) && alike(t.dx, u.dx, dec) && alike(t.dy, u.dy, dec)
        }),
{
    let lin = at_least(dec, 6);
    let space = seq![' '];
    let a = num_text(t.xx, lin);
    let b = a + space + num_text(t.yx, lin);
    let c = b + space + num_text(t.xy, lin);
    let d = c + space + num_text(t.yy, lin);
    let e = d + space + num_text(t.dx, dec);
    let f = num_text(u.xx, lin);
    let g = f + space + num_text(u.yx, lin);
    let h = g + space + num_text(u.xy, lin);
    let i = h + space + num_text(u.yy, lin);
    let j = i + space + num_text(u.dx, dec);
    lemma_next_number(e, t.dy, j, u.dy, dec);
    lemma_next_number(d, t.dx, i, u.dx, dec);
    lemma_next_number(c, t.yy, h, u.yy, lin);
    lemma_next_number(b, t.xy, g, u.xy, lin);
    lemma_next_number(a, t.yx, f, u.yx, lin);
    lemma_written_alike(t.xx, u.xx, lin);
}

} // verus!
