//! The lexical layer: escaped text, path data and transforms.

use vstd::prelude::*;

use crate::fixed::{num, num_text};
use crate::geometry::{identity, is_identity, Affine, Path, PathEl, Point};

verus! {

/// What one character becomes inside a double-quoted attribute.
pub open spec fn attr_char(c: char) -> Seq<char> {
    if c == '&' {
        "&amp;"@
    } else if c == '<' {
        "&lt;"@
    } else if c == '>' {
        "&gt;"@
    } else if c == '"' {
        "&quot;"@
    } else {
        seq![c]
    }
}

/// `s` as the value of a double-quoted attribute.
pub open spec fn attr_text(s: Seq<char>) -> Seq<char>
    decreases s.len(),
{
    if s.len() == 0 {
        seq![]
    } else {
        attr_text(s.drop_last()) + attr_char(s.last())
    }
}

/// Append `s` as the value of a double-quoted attribute.
pub fn escape_attr(out: &mut String, s: &str)
    ensures
        final(out)@ == old(out)@ + attr_text(s@),
{
    let ghost before = out@;
    assert(out@ =~= before + attr_text(s@.take(0)));
    for c in it: s.chars()
        invariant
            it.seq() == s@,
            out@ == before + attr_text(s@.take(it.index())),
    {
        if c == '&' {
            out.append("&amp;");
        } else if c == '<' {
            out.append("&lt;");
        } else if c == '>' {
            out.append("&gt;");
        } else if c == '"' {
            out.append("&quot;");
        } else {
            out.push(c);
        }
        proof {
            let next = s@.take(it.index() + 1);
            assert(next.drop_last() =~= s@.take(it.index()));
            assert(next.last() == c);
            assert(out@ =~= before + attr_text(next));
        }
    }
    assert(s@.take(s@.len() as int) =~= s@);
}

/// What one character becomes in element content.
pub open spec fn content_char(c: char) -> Seq<char> {
    if c == '&' {
        "&amp;"@
    } else if c == '<' {
        "&lt;"@
    } else if c == '>' {
        "&gt;"@
    } else {
        seq![c]
    }
}

/// `s` as element content.
pub open spec fn content_text(s: Seq<char>) -> Seq<char>
    decreases s.len(),
{
    if s.len() == 0 {
        seq![]
    } else {
        content_text(s.drop_last()) + content_char(s.last())
    }
}

/// Append `s` as element content.
pub fn escape_text(out: &mut String, s: &str)
    ensures
        final(out)@ == old(out)@ + content_text(s@),
{
    let ghost before = out@;
    assert(out@ =~= before + content_text(s@.take(0)));
    for c in it: s.chars()
        invariant
            it.seq() == s@,
            out@ == before + content_text(s@.take(it.index())),
    {
        if c == '&' {
            out.append("&amp;");
        } else if c == '<' {
            out.append("&lt;");
        } else if c == '>' {
            out.append("&gt;");
        } else {
            out.push(c);
        }
        proof {
            let next = s@.take(it.index() + 1);
            assert(next.drop_last() =~= s@.take(it.index()));
            assert(next.last() == c);
            assert(out@ =~= before + content_text(next));
        }
    }
    assert(s@.take(s@.len() as int) =~= s@);
}

/// The larger of two counts of decimal places.
pub open spec fn most_places(a: nat, b: nat) -> nat {
    if a > b {
        a
    } else {
        b
    }
}

/// The larger of two counts of decimal places.
pub fn max_places(a: u8, b: u8) -> (r: u8)
    ensures
        r as nat == most_places(a as nat, b as nat),
{
    if a > b {
        a
    } else {
        b
    }
}

/// Decimal places that the linear part of a matrix never goes below: an
/// error there grows with the distance from the origin.
pub const MATRIX_PLACES: u8 = 6;

/// The `transform` attribute for `t`; nothing for the identity.
pub open spec fn transform_text(t: Affine, dec: nat) -> Seq<char> {
    let lin = most_places(dec, MATRIX_PLACES as nat);
    if t == identity() {
        seq![]
    } else {
        " transform=\"matrix("@ + num_text(t.xx, lin) + seq![' '] + num_text(t.yx, lin) + seq![' ']
            + num_text(t.xy, lin) + seq![' '] + num_text(t.yy, lin) + seq![' '] + num_text(
            t.dx,
            dec,
        ) + seq![' '] + num_text(t.dy, dec) + ")\""@
    }
}

/// Append the `transform` attribute for `t`, unless it is the identity.
pub fn transform_attr(out: &mut String, t: Affine, dec: u8)
    ensures
        final(out)@ == old(out)@ + transform_text(t, dec as nat),
{
    let lin = max_places(dec, MATRIX_PLACES);
    if !is_identity(t) {
        out.append(" transform=\"matrix(");
        num(out, t.xx, lin);
        out.push(' ');
        num(out, t.yx, lin);
        out.push(' ');
        num(out, t.xy, lin);
        out.push(' ');
        num(out, t.yy, lin);
        out.push(' ');
        num(out, t.dx, dec);
        out.push(' ');
        num(out, t.dy, dec);
        out.append(")\"");
    }
    assert(out@ =~= old(out)@ + transform_text(t, dec as nat));
}

/// A point in path data.
pub open spec fn point_text(p: Point, dec: nat) -> Seq<char> {
    num_text(p.x, dec) + seq![' '] + num_text(p.y, dec)
}

/// One step of path data.
pub open spec fn step_text(el: PathEl, dec: nat) -> Seq<char> {
    match el {
        PathEl::MoveTo(p) => seq!['M'] + point_text(p, dec),
        PathEl::LineTo(p) => seq!['L'] + point_text(p, dec),
        PathEl::QuadTo(a, p) => seq!['Q'] + point_text(a, dec) + seq![' '] + point_text(p, dec),
        PathEl::CurveTo(a, b, p) => seq!['C'] + point_text(a, dec) + seq![' '] + point_text(b, dec)
            + seq![' '] + point_text(p, dec),
        PathEl::ClosePath => seq!['Z'],
    }
}

/// The first `n` steps of a path as path data.
pub open spec fn steps_text(path: Seq<PathEl>, n: nat, dec: nat) -> Seq<char>
    decreases n,
{
    if n == 0 {
        seq![]
    } else {
        steps_text(path, (n - 1) as nat, dec) + step_text(path[n - 1], dec)
    }
}

/// A path as path data.
pub open spec fn path_text(path: Seq<PathEl>, dec: nat) -> Seq<char> {
    steps_text(path, path.len(), dec)
}

fn push_point(out: &mut String, p: Point, dec: u8)
    ensures
        final(out)@ == old(out)@ + point_text(p, dec as nat),
{
    num(out, p.x, dec);
    out.push(' ');
    num(out, p.y, dec);
    assert(out@ =~= old(out)@ + point_text(p, dec as nat));
}

/// `path` as path data.
pub fn to_d(path: &Path, dec: u8) -> (out: String)
    ensures
        out@ == path_text(path@, dec as nat),
{
    let mut out = String::new();
    let mut i: usize = 0;
    while i < path.elements.len()
        invariant
            i <= path.elements@.len(),
            out@ == steps_text(path@, i as nat, dec as nat),
        decreases path.elements@.len() - i,
    {
        let ghost before = out@;
        match path.elements[i] {
            PathEl::MoveTo(p) => {
                out.push('M');
                push_point(&mut out, p, dec);
            },
            PathEl::LineTo(p) => {
                out.push('L');
                push_point(&mut out, p, dec);
            },
            PathEl::QuadTo(a, p) => {
                out.push('Q');
                push_point(&mut out, a, dec);
                out.push(' ');
                push_point(&mut out, p, dec);
            },
            PathEl::CurveTo(a, b, p) => {
                out.push('C');
                push_point(&mut out, a, dec);
                out.push(' ');
                push_point(&mut out, b, dec);
                out.push(' ');
                push_point(&mut out, p, dec);
            },
            PathEl::ClosePath => out.push('Z'),
        }
        assert(out@ =~= before + step_text(path@[i as int], dec as nat));
        i = i + 1;
    }
    out
}

} // verus!
