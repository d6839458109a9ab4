//! Text that comes from outside ready to stand in markup, held to it.

use vstd::prelude::*;

use super::markup::{
    attributes, balanced, balanced_at, bracketless, completes, element_name, lemma_balanced_joined,
    lemma_content_is_balanced, lemma_element_at, lemma_empty_element_at,
    lemma_empty_element_is_balanced, lemma_listed_joined, listed,
};
use super::paint::{element_of, kind_element, DefKind};
use super::refs::{
    at, calm, holds, id_in, is_use, lemma_calm_makes_no_reference, odd, reference_at, shifted,
};
use crate::text::{chars_of, lemma_append, lemma_append_nothing};

verus! {

/// True when a text holds no bracket, nothing that could be taken for a part
/// of a reference, and gives no id, which is the scene's to give.
pub open spec fn harmless(s: Seq<char>) -> bool {
    bracketless(s) && calm(s) && !holds(s, " id=\""@)
}

/// Whether a text holds no bracket and nothing that could be taken for a part
/// of a reference.
fn is_calm(chars: &Vec<char>) -> (r: bool)
    ensures
        r == (bracketless(chars@) && calm(chars@)),
{
    let ghost s = chars@;
    let mut i: usize = 0;
    if chars.len() > 0 && chars[0] == '#' {
        return false;
    }
    while i < chars.len()
        invariant
            i <= chars@.len(),
            chars@ == s,
            s.len() > 0 ==> s[0] != '#',
            forall|j: int| 0 <= j < i ==> #[trigger] s[j] != '<' && s[j] != '>',
            forall|j: int|
                0 <= j < i && j + 1 < s.len() ==> !(#[trigger] s[j] == '(' && s[j + 1] == '#'),
        decreases chars@.len() - i,
    {
        let c = chars[i];
        if c == '<' || c == '>' {
            assert(s[i as int] == c);
            return false;
        }
        if c == '(' && chars.len() - i > 1 && chars[i + 1] == '#' {
            assert(s[i as int] == '(' && s[i + 1] == '#');
            return false;
        }
        i = i + 1;
    }
    true
}

/// True when a text can stand as the attributes of a tag: it is harmless, all
/// its values end, and it is empty or starts with a space and ends with a
/// quote.
pub open spec fn listable(s: Seq<char>) -> bool {
    &&& harmless(s)
    &&& !odd(s)
    &&& s.len() > 0 ==> s[0] == ' ' && s.last() == '"'
}

/// True when a text can stand as a rule of a stylesheet: it is harmless and
/// starts as a rule does.
pub open spec fn rule_ready(s: Seq<char>) -> bool {
    harmless(s) && s.len() > 0 && s[0] == '@'
}

/// Whether a text holds an odd number of quotes.
fn is_odd(chars: &Vec<char>) -> (r: bool)
    ensures
        r == odd(chars@),
{
    let mut r = false;
    let mut i: usize = 0;
    assert(chars@.take(0) =~= Seq::<char>::empty());
    while i < chars.len()
        invariant
            i <= chars@.len(),
            r == odd(chars@.take(i as int)),
        decreases chars@.len() - i,
    {
        assert(chars@.take(i + 1).drop_last() =~= chars@.take(i as int));
        r = r != (chars[i] == '"');
        i = i + 1;
    }
    assert(chars@.take(i as int) =~= chars@);
    r
}

/// Whether an id is given somewhere in a text.
fn gives_id(chars: &Vec<char>) -> (r: bool)
    ensures
        r == holds(chars@, " id=\""@),
{
    proof {
        reveal_strlit(" id=\"");
    }
    let mut i: usize = 0;
    while i < chars.len() && chars.len() - i >= 5
        invariant
            i <= chars@.len(),
            " id=\""@ == seq![' ', 'i', 'd', '=', '"'],
            forall|j: int| 0 <= j < i ==> !(#[trigger] at(chars@, j, " id=\""@)),
        decreases chars@.len() - i,
    {
        let ghost here = chars@.subrange(i as int, i + 5);
        if chars[i] == ' ' && chars[i + 1] == 'i' && chars[i + 2] == 'd' && chars[i + 3] == '='
            && chars[i + 4] == '"' {
            assert(here =~= " id=\""@);
            assert(at(chars@, i as int, " id=\""@));
            return true;
        }
        proof {
            if at(chars@, i as int, " id=\""@) {
                assert(here[0] == ' ' && here[1] == 'i' && here[2] == 'd' && here[3] == '='
                    && here[4] == '"');
            }
        }
        i = i + 1;
    }
    false
}

/// A list of attributes as text, each after a space and with its value in
/// quotes, that refers to nothing and gives no id.
#[derive(Debug)]
pub struct Attributes {
    text: String,
}

impl View for Attributes {
    type V = Seq<char>;

    closed spec fn view(&self) -> Seq<char> {
        self.text@
    }
}

impl Attributes {
    #[verifier::type_invariant]
    spec fn ready(self) -> bool {
        listable(self.text@)
    }

    /// The attributes in `text`, when it can stand as some.
    pub fn new(text: &str) -> (r: Option<Attributes>)
        ensures
            match r {
                Some(a) => listable(text@) && a@ == text@,
                None => !listable(text@),
            },
    {
        let chars = chars_of(text);
        let n = chars.len();
        if !is_calm(&chars) || gives_id(&chars) || is_odd(&chars) {
            return None;
        }
        if n > 0 && (chars[0] != ' ' || chars[n - 1] != '"') {
            return None;
        }
        Some(Attributes { text: text.to_owned() })
    }

    /// The attributes as text.
    pub fn as_str(&self) -> (r: &str)
        ensures
            r@ == self@,
            listable(r@),
    {
        proof {
            use_type_invariant(self);
        }
        self.text.as_str()
    }
}

/// A stylesheet rule that can stand in a document.
#[derive(Debug)]
pub struct FaceRule {
    text: String,
}

impl View for FaceRule {
    type V = Seq<char>;

    closed spec fn view(&self) -> Seq<char> {
        self.text@
    }
}

impl FaceRule {
    #[verifier::type_invariant]
    spec fn ready(self) -> bool {
        rule_ready(self.text@)
    }

    /// The rule in `text`, when it can stand in a document.
    pub fn new(text: &str) -> (r: Option<FaceRule>)
        ensures
            match r {
                Some(rule) => rule_ready(text@) && rule@ == text@,
                None => !rule_ready(text@),
            },
    {
        let chars = chars_of(text);
        if chars.len() > 0 && chars[0] == '@' && is_calm(&chars) && !gives_id(&chars) {
            Some(FaceRule { text: text.to_owned() })
        } else {
            None
        }
    }

    /// The rule as text.
    pub fn as_str(&self) -> (r: &str)
        ensures
            r@ == self@,
            rule_ready(r@),
    {
        proof {
            use_type_invariant(self);
        }
        self.text.as_str()
    }
}

/// The first `n` stops of a gradient.
pub open spec fn stops_text(stops: Seq<Attributes>, n: nat) -> Seq<char>
    decreases n,
{
    if n == 0 {
        seq![]
    } else {
        stops_text(stops, (n - 1) as nat) + ("<stop"@ + stops[n - 1]@ + "/>"@)
    }
}

/// A definition's element after its name and id: an empty one, or one around
/// stops.
pub open spec fn body_text(kind: DefKind, attrs: Seq<char>, stops: Seq<Attributes>) -> Seq<char> {
    if stops.len() == 0 {
        attrs + "/>"@
    } else {
        attrs + seq!['>'] + stops_text(stops, stops.len()) + ("</"@ + kind_element(kind)
            + seq!['>'])
    }
}

/// What a definition defines, less its id.
#[derive(Debug)]
pub struct DefBody {
    kind: DefKind,
    rest: String,
}

/// A definition less its id, as plain values.
#[verifier::ext_equal]
pub struct DefBodyView {
    pub kind: DefKind,
    pub rest: Seq<char>,
}

impl View for DefBody {
    type V = DefBodyView;

    closed spec fn view(&self) -> DefBodyView {
        DefBodyView { kind: self.kind, rest: self.rest@ }
    }
}

impl DefBody {
    #[verifier::type_invariant]
    spec fn ready(self) -> bool {
        completes(kind_element(self.kind), self.rest@)
    }

    /// A definition of `kind` with these attributes, and, for a gradient, one
    /// `<stop>` for each of `stops`.
    pub fn new(kind: DefKind, attrs: &Attributes, stops: &Vec<Attributes>) -> (r: DefBody)
        ensures
            r@ == (DefBodyView { kind, rest: body_text(kind, attrs@, stops@) }),
    {
        let mut rest = String::new();
        rest.append(attrs.as_str());
        proof {
            lemma_append_nothing(attrs@);
        }
        if stops.len() == 0 {
            rest.append("/>");
            proof {
                lemma_empty_body_completes(kind, attrs@);
            }
            return DefBody { kind, rest };
        }
        rest.push('>');
        assert(rest@ =~= attrs@ + seq!['>']);
        let ghost head = rest@;
        proof {
            lemma_append_nothing(head);
        }
        let mut i: usize = 0;
        while i < stops.len()
            invariant
                i <= stops@.len(),
                rest@ == head + stops_text(stops@, i as nat),
                forall|j: int| 0 <= j < i ==> listable((#[trigger] stops@[j])@),
            decreases stops@.len() - i,
        {
            let ghost so_far = stops_text(stops@, i as nat);
            rest.append("<stop");
            rest.append(stops[i].as_str());
            rest.append("/>");
            proof {
                let a = stops@[i as int]@;
                lemma_append(head + so_far, "<stop"@, a);
                lemma_append(head + so_far, "<stop"@ + a, "/>"@);
                lemma_append(head, so_far, "<stop"@ + a + "/>"@);
            }
            i = i + 1;
        }
        let ghost filled = rest@;
        rest.append("</");
        rest.append(element_of(kind));
        rest.push('>');
        assert(rest@ =~= filled + ("</"@ + kind_element(kind) + seq!['>']));
        proof {
            lemma_body_completes(kind, attrs@, stops@);
        }
        DefBody { kind, rest }
    }

    /// What kind of definition it is.
    pub fn kind(&self) -> (r: DefKind)
        ensures
            r == self@.kind,
    {
        self.kind
    }

    /// The element after its name and id, which completes it.
    pub fn rest(&self) -> (r: &str)
        ensures
            r@ == self@.rest,
            completes(kind_element(self@.kind), self@.rest),
    {
        proof {
            use_type_invariant(self);
        }
        self.rest.as_str()
    }
}

/// Every element that defines something has a name.
pub proof fn lemma_kinds_are_elements(kind: DefKind)
    ensures
        element_name(kind_element(kind)),
        !is_use(kind_element(kind)),
{
    reveal_strlit("clipPath");
    reveal_strlit("linearGradient");
    reveal_strlit("radialGradient");
    reveal_strlit("image");
}

proof fn lemma_listable_is_attributes(s: Seq<char>, ids: Seq<Seq<char>>)
    requires
        listable(s),
    ensures
        attributes(s, ids),
{
    reveal(listed);
    assert forall|i: int| (#[trigger] reference_at(s, i)) is None by {
        lemma_calm_makes_no_reference(s, i);
    }
    assert forall|i: int| !(#[trigger] id_in(s, i)) by {
        assert(!at(s, i, " id=\""@));
    }
}

proof fn lemma_empty_body_completes(kind: DefKind, attrs: Seq<char>)
    requires
        listable(attrs),
    ensures
        completes(kind_element(kind), attrs + "/>"@),
{
    let name = kind_element(kind);
    lemma_kinds_are_elements(kind);
    assert forall|before: Seq<char>, ids: Seq<Seq<char>>, places: Seq<int>| #[trigger] listed(
        before,
        ids,
        places,
    ) implies balanced_at(
        seq!['<'] + name + before + (attrs + "/>"@),
        ids,
        shifted(places, 1 + name.len()),
    ) by {
        lemma_listable_is_attributes(attrs, ids);
        lemma_listed_joined(before, attrs, ids, places, seq![]);
        assert(places + shifted(seq![], before.len()) =~= places);
        lemma_empty_element_at(name, before + attrs, ids, places);
        assert(seq!['<'] + name + before + (attrs + "/>"@) =~= seq!['<'] + name + (before + attrs)
            + "/>"@);
    }
}

proof fn lemma_stops_are_balanced(stops: Seq<Attributes>, n: nat, ids: Seq<Seq<char>>)
    requires
        n <= stops.len(),
        forall|j: int| 0 <= j < stops.len() ==> listable((#[trigger] stops[j])@),
    ensures
        balanced(stops_text(stops, n), ids),
    decreases n,
{
    if n == 0 {
        lemma_content_is_balanced(seq![], ids);
    } else {
        reveal_strlit("<stop");
        reveal_strlit("stop");
        let a = stops[n - 1]@;
        lemma_stops_are_balanced(stops, (n - 1) as nat, ids);
        lemma_listable_is_attributes(a, ids);
        lemma_empty_element_is_balanced("stop"@, a, ids);
        assert("<stop"@ =~= seq!['<'] + "stop"@);
        lemma_balanced_joined(
            stops_text(stops, (n - 1) as nat),
            "<stop"@ + a + "/>"@,
            ids,
        );
    }
}

proof fn lemma_body_completes(kind: DefKind, attrs: Seq<char>, stops: Seq<Attributes>)
    requires
        listable(attrs),
        forall|j: int| 0 <= j < stops.len() ==> listable((#[trigger] stops[j])@),
    ensures
        completes(
            kind_element(kind),
            attrs + seq!['>'] + stops_text(stops, stops.len()) + ("</"@ + kind_element(kind)
                + seq!['>']),
        ),
{
    let name = kind_element(kind);
    let inner = stops_text(stops, stops.len());
    let end = "</"@ + name + seq!['>'];
    let rest = attrs + seq!['>'] + inner + end;
    lemma_kinds_are_elements(kind);
    assert forall|before: Seq<char>, ids: Seq<Seq<char>>, places: Seq<int>| #[trigger] listed(
        before,
        ids,
        places,
    ) implies balanced_at(
        seq!['<'] + name + before + rest,
        ids,
        shifted(places, 1 + name.len()),
    ) by {
        lemma_listable_is_attributes(attrs, ids);
        lemma_stops_are_balanced(stops, stops.len(), ids);
        lemma_around(name, before, attrs, inner, ids, places);
        assert(seq!['<'] + name + before + rest =~= seq!['<'] + name + (before + attrs) + seq!['>']
            + inner + end);
    }
}

/// An element with more attributes, around content that gives no id.
pub proof fn lemma_around(
    name: Seq<char>,
    before: Seq<char>,
    attrs: Seq<char>,
    content: Seq<char>,
    ids: Seq<Seq<char>>,
    places: Seq<int>,
)
    requires
        element_name(name),
        !is_use(name),
        listed(before, ids, places),
        attributes(attrs, ids),
        balanced(content, ids),
    ensures
        balanced_at(
            seq!['<'] + name + (before + attrs) + seq!['>'] + content + ("</"@ + name
                + seq!['>']),
            ids,
            shifted(places, 1 + name.len()),
        ),
{
    lemma_listed_joined(before, attrs, ids, places, seq![]);
    assert(places + shifted(seq![], before.len()) =~= places);
    lemma_element_at(name, before + attrs, content, ids, places, seq![]);
    assert(shifted(places, 1 + name.len()) + shifted(
        seq![],
        2 + name.len() + (before + attrs).len(),
    ) =~= shifted(places, 1 + name.len()));
}

} // verus!
