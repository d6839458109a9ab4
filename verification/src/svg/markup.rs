//! What it means for markup to be well-formed, read off the text alone.
//!
//! The text is scanned one character at a time, keeping the stack of open
//! elements: every tag that is opened has to be closed, in order.

use vstd::prelude::*;

use super::refs::{
    at, calm, grounded, grounded_at, is_use, lemma_attribute_is_pointed, lemma_calm_joined,
    lemma_calm_makes_no_reference, lemma_content_is_grounded, lemma_grounded_at_joined,
    lemma_grounded_in_more, lemma_pattern, lemma_pointed_joined, lemma_tag_is_grounded, names_id,
    opens_value, pointed, quoteless, reference_at, shifted, uses_one, value_points,
};
use crate::fixed::{lemma_num_text_is_plain, num_text, Fixed};
use crate::text::{decimal_text, lemma_decimal_text_is_digits};

verus! {

/// Where a scan stands: the open elements, outermost first; the tag it is
/// inside of, if any; and whether everything so far was in order.
#[verifier::ext_equal]
pub struct Scan {
    pub open: Seq<Seq<char>>,
    pub tag: Option<Seq<char>>,
    pub sound: bool,
}

/// Between tags, with these elements open.
pub open spec fn outside(open: Seq<Seq<char>>) -> Scan {
    Scan { open, tag: None, sound: true }
}

/// Inside a tag that reads `tag` so far.
pub open spec fn inside(open: Seq<Seq<char>>, tag: Seq<char>) -> Scan {
    Scan { open, tag: Some(tag), sound: true }
}

/// What precedes the first space from `i` on.
pub open spec fn word_end(tag: Seq<char>, i: int) -> int
    decreases tag.len() - i,
{
    if i >= tag.len() || tag[i] == ' ' {
        i
    } else {
        word_end(tag, i + 1)
    }
}

/// The name of the element that a start tag opens.
pub open spec fn tag_name(tag: Seq<char>) -> Seq<char> {
    tag.take(word_end(tag, 0))
}

/// The scan after a tag: an end tag closes the innermost element, which has
/// to be its own; a start tag opens one; an empty element and a declaration
/// change nothing.
pub open spec fn tag_ended(open: Seq<Seq<char>>, tag: Seq<char>) -> Scan {
    if tag.len() == 0 {
        Scan { open, tag: None, sound: false }
    } else if tag[0] == '/' {
        if open.len() > 0 && open.last() == tag.skip(1) {
            outside(open.drop_last())
        } else {
            Scan { open, tag: None, sound: false }
        }
    } else if tag.last() == '/' || tag[0] == '!' || tag[0] == '?' {
        outside(open)
    } else {
        outside(open.push(tag_name(tag)))
    }
}

/// The scan after one more character.
pub open spec fn step(s: Scan, c: char) -> Scan {
    if !s.sound {
        s
    } else {
        match s.tag {
            None => if c == '<' {
                inside(s.open, seq![])
            } else {
                s
            },
            Some(tag) => if c == '>' {
                tag_ended(s.open, tag)
            } else if c == '<' {
                Scan { sound: false, ..s }
            } else {
                inside(s.open, tag.push(c))
            },
        }
    }
}

/// The scan after `text`.
#[verifier::opaque]
pub open spec fn scan(text: Seq<char>, s: Scan) -> Scan
    decreases text.len(),
{
    if text.len() == 0 {
        s
    } else {
        step(scan(text.drop_last(), s), text.last())
    }
}

/// True when every tag opened in `text` is closed, in order, and it ends
/// between tags.
pub open spec fn well_formed(text: Seq<char>) -> bool {
    scan(text, outside(seq![])) == outside(seq![])
}

/// Scanning two texts one after the other is scanning them joined.
pub proof fn lemma_scan_joined(a: Seq<char>, b: Seq<char>, s: Scan)
    ensures
        scan(a + b, s) == scan(b, scan(a, s)),
    decreases b.len(),
{
    reveal(scan);
    if b.len() == 0 {
        assert(a + b =~= a);
    } else {
        assert((a + b).drop_last() =~= a + b.drop_last());
        lemma_scan_joined(a, b.drop_last(), s);
    }
}

/// True when `s` holds neither of the two brackets.
pub open spec fn bracketless(s: Seq<char>) -> bool {
    forall|i: int| 0 <= i < s.len() ==> #[trigger] s[i] != '<' && s[i] != '>'
}

/// Text without brackets is content.
pub proof fn lemma_scan_content(text: Seq<char>, open: Seq<Seq<char>>)
    requires
        bracketless(text),
    ensures
        scan(text, outside(open)) == outside(open),
    decreases text.len(),
{
    reveal(scan);
    if text.len() > 0 {
        lemma_scan_content(text.drop_last(), open);
        assert(text[text.len() - 1] != '<');
    }
}

/// Text without brackets inside a tag adds to the tag.
pub proof fn lemma_scan_inside(text: Seq<char>, open: Seq<Seq<char>>, tag: Seq<char>)
    requires
        bracketless(text),
    ensures
        scan(text, inside(open, tag)) == inside(open, tag + text),
    decreases text.len(),
{
    reveal(scan);
    if text.len() == 0 {
        assert(tag + text =~= tag);
    } else {
        lemma_scan_inside(text.drop_last(), open, tag);
        let c = text[text.len() - 1];
        assert(c != '<' && c != '>');
        assert((tag + text.drop_last()).push(c) =~= tag + text);
    }
}

/// True when a text has the shape of attributes: nothing, or something that
/// starts with a space and ends with a quote, without brackets.
pub open spec fn shaped(s: Seq<char>) -> bool {
    &&& bracketless(s)
    &&& s.len() > 0 ==> s[0] == ' ' && s.last() == '"'
}

/// A list of attributes that refers to nothing but `ids` and gives ids at
/// `places`.
#[verifier::opaque]
pub open spec fn listed(s: Seq<char>, ids: Seq<Seq<char>>, places: Seq<int>) -> bool {
    shaped(s) && pointed(s, ids, places)
}

/// A list of attributes that refers to nothing but `ids` and gives no id.
pub open spec fn attributes(s: Seq<char>, ids: Seq<Seq<char>>) -> bool {
    listed(s, ids, seq![])
}

/// No attributes at all are a list of attributes.
pub proof fn lemma_no_attributes(ids: Seq<Seq<char>>)
    ensures
        attributes(seq![], ids),
{
    reveal(listed);
    reveal_strlit(" id=\"");
    let none = Seq::<char>::empty();
    assert forall|i: int| (#[trigger] reference_at(none, i)) is None by {
        lemma_calm_makes_no_reference(none, i);
    }
}

/// Two lists of attributes make one, which gives the ids of both.
pub proof fn lemma_listed_joined(
    a: Seq<char>,
    b: Seq<char>,
    ids: Seq<Seq<char>>,
    p: Seq<int>,
    q: Seq<int>,
)
    requires
        listed(a, ids, p),
        listed(b, ids, q),
    ensures
        listed(a + b, ids, p + shifted(q, a.len())),
{
    reveal(listed);
    lemma_pointed_joined(a, b, ids, p, q);
    lemma_bracketless_joined(a, b);
    let c = a + b;
    if c.len() > 0 {
        if a.len() > 0 {
            assert(c[0] == a[0]);
        } else {
            assert(c =~= b);
        }
        if b.len() > 0 {
            assert(c.last() == b.last());
        } else {
            assert(c =~= a);
        }
    }
}

/// Two lists of attributes make one.
pub proof fn lemma_attributes_joined(a: Seq<char>, b: Seq<char>, ids: Seq<Seq<char>>)
    requires
        attributes(a, ids),
        attributes(b, ids),
    ensures
        attributes(a + b, ids),
{
    lemma_listed_joined(a, b, ids, seq![], seq![]);
    assert(Seq::<int>::empty() + shifted(seq![], a.len()) =~= seq![]);
}

/// True when `s` holds no bracket, no quote, and nothing that could be taken
/// for a part of a reference.
pub open spec fn quiet(s: Seq<char>) -> bool {
    bracketless(s) && quoteless(s) && calm(s)
}

/// Two quiet texts make one.
pub proof fn lemma_quiet_joined(a: Seq<char>, b: Seq<char>)
    requires
        quiet(a),
        quiet(b),
    ensures
        quiet(a + b),
{
    lemma_bracketless_joined(a, b);
    lemma_calm_joined(a, b);
    let c = a + b;
    assert forall|i: int| 0 <= i < c.len() implies #[trigger] c[i] != '"' by {
        if i < a.len() {
            assert(c[i] == a[i]);
        } else {
            assert(c[i] == b[i - a.len()]);
        }
    }
}

/// Two texts without brackets make one.
pub proof fn lemma_bracketless_joined(a: Seq<char>, b: Seq<char>)
    requires
        bracketless(a),
        bracketless(b),
    ensures
        bracketless(a + b),
{
    let c = a + b;
    assert forall|i: int| 0 <= i < c.len() implies #[trigger] c[i] != '<' && c[i] != '>' by {
        if i < a.len() {
            assert(c[i] == a[i]);
        } else {
            assert(c[i] == b[i - a.len()]);
        }
    }
}

/// One attribute: its name with the opening quote, a quiet value, and the
/// closing quote.
pub proof fn lemma_attribute(name: Seq<char>, value: Seq<char>, ids: Seq<Seq<char>>)
    requires
        opens_value(name),
        bracketless(name),
        !names_id(name),
        quiet(value),
    ensures
        attributes(name + value + seq!['"'], ids),
{
    reveal_strlit("url(#");
    if at(value, 0, "url(#"@) {
        lemma_pattern(value, 0, "url(#"@, 3);
        lemma_pattern(value, 0, "url(#"@, 4);
        assert(value[3] == '(' && value[4] == '#');
    }
    lemma_text_attribute(name, value, ids);
}

/// True when `s` is one attribute, whose value starts after `k`, and neither
/// refers to anything nor gives an id.
pub open spec fn one_attribute(s: Seq<char>, k: int) -> bool {
    &&& 0 < k < s.len() - 1
    &&& s[0] == ' ' && s[k] == '"' && s.last() == '"'
    &&& bracketless(s)
    &&& forall|m: int| 0 < m < k ==> #[trigger] s[m] != ' ' && s[m] != '"'
    &&& forall|m: int| k < m < s.len() - 1 ==> #[trigger] s[m] != '"' && s[m] != '#'
    &&& !(k == 4 && s[1] == 'i' && s[2] == 'd')
}

/// One attribute is a list of attributes.
pub proof fn lemma_one_attribute(s: Seq<char>, k: int, ids: Seq<Seq<char>>)
    requires
        one_attribute(s, k),
    ensures
        attributes(s, ids),
{
    let name = s.take(k + 1);
    let value = s.subrange(k + 1, s.len() - 1);
    assert(s =~= name + value + seq!['"']);
    assert forall|m: int| 0 <= m < name.len() implies #[trigger] name[m] == s[m] by {}
    assert forall|m: int| 0 <= m < value.len() implies #[trigger] value[m] == s[m + k + 1] by {}
    assert forall|m: int| 0 < m < name.len() implies #[trigger] name[m] != ' ' by {
        assert(name[m] == s[m]);
    }
    let front = name.drop_last();
    assert forall|m: int| 0 <= m < front.len() implies #[trigger] front[m] != '"' by {
        assert(front[m] == s[m]);
    }
    assert(quiet(value)) by {
        assert forall|m: int| 0 <= m < value.len() implies #[trigger] value[m] != '"' && value[m]
            != '#' && value[m] != '<' && value[m] != '>' by {
            assert(value[m] == s[m + k + 1]);
        }
    }
    lemma_attribute(name, value, ids);
}

/// One attribute whose value may say anything, escaped, as long as its name
/// is none that refers. It gives an id when that is its name.
pub proof fn lemma_listed_attribute(name: Seq<char>, value: Seq<char>, ids: Seq<Seq<char>>)
    requires
        opens_value(name),
        bracketless(name),
        bracketless(value),
        quoteless(value),
        value_points(value, ids) || name != " fill=\""@ && name != " stroke=\""@ && name
            != " clip-path=\""@,
    ensures
        listed(
            name + value + seq!['"'],
            ids,
            if names_id(name) {
                seq![0int]
            } else {
                seq![]
            },
        ),
{
    reveal(listed);
    lemma_attribute_is_pointed(name, value, ids);
    lemma_bracketless_joined(name, value);
    lemma_bracketless_joined(name + value, seq!['"']);
    let s = name + value + seq!['"'];
    assert(s[0] == name[0]);
}

/// One attribute other than an id, whose value may say anything, escaped, as
/// long as its name is none that refers.
pub proof fn lemma_text_attribute(name: Seq<char>, value: Seq<char>, ids: Seq<Seq<char>>)
    requires
        opens_value(name),
        bracketless(name),
        !names_id(name),
        bracketless(value),
        quoteless(value),
        value_points(value, ids) || name != " fill=\""@ && name != " stroke=\""@ && name
            != " clip-path=\""@,
    ensures
        attributes(name + value + seq!['"'], ids),
{
    lemma_listed_attribute(name, value, ids);
}

/// The name of an element: not empty, and without anything that ends it or
/// makes it something else.
pub open spec fn element_name(name: Seq<char>) -> bool {
    &&& name.len() > 0
    &&& bracketless(name)
    &&& quoteless(name)
    &&& name[0] != '/' && name[0] != '!' && name[0] != '?'
    &&& name.last() != '/'
    &&& forall|i: int| 0 <= i < name.len() ==> #[trigger] name[i] != ' '
}

proof fn lemma_word_ends_at_space(tag: Seq<char>, n: int, i: int)
    requires
        0 <= i <= n <= tag.len(),
        forall|j: int| 0 <= j < n ==> #[trigger] tag[j] != ' ',
        n == tag.len() || tag[n] == ' ',
    ensures
        word_end(tag, i) == n,
    decreases n - i,
{
    if i < n {
        lemma_word_ends_at_space(tag, n, i + 1);
    }
}

/// The start of a tag: its bracket, the name, and a list of attributes.
pub proof fn lemma_scan_tag_start(
    name: Seq<char>,
    attrs: Seq<char>,
    open: Seq<Seq<char>>,
)
    requires
        element_name(name),
        shaped(attrs),
    ensures
        scan(seq!['<'] + name + attrs, outside(open)) == inside(open, name + attrs),
        tag_name(name + attrs) == name,
{
    let s = seq!['<'] + name + attrs;
    lemma_bracketless_joined(name, attrs);
    assert(s =~= seq!['<'] + (name + attrs));
    lemma_scan_joined(seq!['<'], name + attrs, outside(open));
    lemma_scan_start_bracket(open);
    lemma_scan_inside(name + attrs, open, seq![]);
    assert(Seq::<char>::empty() + (name + attrs) =~= name + attrs);
    let tag = name + attrs;
    assert forall|j: int| 0 <= j < name.len() implies #[trigger] tag[j] != ' ' by {
        assert(tag[j] == name[j]);
    }
    if attrs.len() > 0 {
        assert(tag[name.len() as int] == attrs[0]);
    }
    lemma_word_ends_at_space(tag, name.len() as int, 0);
    assert(tag.take(name.len() as int) =~= name);
}

/// The bracket that starts a tag.
pub proof fn lemma_scan_start_bracket(open: Seq<Seq<char>>)
    ensures
        scan(seq!['<'], outside(open)) == inside(open, seq![]),
{
    reveal(scan);
    let s = seq!['<'];
    assert(s.drop_last() =~= Seq::<char>::empty());
    assert(scan(s.drop_last(), outside(open)) == outside(open));
}

/// The bracket that ends a tag.
pub proof fn lemma_scan_end_bracket(open: Seq<Seq<char>>, tag: Seq<char>)
    ensures
        scan(seq!['>'], inside(open, tag)) == tag_ended(open, tag),
{
    reveal(scan);
    let s = seq!['>'];
    assert(s.drop_last() =~= Seq::<char>::empty());
    assert(scan(s.drop_last(), inside(open, tag)) == inside(open, tag));
}

/// A start tag opens its element.
pub proof fn lemma_scan_start_tag(
    name: Seq<char>,
    attrs: Seq<char>,
    open: Seq<Seq<char>>,
    ids: Seq<Seq<char>>,
)
    requires
        element_name(name),
        attributes(attrs, ids),
    ensures
        scan(seq!['<'] + name + attrs + seq!['>'], outside(open)) == outside(open.push(name)),
{
    reveal(listed);
    lemma_scan_start(name, attrs, open);
}

proof fn lemma_scan_start(name: Seq<char>, attrs: Seq<char>, open: Seq<Seq<char>>)
    requires
        element_name(name),
        shaped(attrs),
    ensures
        scan(seq!['<'] + name + attrs + seq!['>'], outside(open)) == outside(open.push(name)),
{
    lemma_scan_tag_start(name, attrs, open);
    lemma_scan_joined(seq!['<'] + name + attrs, seq!['>'], outside(open));
    lemma_scan_end_bracket(open, name + attrs);
    let tag = name + attrs;
    assert(tag[0] == name[0]);
    if attrs.len() > 0 {
        assert(tag.last() == attrs.last());
    } else {
        assert(tag =~= name);
    }
}

/// An empty element leaves the open elements as they were.
pub proof fn lemma_scan_empty_element(
    name: Seq<char>,
    attrs: Seq<char>,
    open: Seq<Seq<char>>,
)
    requires
        element_name(name),
        shaped(attrs),
    ensures
        scan(seq!['<'] + name + attrs + "/>"@, outside(open)) == outside(open),
{
    reveal_strlit("/>");
    lemma_scan_tag_start(name, attrs, open);
    lemma_scan_joined(seq!['<'] + name + attrs, "/>"@, outside(open));
    let tag = name + attrs;
    assert("/>"@ =~= seq!['/'] + seq!['>']);
    lemma_scan_joined(seq!['/'], seq!['>'], inside(open, tag));
    lemma_scan_inside(seq!['/'], open, tag);
    lemma_scan_end_bracket(open, tag + seq!['/']);
    assert((tag + seq!['/'])[0] == name[0]);
}

/// An end tag closes the innermost element, when it is its own.
pub proof fn lemma_scan_end_tag(name: Seq<char>, open: Seq<Seq<char>>)
    requires
        element_name(name),
    ensures
        scan("</"@ + name + seq!['>'], outside(open.push(name))) == outside(open),
{
    reveal_strlit("</");
    let s = outside(open.push(name));
    assert("</"@ =~= seq!['<'] + seq!['/']);
    lemma_scan_joined("</"@ + name, seq!['>'], s);
    lemma_scan_joined("</"@, name, s);
    lemma_scan_joined(seq!['<'], seq!['/'], s);
    lemma_scan_start_bracket(open.push(name));
    lemma_scan_inside(seq!['/'], open.push(name), seq![]);
    assert(Seq::<char>::empty() + seq!['/'] =~= seq!['/']);
    lemma_scan_inside(name, open.push(name), seq!['/']);
    lemma_scan_end_bracket(open.push(name), seq!['/'] + name);
    assert((seq!['/'] + name).skip(1) =~= name);
    assert(open.push(name).drop_last() =~= open);
}

/// True when a text, wherever between tags it stands, leaves the open
/// elements as they were, refers to nothing but `ids`, and gives ids at
/// `places`.
pub open spec fn balanced_at(text: Seq<char>, ids: Seq<Seq<char>>, places: Seq<int>) -> bool {
    &&& forall|open: Seq<Seq<char>>| #[trigger] scan(text, outside(open)) == outside(open)
    &&& grounded_at(text, ids, places)
}

/// True when a text, wherever between tags it stands, leaves the open
/// elements as they were, refers to nothing but `ids`, and gives no id.
pub open spec fn balanced(text: Seq<char>, ids: Seq<Seq<char>>) -> bool {
    balanced_at(text, ids, seq![])
}

/// A balanced text is balanced with more to refer to.
pub proof fn lemma_balanced_in_more(text: Seq<char>, ids: Seq<Seq<char>>, more: Seq<Seq<char>>)
    requires
        balanced(text, ids),
        forall|x: Seq<char>| ids.contains(x) ==> #[trigger] more.contains(x),
    ensures
        balanced(text, more),
{
    lemma_grounded_in_more(text, ids, more, seq![]);
}

/// Two balanced texts make one, which gives the ids of both.
pub proof fn lemma_balanced_at_joined(
    a: Seq<char>,
    b: Seq<char>,
    ids: Seq<Seq<char>>,
    p: Seq<int>,
    q: Seq<int>,
)
    requires
        balanced_at(a, ids, p),
        balanced_at(b, ids, q),
    ensures
        balanced_at(a + b, ids, p + shifted(q, a.len())),
{
    lemma_grounded_at_joined(a, b, ids, p, q);
    assert forall|open: Seq<Seq<char>>| #[trigger] scan(a + b, outside(open)) == outside(open) by {
        lemma_scan_joined(a, b, outside(open));
    }
}

/// Two balanced texts make one.
pub proof fn lemma_balanced_joined(a: Seq<char>, b: Seq<char>, ids: Seq<Seq<char>>)
    requires
        balanced(a, ids),
        balanced(b, ids),
    ensures
        balanced(a + b, ids),
{
    lemma_balanced_at_joined(a, b, ids, seq![], seq![]);
    assert(Seq::<int>::empty() + shifted(seq![], a.len()) =~= seq![]);
}

/// A balanced text, after anything that leaves elements open, leaves the
/// same ones open.
pub proof fn lemma_scan_balanced(
    a: Seq<char>,
    b: Seq<char>,
    s: Scan,
    open: Seq<Seq<char>>,
    ids: Seq<Seq<char>>,
    places: Seq<int>,
)
    requires
        scan(a, s) == outside(open),
        grounded_at(a, ids, places),
        balanced(b, ids),
    ensures
        scan(a + b, s) == outside(open),
        grounded_at(a + b, ids, places),
{
    lemma_grounded_at_joined(a, b, ids, places, seq![]);
    assert(places + shifted(seq![], a.len()) =~= places);
    lemma_scan_joined(a, b, s);
    assert(scan(b, outside(open)) == outside(open));
}

/// Text without brackets is balanced.
pub proof fn lemma_content_is_balanced(text: Seq<char>, ids: Seq<Seq<char>>)
    requires
        bracketless(text),
    ensures
        balanced(text, ids),
{
    lemma_content_is_grounded(text, ids);
    assert forall|open: Seq<Seq<char>>| #[trigger] scan(text, outside(open)) == outside(open) by {
        lemma_scan_content(text, open);
    }
}

/// A start tag refers to what its attributes do.
pub proof fn lemma_start_tag_is_grounded(name: Seq<char>, attrs: Seq<char>, ids: Seq<Seq<char>>)
    requires
        element_name(name),
        !is_use(name),
        attributes(attrs, ids),
    ensures
        grounded(seq!['<'] + name + attrs + seq!['>'], ids),
{
    reveal(listed);
    lemma_tag_is_grounded(name, attrs, seq!['>'], ids, seq![]);
    assert(shifted(seq![], 1 + name.len()) =~= seq![]);
}

/// An end tag refers to nothing.
pub proof fn lemma_end_tag_is_grounded(name: Seq<char>, ids: Seq<Seq<char>>)
    requires
        element_name(name),
    ensures
        grounded("</"@ + name + seq!['>'], ids),
{
    reveal_strlit("</");
    let slashed = seq!['/'] + name;
    lemma_no_attributes(ids);
    reveal(listed);
    assert forall|m: int| 0 <= m < slashed.len() implies #[trigger] slashed[m] != ' ' && slashed[m]
        != '"' && slashed[m] != '<' && slashed[m] != '>' by {
        if m > 0 {
            assert(slashed[m] == name[m - 1]);
        }
    }
    assert(slashed[0] == '/');
    lemma_tag_is_grounded(slashed, seq![], seq!['>'], ids, seq![]);
    assert(shifted(seq![], 1 + slashed.len()) =~= seq![]);
    assert("</"@ + name + seq!['>'] =~= seq!['<'] + slashed + seq![] + seq!['>']);
}

/// An empty element is balanced, and gives the ids of its attributes.
pub proof fn lemma_empty_element_at(
    name: Seq<char>,
    attrs: Seq<char>,
    ids: Seq<Seq<char>>,
    places: Seq<int>,
)
    requires
        element_name(name),
        is_use(name) ==> uses_one(attrs, ids),
        listed(attrs, ids, places),
    ensures
        balanced_at(seq!['<'] + name + attrs + "/>"@, ids, shifted(places, 1 + name.len())),
{
    reveal(listed);
    let text = seq!['<'] + name + attrs + "/>"@;
    lemma_tag_is_grounded(name, attrs, "/>"@, ids, places);
    assert forall|open: Seq<Seq<char>>| #[trigger] scan(text, outside(open)) == outside(open) by {
        lemma_scan_empty_element(name, attrs, open);
    }
}

/// An empty element is balanced.
pub proof fn lemma_empty_element_is_balanced(
    name: Seq<char>,
    attrs: Seq<char>,
    ids: Seq<Seq<char>>,
)
    requires
        element_name(name),
        is_use(name) ==> uses_one(attrs, ids),
        attributes(attrs, ids),
    ensures
        balanced(seq!['<'] + name + attrs + "/>"@, ids),
{
    lemma_empty_element_at(name, attrs, ids, seq![]);
    assert(shifted(seq![], 1 + name.len()) =~= seq![]);
}

/// An element around balanced content is balanced, and gives the ids of its
/// attributes and of its content.
pub proof fn lemma_element_at(
    name: Seq<char>,
    attrs: Seq<char>,
    content: Seq<char>,
    ids: Seq<Seq<char>>,
    p: Seq<int>,
    q: Seq<int>,
)
    requires
        element_name(name),
        !is_use(name),
        listed(attrs, ids, p),
        balanced_at(content, ids, q),
    ensures
        balanced_at(
            seq!['<'] + name + attrs + seq!['>'] + content + ("</"@ + name + seq!['>']),
            ids,
            shifted(p, 1 + name.len()) + shifted(q, 2 + name.len() + attrs.len()),
        ),
{
    let start = seq!['<'] + name + attrs + seq!['>'];
    let end = "</"@ + name + seq!['>'];
    let text = start + content + end;
    assert(grounded_at(start, ids, shifted(p, 1 + name.len()))) by {
        reveal(listed);
        lemma_tag_is_grounded(name, attrs, seq!['>'], ids, p);
    }
    lemma_end_tag_is_grounded(name, ids);
    lemma_grounded_at_joined(start, content, ids, shifted(p, 1 + name.len()), q);
    assert(start.len() == 2 + name.len() + attrs.len());
    let places = shifted(p, 1 + name.len()) + shifted(q, 2 + name.len() + attrs.len());
    lemma_grounded_at_joined(start + content, end, ids, places, seq![]);
    assert(places + shifted(seq![], (start + content).len()) =~= places);
    assert forall|open: Seq<Seq<char>>| #[trigger] scan(text, outside(open)) == outside(open) by {
        reveal(listed);
        lemma_scan_joined(start + content, end, outside(open));
        lemma_scan_joined(start, content, outside(open));
        lemma_scan_start(name, attrs, open);
        assert(scan(content, outside(open.push(name))) == outside(open.push(name)));
        lemma_scan_end_tag(name, open);
    }
}

/// An element with balanced content is balanced.
pub proof fn lemma_element_is_balanced(
    name: Seq<char>,
    attrs: Seq<char>,
    content: Seq<char>,
    ids: Seq<Seq<char>>,
)
    requires
        element_name(name),
        !is_use(name),
        attributes(attrs, ids),
        balanced(content, ids),
    ensures
        balanced(seq!['<'] + name + attrs + seq!['>'] + content + ("</"@ + name + seq!['>']), ids),
{
    lemma_element_at(name, attrs, content, ids, seq![], seq![]);
    assert(shifted(seq![], 1 + name.len()) + shifted(seq![], 2 + name.len() + attrs.len())
        =~= seq![]);
}

/// True when what follows the name and id of a definition completes a
/// balanced element that gives no other id, whatever attributes stand
/// between.
pub open spec fn completes(element: Seq<char>, rest: Seq<char>) -> bool {
    forall|attrs: Seq<char>, ids: Seq<Seq<char>>, places: Seq<int>| #[trigger]
        listed(attrs, ids, places) ==> balanced_at(
            seq!['<'] + element + attrs + rest,
            ids,
            shifted(places, 1 + element.len()),
        )
}

/// A written number is quiet.
pub proof fn lemma_number_is_quiet(x: Fixed, dec: nat)
    ensures
        quiet(num_text(x, dec)),
{
    lemma_num_text_is_plain(x, dec);
    let s = num_text(x, dec);
    assert forall|i: int| 0 <= i < s.len() implies #[trigger] s[i] != '<' && s[i] != '>' && s[i]
        != '(' && s[i] != '#' && s[i] != '"' by {
        assert(crate::fixed::number_char(s[i]));
    }
}

/// A decimal count is quiet.
pub proof fn lemma_decimal_is_quiet(n: nat)
    ensures
        quiet(decimal_text(n)),
{
    lemma_decimal_text_is_digits(n);
    let s = decimal_text(n);
    assert forall|i: int| 0 <= i < s.len() implies #[trigger] s[i] != '(' && s[i] != '#' && s[i]
        != '"' by {}
}

} // verus!
