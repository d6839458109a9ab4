//! The references a document makes, read off the text alone.
//!
//! A paint or a clip refers to a definition by `url(#`, the id and a closing
//! parenthesis, as the value of one of three attributes of a tag; an image is
//! used by a number sign and the id, as the first attribute of its element.
//! An id is given by the attribute of that name, outside of any other value.

use vstd::prelude::*;

verus! {

/// True when `pattern` stands in `s` at `i`.
pub open spec fn at(s: Seq<char>, i: int, pattern: Seq<char>) -> bool {
    0 <= i && i + pattern.len() <= s.len() && s.subrange(i, i + pattern.len()) == pattern
}

/// True when `pattern` stands somewhere in `s`.
pub open spec fn holds(s: Seq<char>, pattern: Seq<char>) -> bool {
    exists|i: int| #[trigger] at(s, i, pattern)
}

/// Where the id starts that an attribute standing at `i` refers to: a fill, a
/// stroke or a clip.
pub open spec fn reference_at(s: Seq<char>, i: int) -> Option<int> {
    if at(s, i, " fill=\"url(#"@) {
        Some(i + 12)
    } else if at(s, i, " stroke=\"url(#"@) {
        Some(i + 14)
    } else if at(s, i, " clip-path=\"url(#"@) {
        Some(i + 17)
    } else {
        None
    }
}

/// True when the parenthesis at `k` is the first from `j` on.
pub open spec fn closes(s: Seq<char>, j: int, k: int) -> bool {
    &&& j <= k < s.len()
    &&& s[k] == ')'
    &&& forall|m: int| j <= m < k ==> #[trigger] s[m] != ')'
}

/// The first closing parenthesis from `i` on, or the end.
pub open spec fn first_close(s: Seq<char>, i: int) -> int
    decreases s.len() - i,
{
    if i >= s.len() || s[i] == ')' {
        i
    } else {
        first_close(s, i + 1)
    }
}

/// What a reference to `id` is read as: all of it, unless it holds a closing
/// parenthesis.
pub open spec fn read_as(id: Seq<char>) -> Seq<char> {
    id.take(first_close(id, 0))
}

/// Where the first closing parenthesis stands.
pub proof fn lemma_first_close(s: Seq<char>, i: int)
    requires
        0 <= i <= s.len(),
    ensures
        i <= first_close(s, i) <= s.len(),
        first_close(s, i) < s.len() ==> s[first_close(s, i)] == ')',
        forall|m: int| i <= m < first_close(s, i) ==> #[trigger] s[m] != ')',
    decreases s.len() - i,
{
    if i < s.len() && s[i] != ')' {
        lemma_first_close(s, i + 1);
    }
}

/// True when what stands from `j` to the next closing parenthesis is one of
/// `ids`.
pub open spec fn names_one(s: Seq<char>, j: int, ids: Seq<Seq<char>>) -> bool {
    exists|k: int| #[trigger] closes(s, j, k) && ids.contains(s.subrange(j, k))
}

/// True when what stands from `j` to the next quote is one of `ids`.
pub open spec fn quotes_one(s: Seq<char>, j: int, ids: Seq<Seq<char>>) -> bool {
    exists|x: Seq<char>| ids.contains(x) && quoteless(x) && #[trigger] at(s, j, x.push('"'))
}

/// True when `s` holds an odd number of quotes: what follows is inside a
/// value.
pub open spec fn odd(s: Seq<char>) -> bool
    decreases s.len(),
{
    if s.len() == 0 {
        false
    } else {
        odd(s.drop_last()) != (s.last() == '"')
    }
}

/// True when an id is given at `i` in a list of attributes.
pub open spec fn id_in(s: Seq<char>, i: int) -> bool {
    at(s, i, " id=\""@) && !odd(s.take(i))
}

/// The same places, further on.
pub open spec fn shifted(places: Seq<int>, n: nat) -> Seq<int> {
    places.map_values(|x: int| x + n)
}

/// True when every reference in a list of attributes is to one of `ids`, all
/// its values end, and it gives ids at `places`.
pub open spec fn pointed(s: Seq<char>, ids: Seq<Seq<char>>, places: Seq<int>) -> bool {
    &&& forall|i: int| (#[trigger] reference_at(s, i)) is Some ==> names_one(
        s,
        reference_at(s, i)->0,
        ids,
    )
    &&& !odd(s)
    &&& forall|i: int| #[trigger] id_in(s, i) == places.contains(i)
}

/// True when the tag that starts at `k` has not ended before `i`.
pub open spec fn in_tag_from(s: Seq<char>, k: int, i: int) -> bool {
    &&& 0 <= k < i <= s.len()
    &&& s[k] == '<'
    &&& forall|m: int| k < m < i ==> #[trigger] s[m] != '<' && s[m] != '>'
}

/// True when `i` is inside a tag.
pub open spec fn in_tag(s: Seq<char>, i: int) -> bool {
    exists|k: int| in_tag_from(s, k, i)
}

/// True when a tag gives an id at `i`.
pub open spec fn id_at(s: Seq<char>, i: int) -> bool {
    at(s, i, " id=\""@) && exists|k: int| #[trigger] in_tag_from(s, k, i) && !odd(s.subrange(k, i))
}

/// True when the id given at `i` is `id`.
pub open spec fn gives(s: Seq<char>, i: int, id: Seq<char>) -> bool {
    quoteless(id) && at(s, i, " id=\""@ + id.push('"'))
}

/// True when every reference that a tag of `text` makes is to one of `ids`,
/// no tag is left unfinished, and ids are given at `places`.
#[verifier::opaque]
pub open spec fn grounded_at(text: Seq<char>, ids: Seq<Seq<char>>, places: Seq<int>) -> bool {
    &&& !in_tag(text, text.len() as int)
    &&& forall|i: int| (#[trigger] reference_at(text, i)) is Some && in_tag(text, i) ==> names_one(
        text,
        reference_at(text, i)->0,
        ids,
    )
    &&& forall|i: int| #[trigger]
        at(text, i, "<use href=\"#"@) ==> quotes_one(text, i + 12, ids)
    &&& forall|i: int| #[trigger] id_at(text, i) == places.contains(i)
}

/// True when every reference that a tag of `text` makes is to one of `ids`,
/// no tag is left unfinished, and no id is given.
pub open spec fn grounded(text: Seq<char>, ids: Seq<Seq<char>>) -> bool {
    grounded_at(text, ids, seq![])
}

/// Two texts hold an odd number of quotes when exactly one of them does.
pub proof fn lemma_odd_joined(a: Seq<char>, b: Seq<char>)
    ensures
        odd(a + b) == (odd(a) != odd(b)),
    decreases b.len(),
{
    if b.len() == 0 {
        assert(a + b =~= a);
    } else {
        assert((a + b).drop_last() =~= a + b.drop_last());
        assert((a + b).last() == b.last());
        lemma_odd_joined(a, b.drop_last());
    }
}

/// A text without quotes holds none.
pub proof fn lemma_quoteless_is_even(s: Seq<char>)
    requires
        quoteless(s),
    ensures
        !odd(s),
    decreases s.len(),
{
    if s.len() > 0 {
        let front = s.drop_last();
        assert forall|i: int| 0 <= i < front.len() implies #[trigger] front[i] != '"' by {
            assert(s[i] != '"');
        }
        lemma_quoteless_is_even(front);
    }
}

/// Where the places of two lists are.
pub proof fn lemma_places(p: Seq<int>, q: Seq<int>, n: nat, i: int)
    ensures
        (p + shifted(q, n)).contains(i) == (p.contains(i) || q.contains(i - n)),
        shifted(q, n).contains(i) == q.contains(i - n),
{
    let r = p + shifted(q, n);
    if p.contains(i) {
        let k = choose|k: int| 0 <= k < p.len() && p[k] == i;
        assert(r[k] == i);
    }
    if q.contains(i - n) {
        let k = choose|k: int| 0 <= k < q.len() && q[k] == i - n;
        assert(shifted(q, n)[k] == i);
        assert(r[p.len() + k] == i);
    }
    if shifted(q, n).contains(i) {
        let k = choose|k: int| 0 <= k < q.len() && shifted(q, n)[k] == i;
        assert(q[k] == i - n);
    }
    if r.contains(i) {
        let k = choose|k: int| 0 <= k < r.len() && r[k] == i;
        if k < p.len() {
            assert(p[k] == i);
        } else {
            assert(shifted(q, n)[k - p.len()] == i);
            assert(q[k - p.len()] == i - n);
        }
    }
}

/// The characters of a pattern.
pub proof fn lemma_pattern(s: Seq<char>, i: int, pattern: Seq<char>, m: int)
    requires
        at(s, i, pattern),
        0 <= m < pattern.len(),
    ensures
        s[i + m] == pattern[m],
{
    assert(s.subrange(i, i + pattern.len())[m] == s[i + m]);
}

/// Where a pattern stands in a part of a text, and only there, it stands in
/// the text.
pub proof fn lemma_at_in_part(s: Seq<char>, part: Seq<char>, off: int, i: int, p: Seq<char>)
    requires
        0 <= off <= i,
        off + part.len() <= s.len(),
        part == s.subrange(off, off + part.len()),
    ensures
        at(part, i - off, p) ==> at(s, i, p),
        at(s, i, p) && i + p.len() <= off + part.len() ==> at(part, i - off, p),
{
    if i + p.len() <= off + part.len() {
        assert(part.subrange(i - off, i - off + p.len()) =~= s.subrange(i, i + p.len()));
    }
}

/// What is quoted in a part of a text is quoted in the text.
pub proof fn lemma_quoted_in_part(
    s: Seq<char>,
    part: Seq<char>,
    off: int,
    j: int,
    ids: Seq<Seq<char>>,
)
    requires
        0 <= off <= j,
        off + part.len() <= s.len(),
        part == s.subrange(off, off + part.len()),
        quotes_one(part, j - off, ids),
    ensures
        quotes_one(s, j, ids),
{
    let x = choose|x: Seq<char>|
        ids.contains(x) && quoteless(x) && #[trigger] at(part, j - off, x.push('"'));
    lemma_at_in_part(s, part, off, j, x.push('"'));
}

/// What a reference looks like.
pub proof fn lemma_reference_shape(s: Seq<char>, i: int)
    requires
        reference_at(s, i) is Some,
    ensures
        ({
            let j = reference_at(s, i)->0;
            &&& 0 <= i && i + 12 <= j <= s.len()
            &&& s[i] == ' '
            &&& s[j - 1] == '#' && s[j - 2] == '(' && s[j - 6] == '"'
            &&& forall|m: int|
                i < m < j ==> #[trigger] s[m] != ' ' && s[m] != '<' && s[m] != '>' && s[m] != '/'
        }),
{
    reveal_strlit(" fill=\"url(#");
    reveal_strlit(" stroke=\"url(#");
    reveal_strlit(" clip-path=\"url(#");
    let j = reference_at(s, i)->0;
    let p = if at(s, i, " fill=\"url(#"@) {
        " fill=\"url(#"@
    } else if at(s, i, " stroke=\"url(#"@) {
        " stroke=\"url(#"@
    } else {
        " clip-path=\"url(#"@
    };
    assert forall|m: int| i <= m < j implies #[trigger] s[m] == p[m - i] by {
        assert(s.subrange(i, i + p.len())[m - i] == s[m]);
    }
    assert(s[i] == p[0]);
    assert(s[j - 1] == p[j - 1 - i]);
    assert(s[j - 2] == p[j - 2 - i]);
    assert(s[j - 6] == p[j - 6 - i]);
    assert forall|n: int| 0 < n < p.len() implies #[trigger] p[n] != ' ' && p[n] != '<' && p[n]
        != '>' && p[n] != '/' by {}
    assert forall|m: int| i < m < j implies #[trigger] s[m] != ' ' && s[m] != '<' && s[m] != '>'
        && s[m] != '/' by {
        assert(p[m - i] != ' ');
    }
}

/// A reference that lies in a part of a text is one of that part.
pub proof fn lemma_reference_in_part(s: Seq<char>, part: Seq<char>, off: int, i: int)
    requires
        0 <= off <= i,
        off + part.len() <= s.len(),
        part == s.subrange(off, off + part.len()),
        reference_at(s, i) is Some,
        reference_at(s, i)->0 <= off + part.len(),
    ensures
        reference_at(part, i - off) == Some(reference_at(s, i)->0 - off),
{
    reveal_strlit(" fill=\"url(#");
    reveal_strlit(" stroke=\"url(#");
    reveal_strlit(" clip-path=\"url(#");
    lemma_at_in_part(s, part, off, i, " fill=\"url(#"@);
    lemma_at_in_part(s, part, off, i, " stroke=\"url(#"@);
    lemma_at_in_part(s, part, off, i, " clip-path=\"url(#"@);
}

/// What is named in a part of a text is named in the text.
pub proof fn lemma_named_in_part(
    s: Seq<char>,
    part: Seq<char>,
    off: int,
    j: int,
    ids: Seq<Seq<char>>,
)
    requires
        0 <= off <= j,
        off + part.len() <= s.len(),
        part == s.subrange(off, off + part.len()),
        names_one(part, j - off, ids),
    ensures
        names_one(s, j, ids),
{
    let k = choose|k: int| #[trigger] closes(part, j - off, k) && ids.contains(
        part.subrange(j - off, k),
    );
    assert(s[k + off] == part[k]);
    assert forall|m: int| j <= m < k + off implies #[trigger] s[m] != ')' by {
        assert(part[m - off] == s[m]);
    }
    assert(closes(s, j, k + off));
    assert(s.subrange(j, k + off) =~= part.subrange(j - off, k));
}

/// What points to one of `ids` points to one of more of them.
pub proof fn lemma_named_among_more(
    s: Seq<char>,
    j: int,
    ids: Seq<Seq<char>>,
    more: Seq<Seq<char>>,
)
    requires
        names_one(s, j, ids),
        forall|x: Seq<char>| ids.contains(x) ==> #[trigger] more.contains(x),
    ensures
        names_one(s, j, more),
{
    let k = choose|k: int| #[trigger] closes(s, j, k) && ids.contains(s.subrange(j, k));
    assert(more.contains(s.subrange(j, k)));
}

/// A text grounded in `ids` is grounded in more of them.
pub proof fn lemma_grounded_in_more(
    text: Seq<char>,
    ids: Seq<Seq<char>>,
    more: Seq<Seq<char>>,
    places: Seq<int>,
)
    requires
        grounded_at(text, ids, places),
        forall|x: Seq<char>| ids.contains(x) ==> #[trigger] more.contains(x),
    ensures
        grounded_at(text, more, places),
{
    reveal(grounded_at);
    assert forall|i: int| (#[trigger] reference_at(text, i)) is Some && in_tag(
        text,
        i,
    ) implies names_one(text, reference_at(text, i)->0, more) by {
        lemma_named_among_more(text, reference_at(text, i)->0, ids, more);
    }
    assert forall|i: int| #[trigger] at(text, i, "<use href=\"#"@) implies quotes_one(
        text,
        i + 12,
        more,
    ) by {
        let x = choose|x: Seq<char>|
            ids.contains(x) && quoteless(x) && #[trigger] at(text, i + 12, x.push('"'));
        assert(more.contains(x));
    }
}

proof fn lemma_in_tag_before(a: Seq<char>, b: Seq<char>, i: int)
    requires
        i <= a.len(),
        in_tag(a + b, i),
    ensures
        in_tag(a, i),
{
    let s = a + b;
    let k = choose|k: int| in_tag_from(s, k, i);
    assert(a[k] == s[k]);
    assert forall|m: int| k < m < i implies #[trigger] a[m] != '<' && a[m] != '>' by {
        assert(s[m] == a[m]);
    }
    assert(in_tag_from(a, k, i));
}

proof fn lemma_in_tag_after(a: Seq<char>, b: Seq<char>, i: int)
    requires
        a.len() <= i <= a.len() + b.len(),
        !in_tag(a, a.len() as int),
        in_tag(a + b, i),
    ensures
        in_tag(b, i - a.len()),
{
    let s = a + b;
    let n = a.len() as int;
    let k = choose|k: int| in_tag_from(s, k, i);
    if k < n {
        assert(a[k] == s[k]);
        assert forall|m: int| k < m < n implies #[trigger] a[m] != '<' && a[m] != '>' by {
            assert(s[m] == a[m]);
        }
        assert(in_tag_from(a, k, n));
    }
    assert(b[k - n] == s[k]);
    assert forall|m: int| k - n < m < i - n implies #[trigger] b[m] != '<' && b[m] != '>' by {
        assert(s[m + n] == b[m]);
    }
    assert(in_tag_from(b, k - n, i - n));
}

proof fn lemma_id_before(a: Seq<char>, b: Seq<char>, i: int)
    requires
        i < a.len(),
        !in_tag(a, a.len() as int),
    ensures
        id_at(a + b, i) == id_at(a, i),
{
    reveal_strlit(" id=\"");
    let s = a + b;
    let n = a.len() as int;
    assert(a =~= s.subrange(0, n));
    if id_at(s, i) {
        let k = choose|k: int| #[trigger] in_tag_from(s, k, i) && !odd(s.subrange(k, i));
        assert(a[k] == s[k]);
        assert forall|m: int| k < m < i implies #[trigger] a[m] != '<' && a[m] != '>' by {
            assert(s[m] == a[m]);
        }
        assert(in_tag_from(a, k, i));
        if i + 5 > n {
            // The tag would still be open where `a` ends.
            assert forall|m: int| k < m < n implies #[trigger] a[m] != '<' && a[m] != '>' by {
                if m >= i {
                    lemma_pattern(s, i, " id=\""@, m - i);
                    assert(s[m] == a[m]);
                }
            }
            assert(in_tag_from(a, k, n));
        }
        lemma_at_in_part(s, a, 0, i, " id=\""@);
        assert(a.subrange(k, i) =~= s.subrange(k, i));
    }
    if id_at(a, i) {
        let k = choose|k: int| #[trigger] in_tag_from(a, k, i) && !odd(a.subrange(k, i));
        assert(a[k] == s[k]);
        assert forall|m: int| k < m < i implies #[trigger] s[m] != '<' && s[m] != '>' by {
            assert(s[m] == a[m]);
        }
        assert(in_tag_from(s, k, i));
        lemma_at_in_part(s, a, 0, i, " id=\""@);
        assert(a.subrange(k, i) =~= s.subrange(k, i));
    }
}

proof fn lemma_id_after(a: Seq<char>, b: Seq<char>, i: int)
    requires
        a.len() <= i,
        !in_tag(a, a.len() as int),
    ensures
        id_at(a + b, i) == id_at(b, i - a.len()),
{
    let s = a + b;
    let n = a.len() as int;
    assert(b =~= s.subrange(n, n + b.len()));
    lemma_at_in_part(s, b, n, i, " id=\""@);
    if id_at(s, i) {
        let k = choose|k: int| #[trigger] in_tag_from(s, k, i) && !odd(s.subrange(k, i));
        if k < n {
            assert(a[k] == s[k]);
            assert forall|m: int| k < m < n implies #[trigger] a[m] != '<' && a[m] != '>' by {
                assert(s[m] == a[m]);
            }
            assert(in_tag_from(a, k, n));
        }
        assert(b[k - n] == s[k]);
        assert forall|m: int| k - n < m < i - n implies #[trigger] b[m] != '<' && b[m] != '>' by {
            assert(s[m + n] == b[m]);
        }
        assert(in_tag_from(b, k - n, i - n));
        assert(b.subrange(k - n, i - n) =~= s.subrange(k, i));
    }
    if id_at(b, i - n) {
        let k = choose|k: int| #[trigger]
            in_tag_from(b, k, i - n) && !odd(b.subrange(k, i - n));
        assert(b[k] == s[k + n]);
        assert forall|m: int| k + n < m < i implies #[trigger] s[m] != '<' && s[m] != '>' by {
            assert(s[m] == b[m - n]);
        }
        assert(in_tag_from(s, k + n, i));
        assert(b.subrange(k, i - n) =~= s.subrange(k + n, i));
    }
}

proof fn lemma_use_joined(
    a: Seq<char>,
    b: Seq<char>,
    i: int,
    ids: Seq<Seq<char>>,
    p: Seq<int>,
    q: Seq<int>,
)
    requires
        grounded_at(a, ids, p),
        grounded_at(b, ids, q),
        at(a + b, i, "<use href=\"#"@),
    ensures
        quotes_one(a + b, i + 12, ids),
{
    reveal(grounded_at);
    reveal_strlit("<use href=\"#");
    let s = a + b;
    let n = a.len() as int;
    assert(a =~= s.subrange(0, n));
    assert(b =~= s.subrange(n, n + b.len()));
    if i >= n {
        lemma_at_in_part(s, b, n, i, "<use href=\"#"@);
        lemma_quoted_in_part(s, b, n, i + 12, ids);
    } else {
        if i + 12 > n {
            // The tag would still be open where `a` ends.
            lemma_pattern(s, i, "<use href=\"#"@, 0);
            assert(a[i] == '<');
            assert forall|m: int| i < m < n implies #[trigger] a[m] != '<' && a[m] != '>' by {
                lemma_pattern(s, i, "<use href=\"#"@, m - i);
                assert(s[m] == a[m]);
            }
            assert(in_tag_from(a, i, n));
        }
        lemma_at_in_part(s, a, 0, i, "<use href=\"#"@);
        lemma_quoted_in_part(s, a, 0, i + 12, ids);
    }
}

/// Two grounded texts make one, which gives the ids of both.
pub proof fn lemma_grounded_at_joined(
    a: Seq<char>,
    b: Seq<char>,
    ids: Seq<Seq<char>>,
    p: Seq<int>,
    q: Seq<int>,
)
    requires
        grounded_at(a, ids, p),
        grounded_at(b, ids, q),
    ensures
        grounded_at(a + b, ids, p + shifted(q, a.len())),
{
    reveal(grounded_at);
    let s = a + b;
    let n = a.len() as int;
    assert(a =~= s.subrange(0, n));
    assert(b =~= s.subrange(n, n + b.len()));
    if in_tag(s, s.len() as int) {
        lemma_in_tag_after(a, b, s.len() as int);
    }
    assert forall|i: int| (#[trigger] reference_at(s, i)) is Some && in_tag(s, i) implies names_one(
        s,
        reference_at(s, i)->0,
        ids,
    ) by {
        let j = reference_at(s, i)->0;
        lemma_reference_shape(s, i);
        if i >= n {
            lemma_in_tag_after(a, b, i);
            lemma_reference_in_part(s, b, n, i);
            lemma_named_in_part(s, b, n, j, ids);
        } else {
            lemma_in_tag_before(a, b, i);
            if j > n {
                // The tag would still be open where `a` ends.
                let k = choose|k: int| in_tag_from(a, k, i);
                assert forall|m: int| k < m < n implies #[trigger] a[m] != '<' && a[m] != '>' by {
                    if m >= i {
                        assert(s[m] == a[m]);
                        assert(s[i] == ' ');
                    }
                }
                assert(in_tag_from(a, k, n));
            }
            lemma_reference_in_part(s, a, 0, i);
            lemma_named_in_part(s, a, 0, j, ids);
        }
    }
    assert forall|i: int| #[trigger] at(s, i, "<use href=\"#"@) implies quotes_one(
        s,
        i + 12,
        ids,
    ) by {
        lemma_use_joined(a, b, i, ids, p, q);
    }
    let places = p + shifted(q, a.len());
    assert forall|i: int| #[trigger] id_at(s, i) == places.contains(i) by {
        lemma_places(p, q, a.len(), i);
        if i >= n {
            lemma_id_after(a, b, i);
            assert(p.contains(i) == id_at(a, i));
        } else {
            lemma_id_before(a, b, i);
            assert(q.contains(i - n) == id_at(b, i - n));
        }
        assert(q.contains(i - n) == id_at(b, i - n));
        assert(p.contains(i) == id_at(a, i));
        reveal_strlit(" id=\"");
    }
}

/// Two grounded texts make one.
pub proof fn lemma_grounded_joined(a: Seq<char>, b: Seq<char>, ids: Seq<Seq<char>>)
    requires
        grounded(a, ids),
        grounded(b, ids),
    ensures
        grounded(a + b, ids),
{
    lemma_grounded_at_joined(a, b, ids, seq![], seq![]);
    assert(Seq::<int>::empty() + shifted(seq![], a.len()) =~= seq![]);
}

/// Text without brackets makes no reference, whatever it says.
pub proof fn lemma_content_is_grounded(text: Seq<char>, ids: Seq<Seq<char>>)
    requires
        super::markup::bracketless(text),
    ensures
        grounded(text, ids),
{
    reveal(grounded_at);
    reveal_strlit("<use href=\"#");
    assert forall|i: int| !in_tag(text, i) by {
        if in_tag(text, i) {
            let k = choose|k: int| in_tag_from(text, k, i);
            assert(text[k] != '<');
        }
    }
    assert forall|i: int| !(#[trigger] at(text, i, "<use href=\"#"@)) by {
        if at(text, i, "<use href=\"#"@) {
            lemma_pattern(text, i, "<use href=\"#"@, 0);
            assert(text[i] != '<');
        }
    }
    assert forall|i: int| !(#[trigger] id_at(text, i)) by {
        assert(!in_tag(text, i));
    }
}

/// True when the name of an element is `use`.
pub open spec fn is_use(name: Seq<char>) -> bool {
    name.len() == 3 && name[0] == 'u' && name[1] == 's' && name[2] == 'e'
}

/// True when what the attributes of a `<use>` element start with is a
/// reference to one of `ids`, if it is one at all.
pub open spec fn uses_one(attrs: Seq<char>, ids: Seq<Seq<char>>) -> bool {
    at(attrs, 0, " href=\"#"@) ==> quotes_one(attrs, 8, ids)
}

/// A tag is grounded when its attributes are, and gives their ids.
pub proof fn lemma_tag_is_grounded(
    name: Seq<char>,
    attrs: Seq<char>,
    tail: Seq<char>,
    ids: Seq<Seq<char>>,
    places: Seq<int>,
)
    requires
        forall|m: int| 0 <= m < name.len() ==> #[trigger] name[m] != ' ',
        super::markup::bracketless(name),
        quoteless(name),
        super::markup::bracketless(attrs),
        attrs.len() > 0 ==> attrs[0] == ' ',
        pointed(attrs, ids, places),
        is_use(name) ==> uses_one(attrs, ids),
        tail == seq!['>'] || tail == "/>"@,
    ensures
        grounded_at(seq!['<'] + name + attrs + tail, ids, shifted(places, 1 + name.len())),
{
    reveal(grounded_at);
    reveal_strlit("/>");
    let s = seq!['<'] + name + attrs + tail;
    let off = 1 + name.len() as int;
    let end = off + attrs.len();
    assert(attrs =~= s.subrange(off, off + attrs.len()));
    assert(s.last() == '>');
    assert(s[end] == '>' || s[end] == '/');
    assert forall|m: int| 0 < m < end implies #[trigger] s[m] != '<' && s[m] != '>' by {
        if m < off {
            assert(s[m] == name[m - 1]);
        } else {
            assert(s[m] == attrs[m - off]);
        }
    }
    assert forall|m: int| 0 < m < s.len() implies #[trigger] s[m] != '<' by {
        if m >= end {
            assert(s[m] == tail[m - end]);
        }
    }
    if in_tag(s, s.len() as int) {
        let k = choose|k: int| in_tag_from(s, k, s.len() as int);
        assert(s[s.len() - 1] == '>');
    }
    assert forall|i: int| (#[trigger] reference_at(s, i)) is Some && in_tag(s, i) implies names_one(
        s,
        reference_at(s, i)->0,
        ids,
    ) by {
        let j = reference_at(s, i)->0;
        lemma_reference_shape(s, i);
        if i < off {
            if i > 0 {
                assert(s[i] == name[i - 1]);
            }
        }
        assert(i >= off);
        if j > end {
            if i < end {
                assert(s[end] != '/' && s[end] != '>');
            } else {
                assert(s[i] == tail[i - end]);
            }
        }
        lemma_reference_in_part(s, attrs, off, i);
        lemma_named_in_part(s, attrs, off, j, ids);
    }
    assert forall|i: int| #[trigger] at(s, i, "<use href=\"#"@) implies quotes_one(
        s,
        i + 12,
        ids,
    ) by {
        lemma_tag_uses(name, attrs, tail, ids, i);
    }
    assert forall|i: int| #[trigger] id_at(s, i) == shifted(places, 1 + name.len()).contains(i) by {
        lemma_places(seq![], places, 1 + name.len(), i);
        lemma_tag_ids(name, attrs, tail, i);
    }
}

proof fn lemma_tag_uses(
    name: Seq<char>,
    attrs: Seq<char>,
    tail: Seq<char>,
    ids: Seq<Seq<char>>,
    i: int,
)
    requires
        forall|m: int| 0 <= m < name.len() ==> #[trigger] name[m] != ' ',
        super::markup::bracketless(name),
        super::markup::bracketless(attrs),
        attrs.len() > 0 ==> attrs[0] == ' ',
        is_use(name) ==> uses_one(attrs, ids),
        tail == seq!['>'] || tail == "/>"@,
        at(seq!['<'] + name + attrs + tail, i, "<use href=\"#"@),
    ensures
        quotes_one(seq!['<'] + name + attrs + tail, i + 12, ids),
{
    reveal_strlit("/>");
    reveal_strlit("<use href=\"#");
    reveal_strlit(" href=\"#");
    let s = seq!['<'] + name + attrs + tail;
    let pattern = "<use href=\"#"@;
    let off = 1 + name.len() as int;
    let end = off + attrs.len();
    lemma_pattern(s, i, pattern, 0);
    if i > 0 {
        if i < off {
            assert(s[i] == name[i - 1]);
        } else if i < end {
            assert(s[i] == attrs[i - off]);
        } else {
            assert(s[i] == tail[i - end]);
        }
    }
    assert(i == 0);
    assert forall|m: int| 0 <= m < 12 implies #[trigger] s[m] == pattern[m] by {
        lemma_pattern(s, 0, pattern, m);
    }
    // The name ends at the only space.
    if off < 4 {
        assert(s[off] != ' ');
        assert(s[off] == ' ' || s[off] == '/' || s[off] == '>');
    }
    if off > 4 {
        assert(s[4] == name[3]);
    }
    assert(name[0] == s[1] && name[1] == s[2] && name[2] == s[3]);
    assert(is_use(name));
    if end < 12 {
        assert(s[end] == '/' || s[end] == '>');
        assert(s[end] == pattern[end]);
    }
    assert(attrs.subrange(0, 8) =~= " href=\"#"@) by {
        assert forall|m: int| 0 <= m < 8 implies attrs[m] == " href=\"#"@[m] by {
            assert(s[m + 4] == attrs[m]);
        }
    }
    assert(at(attrs, 0, " href=\"#"@));
    assert(attrs =~= s.subrange(off, off + attrs.len()));
    lemma_quoted_in_part(s, attrs, off, 12, ids);
}

proof fn lemma_tag_ids(name: Seq<char>, attrs: Seq<char>, tail: Seq<char>, i: int)
    requires
        forall|m: int| 0 <= m < name.len() ==> #[trigger] name[m] != ' ',
        super::markup::bracketless(name),
        quoteless(name),
        super::markup::bracketless(attrs),
        tail == seq!['>'] || tail == "/>"@,
    ensures
        id_at(seq!['<'] + name + attrs + tail, i) == id_in(attrs, i - 1 - name.len()),
{
    reveal_strlit("/>");
    reveal_strlit(" id=\"");
    let s = seq!['<'] + name + attrs + tail;
    let off = 1 + name.len() as int;
    let end = off + attrs.len();
    let start = seq!['<'] + name;
    assert(attrs =~= s.subrange(off, off + attrs.len()));
    assert forall|m: int| 0 <= m < start.len() implies #[trigger] start[m] != '"' by {
        if m > 0 {
            assert(start[m] == name[m - 1]);
        }
    }
    lemma_quoteless_is_even(start);
    assert forall|m: int| 0 < m < end implies #[trigger] s[m] != '<' && s[m] != '>' by {
        if m < off {
            assert(s[m] == name[m - 1]);
        } else {
            assert(s[m] == attrs[m - off]);
        }
    }
    if off <= i <= end {
        assert(s.subrange(0, i) =~= start + attrs.take(i - off));
        lemma_odd_joined(start, attrs.take(i - off));
        lemma_at_in_part(s, attrs, off, i, " id=\""@);
    }
    if id_at(s, i) {
        let k = choose|k: int| #[trigger] in_tag_from(s, k, i) && !odd(s.subrange(k, i));
        lemma_pattern(s, i, " id=\""@, 0);
        lemma_pattern(s, i, " id=\""@, 1);
        if i < off {
            if i > 0 {
                assert(s[i] == name[i - 1]);
            }
        }
        if i >= end {
            assert(s[i] == tail[i - end]);
        }
        if k > 0 {
            if k >= end {
                assert(s[k] == tail[k - end]);
            }
        }
        assert(k == 0);
        if i + 5 > end {
            lemma_pattern(s, i, " id=\""@, end - i);
            assert(s[end] == tail[0]);
        }
    }
    if id_in(attrs, i - off) {
        assert(s[0] == '<');
        assert(in_tag_from(s, 0, i));
    }
}

/// Two lists of attributes that point to `ids` make one, which gives the ids
/// of both.
pub proof fn lemma_pointed_joined(
    a: Seq<char>,
    b: Seq<char>,
    ids: Seq<Seq<char>>,
    p: Seq<int>,
    q: Seq<int>,
)
    requires
        pointed(a, ids, p),
        pointed(b, ids, q),
        b.len() > 0 ==> b[0] == ' ',
    ensures
        pointed(a + b, ids, p + shifted(q, a.len())),
{
    let s = a + b;
    let n = a.len() as int;
    assert(a =~= s.subrange(0, n));
    assert(b =~= s.subrange(n, n + b.len()));
    assert forall|i: int| (#[trigger] reference_at(s, i)) is Some implies names_one(
        s,
        reference_at(s, i)->0,
        ids,
    ) by {
        let j = reference_at(s, i)->0;
        lemma_reference_shape(s, i);
        if i >= n {
            lemma_reference_in_part(s, b, n, i);
            lemma_named_in_part(s, b, n, j, ids);
        } else {
            if j > n {
                assert(s[n] == b[0]);
                assert(s[n] != ' ');
            }
            lemma_reference_in_part(s, a, 0, i);
            lemma_named_in_part(s, a, 0, j, ids);
        }
    }
    lemma_odd_joined(a, b);
    let places = p + shifted(q, a.len());
    assert forall|i: int| #[trigger] id_in(s, i) == places.contains(i) by {
        lemma_places(p, q, a.len(), i);
        lemma_ids_joined(a, b, i);
        assert(p.contains(i) == id_in(a, i));
        assert(q.contains(i - n) == id_in(b, i - n));
    }
}

proof fn lemma_ids_joined(a: Seq<char>, b: Seq<char>, i: int)
    requires
        !odd(a),
        b.len() > 0 ==> b[0] == ' ',
    ensures
        id_in(a + b, i) == (id_in(a, i) || id_in(b, i - a.len())),
{
    reveal_strlit(" id=\"");
    let s = a + b;
    let n = a.len() as int;
    assert(a =~= s.subrange(0, n));
    assert(b =~= s.subrange(n, n + b.len()));
    if i >= n {
        lemma_at_in_part(s, b, n, i, " id=\""@);
        if i <= s.len() {
            assert(s.take(i) =~= a + b.take(i - n));
            lemma_odd_joined(a, b.take(i - n));
        }
    } else if i >= 0 {
        lemma_at_in_part(s, a, 0, i, " id=\""@);
        assert(s.take(i) =~= a.take(i));
        if at(s, i, " id=\""@) && i + 5 > n {
            lemma_pattern(s, i, " id=\""@, n - i);
            assert(s[n] == b[0]);
        }
    }
}

/// True when `s` holds no parenthesis followed by a number sign, and does not
/// start with one: no reference can start or end in it.
pub open spec fn calm(s: Seq<char>) -> bool {
    &&& s.len() > 0 ==> s[0] != '#'
    &&& forall|i: int| 0 <= i < s.len() - 1 ==> !(#[trigger] s[i] == '(' && s[i + 1] == '#')
}

/// Two calm texts make one.
pub proof fn lemma_calm_joined(a: Seq<char>, b: Seq<char>)
    requires
        calm(a),
        calm(b),
    ensures
        calm(a + b),
{
    let s = a + b;
    let n = a.len() as int;
    assert forall|i: int| 0 <= i < s.len() - 1 implies !(#[trigger] s[i] == '(' && s[i + 1]
        == '#') by {
        if i < n - 1 {
            assert(s[i] == a[i] && s[i + 1] == a[i + 1]);
        } else if i == n - 1 {
            assert(s[i + 1] == b[0]);
        } else {
            assert(s[i] == b[i - n] && s[i + 1] == b[i + 1 - n]);
        }
    }
    if s.len() > 0 {
        if a.len() > 0 {
            assert(s[0] == a[0]);
        } else {
            assert(s[0] == b[0]);
        }
    }
}

/// A calm text makes no reference.
pub proof fn lemma_calm_makes_no_reference(s: Seq<char>, i: int)
    requires
        calm(s),
    ensures
        reference_at(s, i) is None,
{
    if reference_at(s, i) is Some {
        lemma_reference_shape(s, i);
        let j = reference_at(s, i)->0;
        assert(s[j - 2] == '(' && s[j - 1] == '#');
    }
}

/// A declaration that is calm and gives no id is grounded.
pub proof fn lemma_declaration_is_grounded(s: Seq<char>, ids: Seq<Seq<char>>)
    requires
        calm(s),
        !holds(s, " id=\""@),
        s.len() >= 2,
        s[1] == '!',
        forall|m: int| 0 < m < s.len() ==> #[trigger] s[m] != '<',
        s.last() == '>',
    ensures
        grounded(s, ids),
{
    reveal(grounded_at);
    reveal_strlit("<use href=\"#");
    if in_tag(s, s.len() as int) {
        let k = choose|k: int| in_tag_from(s, k, s.len() as int);
        assert(s[s.len() - 1] == '>');
    }
    assert forall|i: int| (#[trigger] reference_at(s, i)) is None by {
        lemma_calm_makes_no_reference(s, i);
    }
    assert forall|i: int| !(#[trigger] at(s, i, "<use href=\"#"@)) by {
        if at(s, i, "<use href=\"#"@) {
            lemma_pattern(s, i, "<use href=\"#"@, 0);
            lemma_pattern(s, i, "<use href=\"#"@, 1);
        }
    }
    assert forall|i: int| !(#[trigger] id_at(s, i)) by {
        assert(!at(s, i, " id=\""@));
    }
}

/// True when `s` holds no quote.
pub open spec fn quoteless(s: Seq<char>) -> bool {
    forall|i: int| 0 <= i < s.len() ==> #[trigger] s[i] != '"'
}

/// True for what comes before the value of an attribute: a space, a name,
/// and a quote, neither of them anywhere else in it.
pub open spec fn opens_value(name: Seq<char>) -> bool {
    &&& name.len() >= 2
    &&& name[0] == ' '
    &&& name.last() == '"'
    &&& forall|m: int| 0 < m < name.len() ==> #[trigger] name[m] != ' '
    &&& quoteless(name.drop_last())
}

/// True when a value can stand where references are read: it holds no quote,
/// and when it starts as a reference it is one to one of `ids`.
pub open spec fn value_points(value: Seq<char>, ids: Seq<Seq<char>>) -> bool {
    &&& quoteless(value)
    &&& at(value, 0, "url(#"@) ==> names_one(value, 5, ids)
}

/// True when an attribute gives an id.
pub open spec fn names_id(name: Seq<char>) -> bool {
    name.len() == 5 && name[1] == 'i' && name[2] == 'd' && name[3] == '='
}

/// An attribute whose value points to `ids` does, whatever its name; and one
/// that is not a fill, a stroke or a clip makes no reference at all. It gives
/// an id when that is its name.
pub proof fn lemma_attribute_is_pointed(name: Seq<char>, value: Seq<char>, ids: Seq<Seq<char>>)
    requires
        opens_value(name),
        quoteless(value),
        value_points(value, ids) || name != " fill=\""@ && name != " stroke=\""@ && name
            != " clip-path=\""@,
    ensures
        pointed(
            name + value + seq!['"'],
            ids,
            if names_id(name) {
                seq![0int]
            } else {
                seq![]
            },
        ),
{
    reveal_strlit(" fill=\"url(#");
    reveal_strlit(" stroke=\"url(#");
    reveal_strlit(" clip-path=\"url(#");
    reveal_strlit(" fill=\"");
    reveal_strlit(" stroke=\"");
    reveal_strlit(" clip-path=\"");
    reveal_strlit("url(#");
    let s = name + value + seq!['"'];
    let n = name.len() as int;
    assert forall|i: int| (#[trigger] reference_at(s, i)) is Some implies names_one(
        s,
        reference_at(s, i)->0,
        ids,
    ) by {
        let j = reference_at(s, i)->0;
        lemma_reference_shape(s, i);
        // The only quote before the last is the one that ends the name.
        if j - 6 >= n {
            assert(j - 6 < s.len() - 1);
            assert(s[j - 6] == value[j - 6 - n]);
        } else if j - 6 < n - 1 {
            assert(s[j - 6] == name.drop_last()[j - 6]);
        }
        assert(j == n + 5);
        assert(s[i] == name[i]);
        assert(i == 0);
        let p = if at(s, 0, " fill=\"url(#"@) {
            " fill=\"url(#"@
        } else if at(s, 0, " stroke=\"url(#"@) {
            " stroke=\"url(#"@
        } else {
            " clip-path=\"url(#"@
        };
        assert(s.subrange(0, p.len() as int) == p);
        assert forall|m: int| 0 <= m < p.len() implies #[trigger] s[m] == p[m] by {
            assert(s.subrange(0, p.len() as int)[m] == s[m]);
        }
        assert(name =~= p.take(n)) by {
            assert forall|m: int| 0 <= m < n implies name[m] == p[m] by {
                assert(s[m] == name[m]);
            }
        }
        assert(p.take(n) =~= " fill=\""@ || p.take(n) =~= " stroke=\""@ || p.take(n)
            =~= " clip-path=\""@);
        assert(value_points(value, ids));
        assert(value.len() >= 5) by {
            if value.len() < 5 {
                assert(s[n + value.len()] == '"');
                assert(s[n + value.len()] == p[n + value.len()]);
            }
        }
        assert(value.subrange(0, 5) =~= "url(#"@) by {
            assert forall|m: int| 0 <= m < 5 implies value[m] == "url(#"@[m] by {
                assert(s[n + m] == value[m]);
                assert(s[n + m] == p[n + m]);
            }
        }
        assert(at(value, 0, "url(#"@));
        assert(value =~= s.subrange(n, n + value.len()));
        lemma_named_in_part(s, value, n, j, ids);
    }
    let places: Seq<int> = if names_id(name) {
        seq![0int]
    } else {
        seq![]
    };
    lemma_name_is_odd(name);
    lemma_quoteless_is_even(value);
    lemma_odd_joined(name, value);
    lemma_odd_joined(name + value, seq!['"']);
    lemma_quote_is_odd();
    assert forall|i: int| #[trigger] id_in(s, i) == places.contains(i) by {
        lemma_attribute_ids(name, value, i);
        if names_id(name) {
            assert(places[0] == 0);
        }
    }
}

proof fn lemma_quote_is_odd()
    ensures
        odd(seq!['"']),
{
    let quote = seq!['"'];
    lemma_quoteless_is_even(quote.drop_last());
    assert(quote.last() == '"');
}

proof fn lemma_name_is_odd(name: Seq<char>)
    requires
        opens_value(name),
    ensures
        odd(name),
{
    lemma_quoteless_is_even(name.drop_last());
}

proof fn lemma_attribute_ids(name: Seq<char>, value: Seq<char>, i: int)
    requires
        opens_value(name),
        quoteless(value),
    ensures
        id_in(name + value + seq!['"'], i) == (i == 0 && names_id(name)),
{
    reveal_strlit(" id=\"");
    let s = name + value + seq!['"'];
    let n = name.len() as int;
    if id_in(s, i) {
        assert forall|m: int| 0 <= m < 5 implies #[trigger] s[i + m] == " id=\""@[m] by {
            lemma_pattern(s, i, " id=\""@, m);
        }
        assert(s[i + 0] == ' ' && s[i + 4] == '"');
        if i >= n {
            // Inside the value.
            let part = s.subrange(n, i);
            assert(s.take(i) =~= name + part);
            assert forall|m: int| 0 <= m < part.len() implies #[trigger] part[m] != '"' by {
                assert(part[m] == value[m]);
            }
            lemma_quoteless_is_even(part);
            lemma_name_is_odd(name);
            lemma_odd_joined(name, part);
        } else {
            assert(s[i] == name[i]);
            assert(i == 0);
            assert(s[1] == 'i' && s[2] == 'd' && s[3] == '=' && s[4] == '"') by {
                assert(s[i + 1] == 'i' && s[i + 2] == 'd' && s[i + 3] == '=' && s[i + 4] == '"');
            }
            if n > 5 {
                assert(name.drop_last()[4] == s[4]);
            }
            if n < 5 {
                assert(s[n - 1] == name[n - 1]);
            }
            assert(name[1] == s[1] && name[2] == s[2] && name[3] == s[3]);
        }
    }
    if i == 0 && names_id(name) {
        assert(s.subrange(0, 5) =~= " id=\""@) by {
            assert(s[0] == name[0] && s[1] == name[1] && s[2] == name[2] && s[3] == name[3] && s[4]
                == name[4]);
        }
        assert(s.take(0) =~= Seq::<char>::empty());
    }
}

} // verus!
