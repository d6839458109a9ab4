//! Paths as text: what is known of them on every platform, and what std makes
//! of them.

use vstd::prelude::*;

verus! {

/// True for what separates the parts of a path on some platform.
pub open spec fn separator(c: char) -> bool {
    c == '/' || c == '\\'
}

/// True when a path names neither a drive nor a share, on any platform.
pub open spec fn driveless(s: Seq<char>) -> bool {
    s.len() >= 2 ==> s[1] != ':' && !(separator(s[0]) && separator(s[1]))
}

/// True when a path has the same parts on every platform: only slashes
/// separate them, and it names no drive and no share.
pub open spec fn slashed(s: Seq<char>) -> bool {
    driveless(s) && forall|i: int| 0 <= i < s.len() ==> #[trigger] s[i] != '\\'
}

/// A path with slashes for its backslashes: what it reads as where either
/// separates.
pub open spec fn forward(s: Seq<char>) -> Seq<char> {
    s.map_values(
        |c: char|
            if c == '\\' {
                '/'
            } else {
                c
            },
    )
}

/// Where only slashes separate, a path reads as it stands.
pub proof fn lemma_slashed_reads_one_way(s: Seq<char>)
    requires
        slashed(s),
    ensures
        forward(s) == s,
{
    assert(forward(s) =~= s);
}

/// Where the last part of the first `n` characters starts: after the last
/// slash among them.
pub open spec fn part_start(s: Seq<char>, n: int) -> int
    decreases n,
{
    if n <= 0 {
        0
    } else if s[n - 1] == '/' {
        n
    } else {
        part_start(s, n - 1)
    }
}

/// The name that the first `n` characters of a path end in, when they end in
/// one: parts that are empty or a dot are passed over, and two dots are no
/// name.
pub open spec fn last_name(s: Seq<char>, n: int) -> Option<Seq<char>>
    decreases n,
{
    let from = part_start(s, n);
    let part = s.subrange(from, n);
    if n <= 0 || n > s.len() {
        None
    } else if 0 < from <= n && (part.len() == 0 || part == seq!['.']) {
        last_name(s, from - 1)
    } else if part.len() == 0 || part == seq!['.'] || part == seq!['.', '.'] {
        None
    } else {
        Some(part)
    }
}

/// The name that a path ends in, when it ends in one.
pub open spec fn name_of(s: Seq<char>) -> Option<Seq<char>> {
    last_name(s, s.len() as int)
}

/// The place of the last dot among the first `n` characters, when there is
/// one.
pub open spec fn last_dot(s: Seq<char>, n: int) -> Option<int>
    decreases n,
{
    if n <= 0 {
        None
    } else if s[n - 1] == '.' {
        Some(n - 1)
    } else {
        last_dot(s, n - 1)
    }
}

/// A file name up to its last dot; all of it when it has none, or when its
/// only one comes first.
pub open spec fn stem_text(s: Seq<char>) -> Seq<char> {
    match last_dot(s, s.len() as int) {
        Some(k) => if k == 0 {
            s
        } else {
            s.take(k)
        },
        None => s,
    }
}

/// The stem of the name that a path ends in, when it ends in one.
pub open spec fn stem_of(s: Seq<char>) -> Option<Seq<char>> {
    match name_of(s) {
        Some(name) => Some(stem_text(name)),
        None => None,
    }
}

/// The characters of an optional text.
pub open spec fn shown(s: Option<String>) -> Option<Seq<char>> {
    match s {
        Some(s) => Some(s@),
        None => None,
    }
}

/// True when `part` stands somewhere in `s`.
pub open spec fn part_of(part: Seq<char>, s: Seq<char>) -> bool {
    exists|i: int|
        0 <= i && i + part.len() <= s.len() && part == #[trigger] s.subrange(i, i + part.len())
}

/// `std::path::Path::file_stem` of std, as text: the last part of a path
/// without its extension, when the path ends in a name. Whether backslashes
/// separate parts is the platform's to say, so of a path without a drive or a
/// share either reading is allowed, and of any other only that the stem stands
/// in it.
#[verifier::external_body]
pub(crate) fn file_stem(path: &str) -> (stem: Option<String>)
    ensures
        driveless(path@) ==> shown(stem) == stem_of(path@) || shown(stem) == stem_of(
            forward(path@),
        ),
        stem is Some ==> part_of(stem->0@, path@),
{
    std::path::Path::new(path).file_stem().map(|s| s.to_string_lossy().into_owned())
}

/// `std::path::Path::file_name` of std, as text: the last part of a path, when
/// the path ends in a name. As with the stem, of a path without a drive or a
/// share either reading of backslashes is allowed, and of any other only that
/// the name stands in it.
#[verifier::external_body]
pub(crate) fn file_name(path: &str) -> (name: Option<String>)
    ensures
        driveless(path@) ==> shown(name) == name_of(path@) || shown(name) == name_of(
            forward(path@),
        ),
        name is Some ==> part_of(name->0@, path@),
{
    std::path::Path::new(path).file_name().map(|s| s.to_string_lossy().into_owned())
}

/// True when a path has nothing in it that goes without saying: no part is
/// empty or a dot, and it does not end with a slash unless it is one.
pub open spec fn tidy(s: Seq<char>) -> bool {
    &&& slashed(s)
    &&& s.len() > 1 ==> s.last() != '/'
    &&& forall|i: int| 0 <= i < s.len() - 1 && #[trigger] s[i] == '/' ==> s[i + 1] != '/'
    &&& forall|i: int|
        0 <= i < s.len() && #[trigger] s[i] == '.' && (i == 0 || s[i - 1] == '/') ==> i + 1
            < s.len() && s[i + 1] != '/'
}

/// The directory that a tidy path lies in: what precedes its last slash, or
/// that slash when it is the root. The root and the empty path lie in none.
pub open spec fn parent_of(s: Seq<char>) -> Option<Seq<char>> {
    let from = part_start(s, s.len() as int);
    if s.len() == 0 || s == seq!['/'] {
        None
    } else if from <= 1 {
        Some(s.take(from))
    } else {
        Some(s.take(from - 1))
    }
}

/// True when `path` can lie in `dir`, or in none: a tidy path lies where it
/// says, any other in something that it starts with.
pub open spec fn lies_in(path: Seq<char>, dir: Option<Seq<char>>) -> bool {
    &&& tidy(path) ==> dir == parent_of(path)
    &&& dir is Some ==> dir->0.len() < path.len() && dir->0 == path.take(dir->0.len() as int)
    &&& slashed(path) && name_of(path) is Some ==> dir is Some
}

/// `std::path::Path::parent` of std, as text: the path without its last part,
/// when it has one to go without. How much else goes with it, such as a dot
/// or a second slash before it, is left unsaid.
#[verifier::external_body]
pub(crate) fn parent(path: &str) -> (dir: Option<String>)
    ensures
        lies_in(path@, shown(dir)),
{
    std::path::Path::new(path).parent().map(|p| p.to_string_lossy().into_owned())
}

/// True when a path is relative on every platform: it starts with no
/// separator, and its second character does not make the first a drive.
pub open spec fn relative_everywhere(s: Seq<char>) -> bool {
    &&& s.len() > 0 ==> !separator(s[0])
    &&& s.len() > 1 ==> s[1] != ':'
}

/// True when a path starts from the root on every platform: with one slash.
pub open spec fn rooted(s: Seq<char>) -> bool {
    s.len() > 0 && s[0] == '/' && driveless(s)
}

/// `std::path::Path::is_absolute` of std. A path that is relative everywhere
/// is not absolute. What else makes a path absolute is the platform's to say,
/// so nothing is claimed of any other.
#[verifier::external_body]
pub(crate) fn is_absolute(path: &str) -> (r: bool)
    ensures
        relative_everywhere(path@) ==> !r,
{
    std::path::Path::new(path).is_absolute()
}

/// True when `r` is `path` inside `dir`: the two with one separator between
/// them, which is there already when `dir` ends with a slash, and is not
/// wanted after nothing. It may be there already in a backslash, and a drive
/// may go without one.
pub open spec fn inside(r: Seq<char>, dir: Seq<char>, path: Seq<char>) -> bool {
    if dir.len() == 0 || dir.last() == '/' {
        r == dir + path
    } else {
        ||| r == dir + seq!['/'] + path
        ||| r == dir + seq!['\\'] + path
        ||| (dir.last() == '\\' || dir.len() == 2 && dir.last() == ':') && r == dir + path
    }
}

/// True when `r` is `path` after the start of `dir`, where `path` starts with
/// a separator: where a drive or a share stays when the rest is replaced.
pub open spec fn keeps_start(r: Seq<char>, dir: Seq<char>, path: Seq<char>) -> bool {
    path.len() > 0 && separator(path[0]) && exists|k: int|
        0 <= k <= dir.len() && r == #[trigger] dir.take(k) + path
}

/// True when a directory starts the way that asks for what follows to be
/// taken literally: two separators, a question mark and a separator. What is
/// joined to such a directory is rewritten on some platforms.
pub open spec fn verbatim(dir: Seq<char>) -> bool {
    &&& dir.len() >= 4
    &&& separator(dir[0]) && separator(dir[1]) && dir[2] == '?' && separator(dir[3])
}

/// True when `r` can be `path` taken from `dir`: inside it where `path` is
/// relative everywhere, unchanged where it starts from the root and `dir` has
/// no drive or share that could stay, and for any other path one of these, or
/// that path after the drive or share.
pub open spec fn taken_from(r: Seq<char>, dir: Seq<char>, path: Seq<char>) -> bool {
    &&& relative_everywhere(path) && !verbatim(dir) ==> inside(r, dir, path)
    &&& rooted(path) && driveless(dir) ==> r == path
    &&& !verbatim(dir) ==> r == path || inside(r, dir, path) || keeps_start(r, dir, path)
}

/// `std::path::Path::join` of std, as text. Which paths replace the directory
/// where only some platforms take them for absolute, and what becomes of a
/// verbatim directory, is the platform's to say, so nothing is claimed of
/// that.
#[verifier::external_body]
pub(crate) fn join_path(dir: &str, path: &str) -> (r: String)
    ensures
        taken_from(r@, dir@, path@),
{
    std::path::Path::new(dir).join(path).to_string_lossy().into_owned()
}

proof fn lemma_part_start(s: Seq<char>, n: int)
    requires
        0 <= n <= s.len(),
    ensures
        0 <= part_start(s, n) <= n,
        part_start(s, n) > 0 ==> s[part_start(s, n) - 1] == '/',
        forall|k: int| part_start(s, n) <= k < n ==> #[trigger] s[k] != '/',
    decreases n,
{
    if n > 0 && s[n - 1] != '/' {
        lemma_part_start(s, n - 1);
    }
}

proof fn lemma_last_dot(s: Seq<char>, n: int)
    requires
        0 <= n <= s.len(),
    ensures
        match last_dot(s, n) {
            Some(k) => 0 <= k < n && s[k] == '.' && forall|i: int| k < i < n ==> #[trigger] s[i] != '.',
            None => forall|i: int| 0 <= i < n ==> #[trigger] s[i] != '.',
        },
    decreases n,
{
    if n > 0 && s[n - 1] != '.' {
        lemma_last_dot(s, n - 1);
    }
}

proof fn lemma_last_name(s: Seq<char>, n: int)
    requires
        0 <= n <= s.len(),
    ensures
        match last_name(s, n) {
            Some(name) => exists|i: int, j: int|
                0 <= i < j <= n && name == #[trigger] s.subrange(i, j) && (i == 0 || s[i - 1] == '/')
                    && (forall|k: int| i <= k < j ==> #[trigger] s[k] != '/') && (forall|k: int|
                    j <= k < n ==> #[trigger] s[k] == '/' || s[k] == '.') && name != seq!['.']
                    && name != seq!['.', '.'],
            None => true,
        },
    decreases n,
{
    let from = part_start(s, n);
    lemma_part_start(s, n);
    let part = s.subrange(from, n);
    if n > 0 {
        if 0 < from && (part.len() == 0 || part == seq!['.']) {
            lemma_last_name(s, from - 1);
            if last_name(s, n) is Some {
                let name = last_name(s, n)->0;
                let (i, j) = choose|i: int, j: int|
                    0 <= i < j <= from - 1 && name == #[trigger] s.subrange(i, j) && (i == 0 || s[i
                        - 1] == '/') && (forall|k: int| i <= k < j ==> #[trigger] s[k] != '/') && (
                    forall|k: int| j <= k < from - 1 ==> #[trigger] s[k] == '/' || s[k] == '.')
                        && name != seq!['.'] && name != seq!['.', '.'];
                assert forall|k: int| j <= k < n implies #[trigger] s[k] == '/' || s[k] == '.' by {
                    if k >= from {
                        assert(part[k - from] == s[k]);
                    }
                }
                assert(name == s.subrange(i, j));
            }
        } else if last_name(s, n) is Some {
            assert(last_name(s, n)->0 == s.subrange(from, n));
        }
    }
}

/// The name of a path is its last part: it holds no slash, starts the path or
/// follows one, and nothing but slashes and dots comes after it. It is neither
/// the directory itself nor the one above.
pub proof fn lemma_name_is_the_last_part(s: Seq<char>)
    requires
        name_of(s) is Some,
    ensures
        ({
            let name = name_of(s)->0;
            exists|i: int, j: int|
                0 <= i < j <= s.len() && name == #[trigger] s.subrange(i, j) && (i == 0 || s[i - 1]
                    == '/') && (forall|k: int| i <= k < j ==> #[trigger] s[k] != '/') && (forall|
                    k: int,
                | j <= k < s.len() ==> #[trigger] s[k] == '/' || s[k] == '.') && name != seq!['.']
                    && name != seq!['.', '.']
        }),
{
    lemma_last_name(s, s.len() as int);
}

/// The stem of a name is what is left of it without its last dot and what
/// follows that; a name with no dot but at its start is its own stem.
pub proof fn lemma_stem_leaves_the_extension_out(s: Seq<char>)
    ensures
        ({
            let stem = stem_text(s);
            let k = stem.len() as int;
            &&& stem == s.take(k)
            &&& k < s.len() ==> k > 0 && s[k] == '.' && forall|i: int|
                k < i < s.len() ==> #[trigger] s[i] != '.'
            &&& k == s.len() ==> forall|i: int| 0 < i < s.len() ==> #[trigger] s[i] != '.'
        }),
{
    lemma_last_dot(s, s.len() as int);
    assert(s.take(s.len() as int) =~= s);
}

/// The directory a path lies in is the path without its last part and the slash
/// before that, but for the slash at the start of a path, which stays.
pub proof fn lemma_parent_leaves_the_last_part_out(s: Seq<char>)
    ensures
        parent_of(s) is None <==> s.len() == 0 || s == seq!['/'],
        parent_of(s) is Some ==> ({
            let dir = parent_of(s)->0;
            let k = dir.len() as int;
            &&& k <= s.len()
            &&& dir == s.take(k)
            &&& k == 0 ==> forall|i: int| 0 <= i < s.len() ==> #[trigger] s[i] != '/'
            &&& k > 0 ==> (k == 1 && s[0] == '/' || k < s.len() && s[k] == '/') && forall|i: int|
                k < i < s.len() ==> #[trigger] s[i] != '/'
        }),
{
    lemma_part_start(s, s.len() as int);
}

} // verus!
