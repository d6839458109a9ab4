//! The command line of the freedesktop thumbnailer.
//!
//! A data file names a command line, `-s %s -i %i -o %o`, and the file
//! manager runs it: the largest edge the thumbnail may have, the input, and
//! where to write a PNG.

use vstd::prelude::*;
use vstd::utf8::{decode_utf8, encode_scalar, encode_utf8, is_ascii_chars, valid_utf8};

use crate::text::{
    debug_text, has_prefix, number_of, parse_number, quoted, same_text, strip_prefix, texts,
};

verus! {

/// Default when the caller names no size. 512 is the largest of the standard
/// directories most file managers ask for.
pub const DEFAULT_SIZE: u32 = 512;

/// What the command line asked for.
#[derive(Debug)]
pub struct Options {
    pub size: u32,
    pub input: String,
    pub output: String,
}

/// The value of a hexadecimal digit.
pub open spec fn hex_value(b: u8) -> Option<u8> {
    if 0x30 <= b <= 0x39 {
        Some((b - 0x30) as u8)
    } else if 0x41 <= b <= 0x46 {
        Some((b - 0x41 + 10) as u8)
    } else if 0x61 <= b <= 0x66 {
        Some((b - 0x61 + 10) as u8)
    } else {
        None
    }
}

/// The byte that an escape at `i` stands for: a percent sign and two
/// hexadecimal digits.
pub open spec fn escape_at(bytes: Seq<u8>, i: int) -> Option<u8> {
    if 0 <= i && i + 2 < bytes.len() && bytes[i] == 0x25 {
        match (hex_value(bytes[i + 1]), hex_value(bytes[i + 2])) {
            (Some(a), Some(b)) => Some((a * 16 + b) as u8),
            _ => None,
        }
    } else {
        None
    }
}

/// The bytes from `i` on with every escape decoded and everything else as it
/// is written.
pub open spec fn unescaped(bytes: Seq<u8>, i: int) -> Seq<u8>
    decreases bytes.len() - i,
{
    if i >= bytes.len() {
        seq![]
    } else {
        match escape_at(bytes, i) {
            Some(b) => seq![b] + unescaped(bytes, i + 3),
            None => seq![bytes[i]] + unescaped(bytes, i + 1),
        }
    }
}

/// What stands for bytes that are not UTF-8, as std mends them.
pub uninterp spec fn mended_text(bytes: Seq<u8>) -> Seq<char>;

/// `String::from_utf8_lossy` of std: the text that the bytes encode when
/// they are UTF-8; otherwise the result is named.
#[verifier::external_body]
fn from_utf8_lossy(bytes: &Vec<u8>) -> (r: String)
    ensures
        r@ == (if valid_utf8(bytes@) {
            decode_utf8(bytes@)
        } else {
            mended_text(bytes@)
        }),
{
    String::from_utf8_lossy(bytes).into_owned()
}

/// A text with its escapes decoded.
pub open spec fn decoded_text(s: Seq<char>) -> Seq<char> {
    let bytes = unescaped(encode_utf8(s), 0);
    if valid_utf8(bytes) {
        decode_utf8(bytes)
    } else {
        mended_text(bytes)
    }
}

fn hex_digit_value(b: u8) -> (r: Option<u8>)
    ensures
        r == hex_value(b),
{
    if 0x30 <= b && b <= 0x39 {
        Some(b - 0x30)
    } else if 0x41 <= b && b <= 0x46 {
        Some(b - 0x41 + 10)
    } else if 0x61 <= b && b <= 0x66 {
        Some(b - 0x61 + 10)
    } else {
        None
    }
}

/// The bytes with every escape decoded.
pub fn unescape(bytes: &[u8]) -> (out: Vec<u8>)
    ensures
        out@ == unescaped(bytes@, 0),
{
    let mut out: Vec<u8> = Vec::new();
    let mut i: usize = 0;
    assert(out@ + unescaped(bytes@, 0) =~= unescaped(bytes@, 0));
    while i < bytes.len()
        invariant
            i <= bytes@.len(),
            out@ + unescaped(bytes@, i as int) == unescaped(bytes@, 0),
        decreases bytes@.len() - i,
    {
        let ghost rest = unescaped(bytes@, i as int);
        if bytes[i] == 0x25 && bytes.len() - i > 2 {
            let high = hex_digit_value(bytes[i + 1]);
            let low = hex_digit_value(bytes[i + 2]);
            if let (Some(a), Some(b)) = (high, low) {
                let byte: u8 = a * 16 + b;
                let ghost before = out@;
                out.push(byte);
                assert(rest == seq![byte] + unescaped(bytes@, i + 3));
                assert(before + rest =~= out@ + unescaped(bytes@, i + 3));
                i = i + 3;
                continue;
            }
        }
        assert(escape_at(bytes@, i as int) is None);
        let ghost before = out@;
        out.push(bytes[i]);
        assert(before + rest =~= out@ + unescaped(bytes@, i + 1));
        i = i + 1;
    }
    assert(out@ + unescaped(bytes@, i as int) =~= out@);
    out
}

/// Decode `%XX` escapes. Anything malformed is left as written, since a path
/// that genuinely contains a stray `%` is likelier than a bad URI.
pub fn percent_decode(value: &str) -> (out: String)
    ensures
        out@ == decoded_text(value@),
{
    let bytes = unescape(value.as_bytes());
    from_utf8_lossy(&bytes)
}

/// The path that a plain path or a `file://` URI stands for. A URI's
/// authority is empty, or `localhost`, for local files.
pub open spec fn path_text(value: Seq<char>) -> Seq<char> {
    if has_prefix(value, "file://"@) {
        let rest = value.skip("file://"@.len() as int);
        if has_prefix(rest, "localhost"@) {
            decoded_text(rest.skip("localhost"@.len() as int))
        } else {
            decoded_text(rest)
        }
    } else {
        value
    }
}

/// A path from either a plain path or a `file://` URI.
///
/// A data file may be edited to pass either, so accepting both removes a way
/// for this to fail confusingly.
pub fn path_from(value: &str) -> (path: String)
    ensures
        path@ == path_text(value@),
{
    match strip_prefix(value, "file://") {
        None => value.to_owned(),
        Some(rest) => match strip_prefix(rest.as_str(), "localhost") {
            Some(encoded) => percent_decode(encoded.as_str()),
            None => percent_decode(rest.as_str()),
        },
    }
}

/// What has been read of a command line so far.
#[verifier::ext_equal]
pub struct SoFar {
    pub size: Option<u32>,
    pub input: Option<Seq<char>>,
    pub output: Option<Seq<char>>,
}

/// What a command line comes to.
#[verifier::ext_equal]
pub enum Parsed {
    /// Help was asked for.
    Help,
    /// It cannot be followed, and why.
    Refused(Seq<char>),
    /// What it asks for.
    Asks { size: u32, input: Seq<char>, output: Seq<char> },
}

/// What a flag is for.
#[derive(Debug, Clone, Copy, PartialEq, Eq, Structural)]
pub enum Flag {
    Help,
    Size,
    Input,
    Output,
    Unknown,
}

/// What a flag is for.
pub open spec fn flag_of(s: Seq<char>) -> Flag {
    if s == "-h"@ || s == "--help"@ {
        Flag::Help
    } else if s == "-s"@ || s == "--size"@ {
        Flag::Size
    } else if s == "-i"@ || s == "--input"@ {
        Flag::Input
    } else if s == "-o"@ || s == "--output"@ {
        Flag::Output
    } else {
        Flag::Unknown
    }
}

/// What the arguments from `i` on come to, after what was read before them.
pub open spec fn parsed_from(args: Seq<Seq<char>>, i: int, so_far: SoFar) -> Parsed
    decreases args.len() - i,
{
    if i >= args.len() {
        match (so_far.input, so_far.output) {
            (None, _) => Parsed::Refused("no input file (-i)"@),
            (_, None) => Parsed::Refused("no output file (-o)"@),
            (Some(input), Some(output)) => Parsed::Asks {
                size: match so_far.size {
                    Some(n) => n,
                    None => DEFAULT_SIZE,
                },
                input,
                output,
            },
        }
    } else {
        match flag_of(args[i]) {
            Flag::Help => Parsed::Help,
            Flag::Unknown => Parsed::Refused("unexpected argument "@ + debug_text(args[i])),
            flag => if i + 1 >= args.len() {
                Parsed::Refused(args[i] + " needs a value"@)
            } else {
                let value = args[i + 1];
                match flag {
                    Flag::Size => match number_of(value) {
                        Some(n) => parsed_from(args, i + 2, SoFar { size: Some(n), ..so_far }),
                        None => Parsed::Refused(
                            debug_text(value) + " is not a size in pixels"@,
                        ),
                    },
                    Flag::Input => parsed_from(
                        args,
                        i + 2,
                        SoFar { input: Some(path_text(value)), ..so_far },
                    ),
                    _ => parsed_from(args, i + 2, SoFar { output: Some(value), ..so_far }),
                }
            },
        }
    }
}

/// What a command line comes to.
pub open spec fn parsed(args: Seq<Seq<char>>) -> Parsed {
    parsed_from(args, 0, SoFar { size: None, input: None, output: None })
}

/// True when `r` says what a command line comes to.
pub open spec fn says(r: Result<Option<Options>, String>, expected: Parsed) -> bool {
    match (r, expected) {
        (Ok(None), Parsed::Help) => true,
        (Err(m), Parsed::Refused(text)) => m@ == text,
        (Ok(Some(o)), Parsed::Asks { size, input, output }) => o.size == size && o.input@ == input
            && o.output@ == output,
        _ => false,
    }
}

fn kind_of(flag: &str) -> (k: Flag)
    ensures
        k == flag_of(flag@),
{
    if same_text(flag, "-h") || same_text(flag, "--help") {
        Flag::Help
    } else if same_text(flag, "-s") || same_text(flag, "--size") {
        Flag::Size
    } else if same_text(flag, "-i") || same_text(flag, "--input") {
        Flag::Input
    } else if same_text(flag, "-o") || same_text(flag, "--output") {
        Flag::Output
    } else {
        Flag::Unknown
    }
}

/// The characters of an optional text.
pub open spec fn view_of(s: Option<String>) -> Option<Seq<char>> {
    match s {
        Some(s) => Some(s@),
        None => None,
    }
}

fn joined_words(a: &str, b: &str) -> (r: String)
    ensures
        r@ == a@ + b@,
{
    let mut r = String::new();
    r.append(a);
    r.append(b);
    assert(r@ =~= a@ + b@);
    r
}

impl Options {
    /// Parse arguments, or `Ok(None)` for `--help`.
    ///
    /// Written by hand rather than with an argument parser: there are three
    /// flags, and this is on a file manager's critical path.
    pub fn parse(args: Vec<String>) -> (r: Result<Option<Options>, String>)
        ensures
            says(r, parsed(texts(args@))),
    {
        let ghost all = texts(args@);
        let mut size: Option<u32> = None;
        let mut input: Option<String> = None;
        let mut output: Option<String> = None;
        let mut i: usize = 0;
        while i < args.len()
            invariant
                i <= args@.len(),
                all == texts(args@),
                parsed(all) == parsed_from(
                    all,
                    i as int,
                    SoFar { size, input: view_of(input), output: view_of(output) },
                ),
            decreases args@.len() - i,
        {
            let flag = &args[i];
            assert(all[i as int] == flag@);
            let kind = kind_of(flag.as_str());
            if kind == Flag::Help {
                return Ok(None);
            }
            if kind == Flag::Unknown {
                let shown = quoted(flag.as_str());
                return Err(joined_words("unexpected argument ", shown.as_str()));
            }
            if i + 1 >= args.len() {
                return Err(joined_words(flag.as_str(), " needs a value"));
            }
            let value = &args[i + 1];
            assert(all[i + 1] == value@);
            if kind == Flag::Size {
                match parse_number(value.as_str()) {
                    Some(n) => {
                        size = Some(n);
                    },
                    None => {
                        let shown = quoted(value.as_str());
                        return Err(joined_words(shown.as_str(), " is not a size in pixels"));
                    },
                }
            } else if kind == Flag::Input {
                input = Some(path_from(value.as_str()));
            } else {
                output = Some(value.clone());
            }
            i = i + 2;
        }
        let input = match input {
            Some(p) => p,
            None => return Err("no input file (-i)".to_owned()),
        };
        let output = match output {
            Some(p) => p,
            None => return Err("no output file (-o)".to_owned()),
        };
        let size: u32 = match size {
            Some(n) => n,
            None => DEFAULT_SIZE,
        };
        Ok(Some(Options { size, input, output }))
    }
}

proof fn lemma_nothing_to_unescape(bytes: Seq<u8>, i: int)
    requires
        0 <= i <= bytes.len(),
        forall|j: int| 0 <= j < bytes.len() ==> #[trigger] bytes[j] != 0x25,
    ensures
        unescaped(bytes, i) == bytes.skip(i),
    decreases bytes.len() - i,
{
    if i < bytes.len() {
        lemma_nothing_to_unescape(bytes, i + 1);
        assert(bytes.skip(i) =~= seq![bytes[i]] + bytes.skip(i + 1));
    } else {
        assert(bytes.skip(i) =~= seq![]);
    }
}

proof fn lemma_wide_scalar_has_high_bytes(c: u32)
    requires
        c > 0x7f,
    ensures
        forall|k: int|
            0 <= k < encode_scalar(c).len() ==> #[trigger] encode_scalar(c)[k] != 0x25,
{
    let b = encode_scalar(c);
    assert((0xC0u8 | ((c >> 6) & 0x1F) as u8) != 0x25 && (0x80u8 | (c & 0x3F) as u8) != 0x25 && (
    0xE0u8 | ((c >> 12) & 0x0F) as u8) != 0x25 && (0x80u8 | ((c >> 6) & 0x3F) as u8) != 0x25 && (
    0xF0u8 | ((c >> 18) & 0x7) as u8) != 0x25 && (0x80u8 | ((c >> 12) & 0x3F) as u8) != 0x25)
        by (bit_vector);
}

proof fn lemma_no_percent_byte(s: Seq<char>)
    requires
        forall|j: int| 0 <= j < s.len() ==> #[trigger] s[j] != '%',
    ensures
        forall|k: int| 0 <= k < encode_utf8(s).len() ==> #[trigger] encode_utf8(s)[k] != 0x25,
    decreases s.len(),
{
    if s.len() > 0 {
        let c = s[0] as u32;
        let rest = s.drop_first();
        assert forall|j: int| 0 <= j < rest.len() implies #[trigger] rest[j] != '%' by {
            assert(rest[j] == s[j + 1]);
        }
        lemma_no_percent_byte(rest);
        assert(s[0] != '%');
        vstd::utf8::char_is_scalar(s[0]);
        if c == 0x25 {
            vstd::utf8::char_u32_cast(s[0], 0x25u32);
        }
        assert(c != 0x25);
        if c > 0x7f {
            lemma_wide_scalar_has_high_bytes(c);
        } else {
            assert((c & 0x7F) as u8 != 0x25) by (bit_vector)
                requires
                    c <= 0x7f,
                    c != 0x25,
            ;
        }
        assert(encode_utf8(s) == encode_scalar(c) + encode_utf8(rest));
    }
}

/// A text without a percent sign decodes to itself.
pub proof fn lemma_plain_text_decodes_to_itself(s: Seq<char>)
    requires
        forall|j: int| 0 <= j < s.len() ==> #[trigger] s[j] != '%',
    ensures
        decoded_text(s) == s,
{
    let bytes = encode_utf8(s);
    lemma_no_percent_byte(s);
    lemma_nothing_to_unescape(bytes, 0);
    assert(bytes.skip(0) =~= bytes);
    vstd::utf8::encode_utf8_valid_utf8(s);
    vstd::utf8::encode_utf8_decode_utf8(s);
}

/// The value of a hexadecimal digit of either case.
pub open spec fn hex_char_value(c: char) -> Option<u8> {
    if '0' <= c <= 'f' {
        hex_value(c as u8)
    } else {
        None
    }
}

/// True when the escape number `k` of `e` stands for `b`: a percent sign and
/// the two hexadecimal digits of `b`, of either case.
pub open spec fn escapes(e: Seq<char>, k: int, b: u8) -> bool {
    &&& e[3 * k] == '%'
    &&& hex_char_value(e[3 * k + 1]) == Some((b / 16) as u8)
    &&& hex_char_value(e[3 * k + 2]) == Some((b % 16) as u8)
}

/// True when `e` is the text with these bytes written entirely in escapes.
pub open spec fn fully_escaped(e: Seq<char>, bytes: Seq<u8>) -> bool {
    &&& e.len() == 3 * bytes.len()
    &&& forall|k: int| 0 <= k < bytes.len() ==> escapes(e, k, #[trigger] bytes[k])
}

proof fn lemma_escapes_decode(e: Seq<char>, bytes: Seq<u8>, k: int)
    requires
        0 <= k <= bytes.len(),
        fully_escaped(e, bytes),
        is_ascii_chars(e),
    ensures
        unescaped(encode_utf8(e), 3 * k) == bytes.skip(k),
    decreases bytes.len() - k,
{
    vstd::utf8::is_ascii_chars_encode_utf8(e);
    let written = encode_utf8(e);
    if k < bytes.len() {
        lemma_escapes_decode(e, bytes, k + 1);
        let b = bytes[k];
        assert(escapes(e, k, b));
        assert(e[3 * k] as u8 == written[3 * k]);
        assert(e[3 * k + 1] as u8 == written[3 * k + 1]);
        assert(e[3 * k + 2] as u8 == written[3 * k + 2]);
        assert(written[3 * k] == 0x25);
        assert(escape_at(written, 3 * k) == Some(b));
        assert(3 * k + 3 == 3 * (k + 1));
        assert(bytes.skip(k) =~= seq![b] + bytes.skip(k + 1));
    } else {
        assert(bytes.skip(k) =~= seq![]);
    }
}

/// A text written entirely in escapes decodes back to itself.
pub proof fn lemma_escaped_text_decodes_back(s: Seq<char>, e: Seq<char>)
    requires
        fully_escaped(e, encode_utf8(s)),
    ensures
        decoded_text(e) == s,
{
    let bytes = encode_utf8(s);
    assert forall|i: int| 0 <= i < e.len() implies '\0' <= #[trigger] e[i] <= '\u{7f}' by {
        let k = i / 3;
        assert(0 <= k < bytes.len());
        assert(escapes(e, k, bytes[k]));
        let c = e[i];
        assert(c == '%' || hex_char_value(c) is Some) by {
            assert(i == 3 * k || i == 3 * k + 1 || i == 3 * k + 2);
        }
    }
    lemma_escapes_decode(e, bytes, 0);
    assert(bytes.skip(0) =~= bytes);
    vstd::utf8::encode_utf8_valid_utf8(s);
    vstd::utf8::encode_utf8_decode_utf8(s);
}

/// Decoding never makes a text longer, byte for byte.
pub proof fn lemma_decoding_shortens(bytes: Seq<u8>, i: int)
    requires
        0 <= i <= bytes.len(),
    ensures
        unescaped(bytes, i).len() <= bytes.len() - i,
    decreases bytes.len() - i,
{
    if i < bytes.len() {
        match escape_at(bytes, i) {
            Some(_) => lemma_decoding_shortens(bytes, i + 3),
            None => lemma_decoding_shortens(bytes, i + 1),
        }
    }
}

/// A path that is no URI is taken as it is, percent signs and all.
pub proof fn lemma_plain_path_is_kept(value: Seq<char>)
    requires
        !has_prefix(value, "file://"@),
    ensures
        path_text(value) == value,
{
}

/// What a command line asks for once an option and its value follow it: that
/// option's own, and the rest as before.
pub open spec fn asks_with(
    before: Parsed,
    flag: Seq<char>,
    value: Seq<char>,
    after: Parsed,
) -> bool {
    match (before, after) {
        (
            Parsed::Asks { size, input, output },
            Parsed::Asks { size: new_size, input: new_input, output: new_output },
        ) => {
            &&& new_size == if flag == "-s"@ || flag == "--size"@ {
                number_of(value)->0
            } else {
                size
            }
            &&& new_input == if flag == "-i"@ || flag == "--input"@ {
                path_text(value)
            } else {
                input
            }
            &&& new_output == if flag == "-o"@ || flag == "--output"@ {
                value
            } else {
                output
            }
        },
        _ => false,
    }
}

proof fn lemma_flags_are_told_apart(flag: Seq<char>)
    ensures
        flag_of(flag) == Flag::Size <==> flag == "-s"@ || flag == "--size"@,
        flag_of(flag) == Flag::Input <==> flag == "-i"@ || flag == "--input"@,
        flag_of(flag) == Flag::Output <==> flag == "-o"@ || flag == "--output"@,
        flag_of(flag) == Flag::Help <==> flag == "-h"@ || flag == "--help"@,
{
    reveal_strlit("-s");
    reveal_strlit("--size");
    reveal_strlit("-i");
    reveal_strlit("--input");
    reveal_strlit("-o");
    reveal_strlit("--output");
    reveal_strlit("-h");
    reveal_strlit("--help");
    assert("-s"@[1] != "-i"@[1] && "-s"@[1] != "-o"@[1] && "-i"@[1] != "-o"@[1] && "-h"@[1]
        != "-s"@[1] && "-h"@[1] != "-i"@[1] && "-h"@[1] != "-o"@[1]);
    assert("--size"@[2] != "--help"@[2]);
    assert("--output"@.len() == 8 && "--input"@.len() == 7 && "--size"@.len() == 6 && "--help"@.len()
        == 6);
    assert("-o"@.len() == 2 && "-i"@.len() == 2 && "-s"@.len() == 2 && "-h"@.len() == 2);
}

proof fn lemma_later_option(
    args: Seq<Seq<char>>,
    i: int,
    so_far: SoFar,
    flag: Seq<char>,
    value: Seq<char>,
)
    requires
        0 <= i <= args.len(),
        parsed_from(args, i, so_far) is Asks,
        flag_of(flag) == Flag::Size || flag_of(flag) == Flag::Input || flag_of(flag)
            == Flag::Output,
        flag_of(flag) == Flag::Size ==> number_of(value) is Some,
    ensures
        asks_with(
            parsed_from(args, i, so_far),
            flag,
            value,
            parsed_from(args + seq![flag, value], i, so_far),
        ),
    decreases args.len() - i,
{
    let more = args + seq![flag, value];
    lemma_flags_are_told_apart(flag);
    if i == args.len() {
        assert(more[i] == flag && more[i + 1] == value);
        reveal_with_fuel(parsed_from, 2);
    } else {
        assert(more[i] == args[i]);
        assert(i + 1 < args.len());
        assert(more[i + 1] == args[i + 1]);
        match flag_of(args[i]) {
            Flag::Size => {
                let n = number_of(args[i + 1]);
                lemma_later_option(
                    args,
                    i + 2,
                    SoFar { size: n, ..so_far },
                    flag,
                    value,
                );
            },
            Flag::Input => {
                lemma_later_option(
                    args,
                    i + 2,
                    SoFar { input: Some(path_text(args[i + 1])), ..so_far },
                    flag,
                    value,
                );
            },
            _ => {
                lemma_later_option(
                    args,
                    i + 2,
                    SoFar { output: Some(args[i + 1]), ..so_far },
                    flag,
                    value,
                );
            },
        }
    }
}

/// An option at the end of a command line that asks for a picture decides what
/// it is the option for, and nothing else: the last of each kind counts.
pub proof fn lemma_the_last_option_counts(
    args: Seq<Seq<char>>,
    flag: Seq<char>,
    value: Seq<char>,
)
    requires
        parsed(args) is Asks,
        flag == "-s"@ || flag == "--size"@ ==> number_of(value) is Some,
        flag == "-s"@ || flag == "--size"@ || flag == "-i"@ || flag == "--input"@ || flag == "-o"@
            || flag == "--output"@,
    ensures
        asks_with(parsed(args), flag, value, parsed(args + seq![flag, value])),
{
    lemma_flags_are_told_apart(flag);
    lemma_later_option(args, 0, SoFar { size: None, input: None, output: None }, flag, value);
}

/// An input and an output are enough, and a picture is 512 pixels then.
pub proof fn lemma_an_input_and_an_output_are_enough(input: Seq<char>, output: Seq<char>)
    ensures
        parsed(seq!["-i"@, input, "-o"@, output]) == (Parsed::Asks {
            size: 512,
            input: path_text(input),
            output,
        }),
{
    let args = seq!["-i"@, input, "-o"@, output];
    lemma_flags_are_told_apart("-i"@);
    lemma_flags_are_told_apart("-o"@);
    reveal_strlit("-i");
    reveal_strlit("-o");
    reveal_with_fuel(parsed_from, 3);
    assert(args[0] == "-i"@ && args[1] == input && args[2] == "-o"@ && args[3] == output);
}

/// A number that is written out in digits is read as itself.
pub proof fn lemma_sizes_read_back(n: u32)
    ensures
        number_of(crate::text::decimal_text(n as nat)) == Some(n),
{
    let s = crate::text::decimal_text(n as nat);
    crate::text::lemma_decimal_text_is_digits(n as nat);
    lemma_digits_read_back(n as nat);
    assert(s[0] != '+');
}

proof fn lemma_digits_read_back(n: nat)
    ensures
        crate::text::digits_value(crate::text::decimal_text(n)) == n,
        crate::text::decimal_text(n).len() > 0,
    decreases n,
{
    let s = crate::text::decimal_text(n);
    if n < 10 {
        reveal_with_fuel(crate::text::digits_value, 2);
        assert(s.drop_last() =~= seq![]);
    } else {
        lemma_digits_read_back(n / 10);
        assert(s.drop_last() =~= crate::text::decimal_text(n / 10));
    }
}

} // verus!
