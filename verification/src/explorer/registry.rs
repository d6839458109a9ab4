//! Self-registration: what has to be written where, and what takes it away
//! again.

use vstd::prelude::*;

use crate::text::{has_prefix, texts};

verus! {

/// Where a key lives.
///
/// Class registration goes under the classes root; the preview-handler list
/// is only read from the local machine.
#[derive(Debug, Clone, Copy, PartialEq, Eq, Structural)]
pub enum Hive {
    Classes,
    LocalMachine,
}

/// One value to write. Without a name it is the key's default value.
#[derive(Debug)]
pub struct RegistryWrite {
    pub hive: Hive,
    pub subkey: String,
    pub name: Option<String>,
    pub value: String,
}

/// One value to write, as plain values.
#[verifier::ext_equal]
pub struct WriteView {
    pub hive: Hive,
    pub subkey: Seq<char>,
    pub name: Option<Seq<char>>,
    pub value: Seq<char>,
}

impl View for RegistryWrite {
    type V = WriteView;

    open spec fn view(&self) -> WriteView {
        WriteView {
            hive: self.hive,
            subkey: self.subkey@,
            name: match self.name {
                Some(n) => Some(n@),
                None => None,
            },
            value: self.value@,
        }
    }
}

/// Class id of the thumbnail provider.
///
/// Arbitrary but permanent: both are written into the registry, so changing
/// one orphans every installation that already registered the old value.
pub const CLSID_THUMBNAIL_PROVIDER: u128 = 0x7e1b4c2a_9d3f_4a61_8b52_6c0e9a47d310;

/// Class id of the preview handler.
pub const CLSID_PREVIEW_HANDLER: u128 = 0x7e1b4c2b_9d3f_4a61_8b52_6c0e9a47d310;

/// The upper-case hexadecimal digit for a number below sixteen.
pub open spec fn upper_hex(d: nat) -> char {
    if d < 10 {
        crate::text::digit_char(d)
    } else if d == 10 {
        'A'
    } else if d == 11 {
        'B'
    } else if d == 12 {
        'C'
    } else if d == 13 {
        'D'
    } else if d == 14 {
        'E'
    } else {
        'F'
    }
}

/// The last `n` hexadecimal digits of a number, the most significant first.
pub open spec fn hex_text(v: nat, n: nat) -> Seq<char>
    decreases n,
{
    if n == 0 {
        seq![]
    } else {
        hex_text(v / 16, (n - 1) as nat).push(upper_hex(v % 16))
    }
}

/// A class id as it is written: its thirty-two hexadecimal digits in groups
/// of eight, four, four, four and twelve.
pub open spec fn guid_text(guid: u128) -> Seq<char> {
    let d = hex_text(guid as nat, 32);
    d.subrange(0, 8) + "-"@ + d.subrange(8, 12) + "-"@ + d.subrange(12, 16) + "-"@ + d.subrange(
        16,
        20,
    ) + "-"@ + d.subrange(20, 32)
}

/// `<windows_core::GUID as Debug>::fmt`, through `format!`, of the id that
/// `windows_core::GUID::from_u128` makes of a number: the digits of the
/// number, in upper case, in groups of eight, four, four, four and twelve.
#[verifier::external_body]
fn shown_guid(guid: u128) -> (r: String)
    ensures
        r@ == guid_text(guid),
{
    format!("{:?}", windows_core::GUID::from_u128(guid))
}

/// A class id in braces.
pub open spec fn braced_text(guid: u128) -> Seq<char> {
    "{"@ + guid_text(guid) + "}"@
}

/// A class id in the braced form the registry uses.
pub fn braced(guid: u128) -> (r: String)
    ensures
        r@ == braced_text(guid),
{
    let mut r = String::new();
    r.append("{");
    r.append(shown_guid(guid).as_str());
    r.append("}");
    assert(r@ =~= braced_text(guid));
    r
}

/// The UTF-16 units of a character: one, or a surrogate pair.
pub open spec fn utf16_units(c: char) -> Seq<u16> {
    let v = c as u32;
    if v < 0x10000 {
        seq![v as u16]
    } else {
        seq![(0xd800 + (v - 0x10000) / 1024) as u16, (0xdc00 + (v - 0x10000) % 1024) as u16]
    }
}

/// A text in UTF-16.
pub open spec fn utf16_text(s: Seq<char>) -> Seq<u16>
    decreases s.len(),
{
    if s.len() == 0 {
        seq![]
    } else {
        utf16_text(s.drop_last()) + utf16_units(s.last())
    }
}

/// NUL-terminated UTF-16, which is what every wide entry point wants.
pub fn wide(value: &str) -> (out: Vec<u16>)
    ensures
        out@ == utf16_text(value@).push(0),
{
    let mut out: Vec<u16> = Vec::new();
    assert(out@ =~= utf16_text(value@.take(0)));
    for c in it: value.chars()
        invariant
            it.seq() == value@,
            out@ == utf16_text(value@.take(it.index())),
    {
        let v: u32 = c as u32;
        if v < 0x10000 {
            out.push(v as u16);
        } else {
            out.push((0xd800 + (v - 0x10000) / 1024) as u16);
            out.push((0xdc00 + (v - 0x10000) % 1024) as u16);
        }
        proof {
            let next = value@.take(it.index() + 1);
            assert(next.drop_last() =~= value@.take(it.index()));
            assert(next.last() == c);
            assert(out@ =~= utf16_text(next));
        }
    }
    assert(value@.take(value@.len() as int) =~= value@);
    out.push(0);
    out
}

/// The key of a class.
pub open spec fn class_key(clsid: Seq<char>) -> Seq<char> {
    "CLSID\\"@ + clsid
}

/// The key that says where a class lives.
pub open spec fn server_key(clsid: Seq<char>) -> Seq<char> {
    class_key(clsid) + "\\InprocServer32"@
}

/// The shell's own id for thumbnail handlers.
pub open spec fn thumbnail_slot() -> Seq<char> {
    "{e357fccd-a995-4576-b01f-234630154e96}"@
}

/// The shell's own id for preview handlers.
pub open spec fn preview_slot() -> Seq<char> {
    "{8895b1c6-b41f-4c1c-a562-0d564250836f}"@
}

/// The key that names the handler of a slot for this kind of file.
pub open spec fn slot_key(slot: Seq<char>) -> Seq<char> {
    ".hep\\ShellEx\\"@ + slot
}

/// The key that lists the preview handlers.
pub open spec fn handler_list() -> Seq<char> {
    "SOFTWARE\\Microsoft\\Windows\\CurrentVersion\\PreviewHandlers"@
}

/// The three values every in-process class needs.
pub open spec fn class_writes(
    clsid: Seq<char>,
    path: Seq<char>,
    description: Seq<char>,
) -> Seq<WriteView> {
    seq![
        WriteView {
            hive: Hive::Classes,
            subkey: class_key(clsid),
            name: None,
            value: description,
        },
        WriteView { hive: Hive::Classes, subkey: server_key(clsid), name: None, value: path },
        WriteView {
            hive: Hive::Classes,
            subkey: server_key(clsid),
            name: Some("ThreadingModel"@),
            value: "Apartment"@,
        },
    ]
}

/// Everything registration writes, in order.
///
/// The thumbnail handler is a class and the extension pointing at it. The
/// preview handler needs two things more: an `AppID`, so it is hosted outside
/// Explorer, and an entry in the shell's list of preview handlers.
pub open spec fn registration(path: Seq<char>) -> Seq<WriteView> {
    let thumbnail = braced_text(CLSID_THUMBNAIL_PROVIDER);
    let preview = braced_text(CLSID_PREVIEW_HANDLER);
    class_writes(thumbnail, path, "Hephaestus plot thumbnail handler"@) + seq![
        WriteView {
            hive: Hive::Classes,
            subkey: slot_key(thumbnail_slot()),
            name: None,
            value: thumbnail,
        },
    ] + class_writes(preview, path, "Hephaestus plot preview handler"@) + seq![
        WriteView {
            hive: Hive::Classes,
            subkey: class_key(preview),
            name: Some("AppID"@),
            value: "{534A1E02-D58F-44f0-B58B-36CBED287C7C}"@,
        },
        WriteView {
            hive: Hive::Classes,
            subkey: slot_key(preview_slot()),
            name: None,
            value: preview,
        },
        WriteView {
            hive: Hive::LocalMachine,
            subkey: handler_list(),
            name: Some(preview),
            value: "Hephaestus plot preview handler"@,
        },
    ]
}

/// Every key unregistration removes, with everything under it, in order.
pub open spec fn removals() -> Seq<Seq<char>> {
    seq![
        class_key(braced_text(CLSID_THUMBNAIL_PROVIDER)),
        slot_key(thumbnail_slot()),
        class_key(braced_text(CLSID_PREVIEW_HANDLER)),
        slot_key(preview_slot()),
    ]
}

/// The writes of a list as plain values.
pub open spec fn write_views(writes: Seq<RegistryWrite>) -> Seq<WriteView> {
    Seq::new(writes.len(), |i: int| writes[i]@)
}

fn joined(a: &str, b: &str) -> (r: String)
    ensures
        r@ == a@ + b@,
{
    let mut r = String::new();
    r.append(a);
    r.append(b);
    assert(r@ =~= a@ + b@);
    r
}

fn push_write(
    out: &mut Vec<RegistryWrite>,
    hive: Hive,
    subkey: String,
    name: Option<String>,
    value: &str,
)
    ensures
        write_views(final(out)@) == write_views(old(out)@).push(
            WriteView {
                hive,
                subkey: subkey@,
                name: match name {
                    Some(n) => Some(n@),
                    None => None,
                },
                value: value@,
            },
        ),
{
    let ghost before = write_views(out@);
    let write = RegistryWrite { hive, subkey, name, value: value.to_owned() };
    out.push(write);
    assert(write_views(out@) =~= before.push(write@));
}

/// The three values every in-process class needs.
fn register_class(out: &mut Vec<RegistryWrite>, clsid: &str, path: &str, description: &str)
    ensures
        write_views(final(out)@) == write_views(old(out)@) + class_writes(
            clsid@,
            path@,
            description@,
        ),
{
    let ghost before = write_views(out@);
    let class = joined("CLSID\\", clsid);
    let server = joined(class.as_str(), "\\InprocServer32");
    let server_again = server.clone();
    push_write(out, Hive::Classes, class, None, description);
    push_write(out, Hive::Classes, server, None, path);
    // One apartment rather than both: neither handler is thread-safe, and
    // letting calls be serialized is cheaper than making a per-file object
    // thread-safe.
    push_write(
        out,
        Hive::Classes,
        server_again,
        Some("ThreadingModel".to_owned()),
        "Apartment",
    );
    assert(write_views(out@) =~= before + class_writes(clsid@, path@, description@));
}

/// Everything registration writes, given this library's own path.
pub fn register(path: &str) -> (out: Vec<RegistryWrite>)
    ensures
        write_views(out@) == registration(path@),
{
    let mut out: Vec<RegistryWrite> = Vec::new();
    assert(write_views(out@) =~= Seq::<WriteView>::empty());
    let thumbnail = braced(CLSID_THUMBNAIL_PROVIDER);
    let preview = braced(CLSID_PREVIEW_HANDLER);
    register_class(
        &mut out,
        thumbnail.as_str(),
        path,
        "Hephaestus plot thumbnail handler",
    );
    push_write(
        &mut out,
        Hive::Classes,
        joined(".hep\\ShellEx\\", "{e357fccd-a995-4576-b01f-234630154e96}"),
        None,
        thumbnail.as_str(),
    );
    register_class(&mut out, preview.as_str(), path, "Hephaestus plot preview handler");
    push_write(
        &mut out,
        Hive::Classes,
        joined("CLSID\\", preview.as_str()),
        Some("AppID".to_owned()),
        "{534A1E02-D58F-44f0-B58B-36CBED287C7C}",
    );
    push_write(
        &mut out,
        Hive::Classes,
        joined(".hep\\ShellEx\\", "{8895b1c6-b41f-4c1c-a562-0d564250836f}"),
        None,
        preview.as_str(),
    );
    push_write(
        &mut out,
        Hive::LocalMachine,
        "SOFTWARE\\Microsoft\\Windows\\CurrentVersion\\PreviewHandlers".to_owned(),
        Some(preview.clone()),
        "Hephaestus plot preview handler",
    );
    assert(write_views(out@) =~= registration(path@));
    out
}

/// Every key unregistration removes from the classes root.
///
/// The entry in the shell's list is a value rather than a key, so it is left
/// in place: a stale entry naming an unregistered class is ignored.
pub fn unregister() -> (keys: Vec<String>)
    ensures
        texts(keys@) == removals(),
{
    let mut keys: Vec<String> = Vec::new();
    let thumbnail = braced(CLSID_THUMBNAIL_PROVIDER);
    let preview = braced(CLSID_PREVIEW_HANDLER);
    keys.push(joined("CLSID\\", thumbnail.as_str()));
    keys.push(joined(".hep\\ShellEx\\", "{e357fccd-a995-4576-b01f-234630154e96}"));
    keys.push(joined("CLSID\\", preview.as_str()));
    keys.push(joined(".hep\\ShellEx\\", "{8895b1c6-b41f-4c1c-a562-0d564250836f}"));
    assert(texts(keys@) =~= removals());
    keys
}

proof fn lemma_prefix_of_joined(a: Seq<char>, b: Seq<char>)
    ensures
        has_prefix(a + b, a),
        has_prefix(a, a),
{
    assert((a + b).take(a.len() as int) =~= a);
    assert(a.take(a.len() as int) =~= a);
}

/// Everything registration writes under the classes root stands in a key
/// that unregistration removes.
pub proof fn lemma_unregistering_removes_the_classes(path: Seq<char>, i: int)
    requires
        0 <= i < registration(path).len(),
        registration(path)[i].hive == Hive::Classes,
    ensures
        exists|k: int|
            0 <= k < removals().len() && has_prefix(
                registration(path)[i].subkey,
                #[trigger] removals()[k],
            ),
{
    let thumbnail = braced_text(CLSID_THUMBNAIL_PROVIDER);
    let preview = braced_text(CLSID_PREVIEW_HANDLER);
    lemma_prefix_of_joined(class_key(thumbnail), "\\InprocServer32"@);
    lemma_prefix_of_joined(class_key(preview), "\\InprocServer32"@);
    lemma_prefix_of_joined(slot_key(thumbnail_slot()), seq![]);
    lemma_prefix_of_joined(slot_key(preview_slot()), seq![]);
    let key = registration(path)[i].subkey;
    if i < 3 {
        assert(has_prefix(key, removals()[0]));
    } else if i == 3 {
        assert(has_prefix(key, removals()[1]));
    } else if i < 8 {
        assert(has_prefix(key, removals()[2]));
    } else {
        assert(i == 8);
        assert(has_prefix(key, removals()[3]));
    }
}

/// What an upper-case hexadecimal digit is worth.
pub open spec fn digit_worth(c: char) -> int {
    if '0' <= c <= '9' {
        c as u32 - 48
    } else if 'A' <= c <= 'F' {
        c as u32 - 55
    } else {
        -1
    }
}

/// What hexadecimal digits are worth together, the highest first.
pub open spec fn hex_value(s: Seq<char>) -> int
    decreases s.len(),
{
    if s.len() == 0 {
        0
    } else {
        16 * hex_value(s.drop_last()) + digit_worth(s.last())
    }
}

proof fn lemma_hex_reads_back(v: nat, n: nat)
    ensures
        hex_text(v, n).len() == n,
        forall|i: int| 0 <= i < n ==> digit_worth(#[trigger] hex_text(v, n)[i]) >= 0,
        v < vstd::arithmetic::power::pow(16, n) ==> hex_value(hex_text(v, n)) == v,
    decreases n,
{
    reveal(vstd::arithmetic::power::pow);
    if n > 0 {
        let m = (n - 1) as nat;
        lemma_hex_reads_back(v / 16, m);
        let before = hex_text(v / 16, m);
        assert(hex_text(v, n).drop_last() =~= before);
        if v < vstd::arithmetic::power::pow(16, n) {
            assert(v / 16 < vstd::arithmetic::power::pow(16, m));
        }
    }
}

/// A class id reads back as the number it is: thirty-two hexadecimal digits, in
/// groups of eight, four, four, four and twelve with a dash between each two.
pub proof fn lemma_class_ids_read_back(guid: u128)
    ensures
        ({
            let s = guid_text(guid);
            &&& s.len() == 36
            &&& s[8] == '-' && s[13] == '-' && s[18] == '-' && s[23] == '-'
            &&& hex_value(
                s.subrange(0, 8) + s.subrange(9, 13) + s.subrange(14, 18) + s.subrange(19, 23)
                    + s.subrange(24, 36),
            ) == guid
        }),
{
    let d = hex_text(guid as nat, 32);
    let s = guid_text(guid);
    lemma_hex_reads_back(guid as nat, 32);
    assert(vstd::arithmetic::power::pow(16, 32) == 0x1_0000_0000_0000_0000_0000_0000_0000_0000) by {
        reveal_with_fuel(vstd::arithmetic::power::pow, 9);
        assert(vstd::arithmetic::power::pow(16, 8) == 0x1_0000_0000);
        vstd::arithmetic::power::lemma_pow_adds(16, 8, 8);
        assert(vstd::arithmetic::power::pow(16, 16) == 0x1_0000_0000_0000_0000);
        vstd::arithmetic::power::lemma_pow_adds(16, 16, 16);
    }
    reveal_strlit("-");
    assert(s.subrange(0, 8) + s.subrange(9, 13) + s.subrange(14, 18) + s.subrange(19, 23)
        + s.subrange(24, 36) =~= d);
}

/// The character that one unit, or two, stand for.
pub open spec fn unit_char(units: Seq<u16>) -> int {
    if units.len() == 1 {
        units[0] as int
    } else {
        0x10000 + (units[0] - 0xd800) * 0x400 + (units[1] - 0xdc00)
    }
}

/// A character is one unit that is its own number, or, from 65536 on, a pair of
/// a high half and a low one that its number reads back from.
pub proof fn lemma_units_read_back(c: char)
    ensures
        unit_char(utf16_units(c)) == c as u32,
        (c as u32) < 0x10000 ==> utf16_units(c).len() == 1,
        (c as u32) >= 0x10000 ==> utf16_units(c).len() == 2 && 0xd800 <= utf16_units(c)[0] < 0xdc00
            && 0xdc00 <= utf16_units(c)[1] < 0xe000,
{
}

/// Text is its characters' units, one character after the other.
pub proof fn lemma_units_are_in_order(a: Seq<char>, b: Seq<char>)
    ensures
        utf16_text(a + b) == utf16_text(a) + utf16_text(b),
    decreases b.len(),
{
    if b.len() == 0 {
        assert(a + b =~= a);
        assert(utf16_text(a) + utf16_text(b) =~= utf16_text(a));
    } else {
        lemma_units_are_in_order(a, b.drop_last());
        assert((a + b).drop_last() =~= a + b.drop_last());
        assert(utf16_text(a) + utf16_text(b.drop_last()) + utf16_units(b.last()) =~= utf16_text(a)
            + (utf16_text(b.drop_last()) + utf16_units(b.last())));
    }
}

} // verus!
