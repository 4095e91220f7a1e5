//! Everything the library takes from outside: regular expressions, JSON, and the parts of `std`
//! that have no specification of their own. What is believed here is believed, not proved.

use vstd::prelude::*;
use vstd::utf8::*;

use crate::text::is_space;
use crate::unitypackage::{archive_of, whole, TarMember, TarMemberView};

verus! {

// ----- the patterns --------------------------------------------------------------------------

/// YAML `guid: abc...`, JSON `"guid": "abc..."` and escaped JSON `\"guid\":\"abc...\"`.
pub const GUID_REF: &'static str = "guid[\\\\\"]*\\s*:\\s*[\\\\\"]*([0-9a-fA-F]{32})";

/// The class id in the header of a YAML document.
pub const CLASS_ID: &'static str = "(?m)^--- !u!(\\d+)";

/// The importer in a `.meta` file.
pub const IMPORTER: &'static str = "(?m)^([A-Za-z0-9]+Importer):";

/// The mark of a folder in a `.meta` file.
pub const FOLDER: &'static str = "(?m)^folderAsset:\\s*yes";

/// The label list in a `.meta` file.
pub const LABELS: &'static str = "(?m)^labels:\\n((?:- .*\\n?)+)";

/// The patterns of this library.
pub open spec fn known_pattern(p: Seq<char>) -> bool {
    p == GUID_REF@ || p == CLASS_ID@ || p == IMPORTER@ || p == FOLDER@ || p == LABELS@
}

// ----- what GUID_REF matches -----------------------------------------------------------------

pub open spec fn byte_is_hex(b: u8) -> bool {
    (0x30 <= b <= 0x39) || (0x41 <= b <= 0x46) || (0x61 <= b <= 0x66)
}

pub open spec fn byte_is_quote(b: u8) -> bool {
    b == 0x22 || b == 0x5c
}

/// Where the run of quotes and backslashes that begins at `i` ends.
pub open spec fn quotes_end(data: Seq<u8>, i: int) -> int
    decreases data.len() - i,
{
    if 0 <= i < data.len() && byte_is_quote(data[i]) {
        quotes_end(data, i + 1)
    } else {
        i
    }
}

/// Whether a white-space character in UTF-8 stands at `i`, `n` bytes long.
pub open spec fn space_at(data: Seq<u8>, i: int, n: int) -> bool {
    &&& 0 <= i && 0 < n && i + n <= data.len()
    &&& exists|c: char| is_space(c) && #[trigger] encode_utf8(seq![c]) == data.subrange(i, i + n)
}

/// Where the run of white space that begins at `i` ends.
pub open spec fn spaces_end(data: Seq<u8>, i: int) -> int
    decreases data.len() - i,
{
    if space_at(data, i, 1) {
        spaces_end(data, i + 1)
    } else if space_at(data, i, 2) {
        spaces_end(data, i + 2)
    } else if space_at(data, i, 3) {
        spaces_end(data, i + 3)
    } else {
        i
    }
}

/// Where the hexadecimal digits stand that the word `guid` at `i` introduces: behind optional
/// quotes, optional white space, a colon, optional white space and optional quotes.
pub open spec fn digits_behind(data: Seq<u8>, i: int) -> int {
    quotes_end(data, spaces_end(data, spaces_end(data, quotes_end(data, i + 4)) + 1))
}

/// Whether the word `guid` at `i` introduces 32 hexadecimal digits.
pub open spec fn names_guid(data: Seq<u8>, i: int) -> bool {
    let colon = spaces_end(data, quotes_end(data, i + 4));
    let h = digits_behind(data, i);
    &&& 0 <= i && i + 4 <= data.len()
    &&& data[i] == 0x67 && data[i + 1] == 0x75 && data[i + 2] == 0x69 && data[i + 3] == 0x64
    &&& colon < data.len() && data[colon] == 0x3a
    &&& h + 32 <= data.len()
    &&& forall|k: int| h <= k < h + 32 ==> byte_is_hex(#[trigger] data[k])
}

/// Whether 32 hexadecimal digits that some `guid` introduces stand at `h`.
pub open spec fn guid_at(data: Seq<u8>, h: int) -> bool {
    exists|i: int| #[trigger] names_guid(data, i) && digits_behind(data, i) == h
}

// ----- regular expressions -------------------------------------------------------------------

/// Every span lies within the data.
pub open spec fn spans_within(spans: Seq<Option<(usize, usize)>>, data: Seq<u8>) -> bool {
    forall|i: int|
        0 <= i < spans.len() ==> (#[trigger] spans[i] matches Some((s, e)) ==> s <= e <= data.len())
}

/// The spans are exactly the places where a `guid` introduces 32 hexadecimal digits.
pub open spec fn spans_are_guids(spans: Seq<Option<(usize, usize)>>, data: Seq<u8>) -> bool {
    &&& forall|i: int|
        0 <= i < spans.len() ==> (#[trigger] spans[i] matches Some((s, e)) && e == s + 32 && guid_at(
            data,
            s as int,
        ))
    &&& forall|h: int| #[trigger] guid_at(data, h) ==> spans.contains(Some((h as usize, (h + 32) as usize)))
}

/// Where the given group of a pattern stands in each match, from left to right, as
/// `regex::bytes::Regex` finds them.
pub uninterp spec fn group_spans(pattern: Seq<char>, group: usize, data: Seq<u8>) -> Seq<Option<(usize, usize)>>;

/// `regex::bytes::Regex::captures_iter`: for each match, from left to right, where the given group
/// stands. The spans lie within the data. Of the first group of [`GUID_REF`]: it takes part in
/// every match, its spans are 32 bytes long, and they are exactly the places where a `guid`
/// introduces 32 hexadecimal digits; two matches cannot overlap, for a match holds the letter `g`
/// only at its start.
#[verifier::external_body]
pub(crate) fn find_groups(pattern: &str, group: usize, data: &[u8]) -> (r: Vec<Option<(usize, usize)>>)
    requires
        known_pattern(pattern@),
    ensures
        r@ == group_spans(pattern@, group, data@),
        spans_within(r@, data@),
        pattern@ == GUID_REF@ && group == 1 ==> spans_are_guids(r@, data@),
{
    let re = regex::bytes::Regex::new(pattern).unwrap();
    re.captures_iter(data).map(|c| c.get(group).map(|m| (m.start(), m.end()))).collect()
}

// ----- JSON ----------------------------------------------------------------------------------

/// The compact text of the JSON object that the bytes spell, if they spell one.
pub uninterp spec fn json_object_of(data: Seq<u8>) -> Option<Seq<char>>;

/// The string at a JSON pointer in the document that the bytes spell.
pub uninterp spec fn json_string_of(data: Seq<u8>, pointer: Seq<char>) -> Option<Seq<char>>;

/// The compact text of the value at a JSON pointer in the document that the bytes spell.
pub uninterp spec fn json_value_of(data: Seq<u8>, pointer: Seq<char>) -> Option<Seq<char>>;

/// The strings that a JSON text spells, if it is a list of strings.
pub uninterp spec fn json_list_of(text: Seq<char>) -> Option<Seq<Seq<char>>>;

/// The JSON text of a list of strings.
pub uninterp spec fn json_list_text_of(list: Seq<Seq<char>>) -> Seq<char>;

/// `serde_json::from_slice`, and the `to_string` of the value where it is an object.
#[verifier::external_body]
pub(crate) fn json_object(data: &[u8]) -> (r: Option<String>)
    ensures
        r.deep_view() == json_object_of(data@),
{
    match serde_json::from_slice::<serde_json::Value>(data) {
        Ok(serde_json::Value::Object(m)) => Some(serde_json::Value::Object(m).to_string()),
        _ => None,
    }
}

/// `serde_json::Value::pointer` on what `from_slice` reads, and its string where it is one.
#[verifier::external_body]
pub(crate) fn json_string(data: &[u8], pointer: &str) -> (r: Option<String>)
    ensures
        r.deep_view() == json_string_of(data@, pointer@),
{
    let v = serde_json::from_slice::<serde_json::Value>(data).ok()?;
    v.pointer(pointer)?.as_str().map(|s| s.to_string())
}

/// `serde_json::Value::pointer` on what `from_slice` reads, and the `to_string` of what stands
/// there.
#[verifier::external_body]
pub(crate) fn json_value(data: &[u8], pointer: &str) -> (r: Option<String>)
    ensures
        r.deep_view() == json_value_of(data@, pointer@),
{
    let v = serde_json::from_slice::<serde_json::Value>(data).ok()?;
    v.pointer(pointer).map(|x| x.to_string())
}

/// What `serde_json` finds wrong with bytes that spell no document.
pub uninterp spec fn json_fault_of(data: Seq<u8>) -> Option<Seq<char>>;

/// The error of `serde_json::from_slice`, in words: there is one exactly where the bytes spell no
/// document, and so nothing stands at the empty pointer, which is that of the whole.
#[verifier::external_body]
pub(crate) fn json_fault(data: &[u8]) -> (r: Option<String>)
    ensures
        r.deep_view() == json_fault_of(data@),
        r is Some <==> json_value_of(data@, ""@) is None,
{
    serde_json::from_slice::<serde_json::Value>(data).err().map(|e| e.to_string())
}

/// The document that a JSON text spells, over several lines, if it spells one.
pub uninterp spec fn json_pretty_of(text: Seq<char>) -> Option<Seq<char>>;

/// `serde_json::to_string_pretty` of what `from_str` reads.
#[verifier::external_body]
pub(crate) fn json_pretty(text: &str) -> (r: Option<String>)
    ensures
        r.deep_view() == json_pretty_of(text@),
{
    let v = serde_json::from_str::<serde_json::Value>(text).ok()?;
    serde_json::to_string_pretty(&v).ok()
}

/// `serde_json::from_str` into a list of strings.
#[verifier::external_body]
pub(crate) fn json_list(text: &str) -> (r: Option<Vec<String>>)
    ensures
        r.deep_view() == json_list_of(text@),
{
    serde_json::from_str::<Vec<String>>(text).ok()
}

/// `serde_json::to_string` of a list of strings, which reads back as that list.
#[verifier::external_body]
pub(crate) fn json_list_text(list: &Vec<String>) -> (r: String)
    ensures
        r@ == json_list_text_of(list.deep_view()),
        json_list_of(r@) == Some(list.deep_view()),
{
    serde_json::to_string(list).unwrap()
}

/// The JSON text of a string.
pub uninterp spec fn json_text_of(text: Seq<char>) -> Seq<char>;

/// `serde_json::to_string` of a string.
#[verifier::external_body]
pub(crate) fn json_text(text: &str) -> (r: String)
    ensures
        r@ == json_text_of(text@),
{
    serde_json::to_string(text).unwrap()
}

// ----- archives ------------------------------------------------------------------------------

/// An entry of an archive as it stands there: the bytes of its path, whether it is a regular file,
/// the size and the time of change that its header gives, and its data or why they cannot be read.
pub type RawEntry = (Vec<u8>, bool, Option<u64>, Option<u64>, Result<Vec<u8>, String>);

/// What a [`RawEntry`] holds.
pub type RawEntryView = (Seq<u8>, bool, Option<u64>, Option<u64>, Result<Seq<u8>, Seq<char>>);

/// What an entry holds, or why there is none.
pub open spec fn raw_view(r: Result<RawEntry, String>) -> Result<RawEntryView, Seq<char>> {
    match r {
        Ok(e) => Ok((e.0@, e.1, e.2, e.3, bytes_or_words(e.4))),
        Err(t) => Err(t@),
    }
}

pub open spec fn raw_views(v: Vec<Result<RawEntry, String>>) -> Seq<Result<RawEntryView, Seq<char>>> {
    v@.map_values(|r: Result<RawEntry, String>| raw_view(r))
}

/// The entries of the gzipped tar archive that the bytes hold.
pub uninterp spec fn raw_entries_of(data: Seq<u8>) -> Seq<Result<RawEntryView, Seq<char>>>;

/// `tar::Archive::entries` on `flate2::read::GzDecoder`, with the data of every entry read to their
/// end. The entries come in the order they stand in; where either crate reports an error, its words
/// take the place of the data or of the entry. `entries` itself fails only on an archive that has been
/// read from, and this one is new.
#[verifier::external_body]
pub(crate) fn raw_entries(data: &[u8]) -> (r: Vec<Result<RawEntry, String>>)
    ensures
        raw_views(r) == raw_entries_of(data@),
{
    let mut archive = tar::Archive::new(flate2::read::GzDecoder::new(data));
    archive.set_ignore_zeros(true);
    let entries = archive.entries().into_iter().flatten().map(|entry| entry.map(|mut e| {
        let (h, path, mut data) = (e.header().clone(), e.path_bytes().into_owned(), Vec::new());
        let read = std::io::Read::read_to_end(&mut e, &mut data).map(|_| data);
        (path, h.entry_type().is_file(), h.size().ok(), h.mtime().ok(), read.map_err(|x| x.to_string()))
    }).map_err(|x| x.to_string())).collect();
    entries
}

/// Whether a character is an ASCII letter, an ASCII digit, a dot, a hyphen or an underscore.
pub open spec fn plain_char(c: char) -> bool {
    ('0' <= c <= '9') || ('A' <= c <= 'Z') || ('a' <= c <= 'z') || c == '.' || c == '-' || c == '_'
}

/// Whether a name is that of a file in a directory, both plain and not beginning with a dot, and
/// short enough for the header of a member.
pub open spec fn plain_name(name: Seq<char>) -> bool {
    exists|k: int| #[trigger] plain_parts(name, k)
}

pub open spec fn plain_parts(name: Seq<char>, k: int) -> bool {
    &&& 0 < k && k + 1 < name.len() && name.len() < 100
    &&& name[k] == '/' && name[0] != '.' && name[k + 1] != '.'
    &&& forall|i: int| 0 <= i < name.len() && i != k ==> plain_char(#[trigger] name[i])
}

/// Whether an archive gives a member back as it went in: a file with a plain name and its real size.
pub open spec fn packable(m: TarMemberView) -> bool {
    m.is_file && m.size == m.data.len() && plain_name(m.name)
}

pub open spec fn all_packable(ms: Seq<TarMemberView>) -> bool {
    forall|i: int| 0 <= i < ms.len() ==> packable(#[trigger] ms[i])
}

/// Bytes, or what went wrong.
pub open spec fn bytes_or_words(r: Result<Vec<u8>, String>) -> Result<Seq<u8>, Seq<char>> {
    match r {
        Ok(b) => Ok(b@),
        Err(t) => Err(t@),
    }
}

/// The gzipped tar archive of some members, or what is wrong with them.
pub uninterp spec fn archive_bytes_of(members: Seq<TarMemberView>, level: u32, mode: u32) -> Result<Seq<u8>, Seq<char>>;

/// `tar::Builder::append_data` for one member after the other, as regular files with the given
/// permissions, on `flate2::write::GzEncoder`. Members with plain names and their real sizes are
/// packed, and read back as they were.
#[verifier::external_body]
pub(crate) fn pack_archive(members: &Vec<TarMember>, level: u32, mode: u32) -> (r: Result<Vec<u8>, String>)
    requires
        level <= 9,
    ensures
        bytes_or_words(r) == archive_bytes_of(members.deep_view(), level, mode),
        all_packable(members.deep_view()) ==> r is Ok && archive_of(r->Ok_0@) == whole(members.deep_view()),
{
    let gz = flate2::write::GzEncoder::new(Vec::new(), flate2::Compression::new(level));
    let mut tar = tar::Builder::new(gz);
    for m in members {
        let mut h = tar::Header::new_gnu();
        h.set_size(m.size);
        h.set_mtime(m.mtime);
        h.set_mode(mode);
        h.set_entry_type(tar::EntryType::Regular);
        tar.append_data(&mut h, &m.name, m.data.as_slice()).map_err(|e| e.to_string())?;
    }
    tar.into_inner().and_then(|gz| gz.finish()).map_err(|e| e.to_string())
}

// ----- std -----------------------------------------------------------------------------------

/// The text that bytes spell, with the replacement character where they are not UTF-8.
pub uninterp spec fn lossy_of(data: Seq<u8>) -> Seq<char>;

/// The text in double quotes, escaped as `{:?}` does.
pub uninterp spec fn quoted_of(text: Seq<char>) -> Seq<char>;

/// `String::from_utf8_lossy`: bytes that are UTF-8 give the text that they spell.
#[verifier::external_body]
pub(crate) fn lossy(data: &[u8]) -> (r: String)
    ensures
        r@ == lossy_of(data@),
        valid_utf8(data@) ==> r@ == decode_utf8(data@),
{
    String::from_utf8_lossy(data).into_owned()
}

/// `std::str::from_utf8`: the text that the bytes spell, if they are UTF-8.
#[verifier::external_body]
pub(crate) fn utf8(data: &[u8]) -> (r: Option<String>)
    ensures
        r is Some <==> valid_utf8(data@),
        r matches Some(s) ==> s@ == decode_utf8(data@),
{
    std::str::from_utf8(data).ok().map(|s| s.to_string())
}

/// `{:?}` of a text.
#[verifier::external_body]
pub(crate) fn quoted(text: &str) -> (r: String)
    ensures
        r@ == quoted_of(text@),
{
    format!("{:?}", text)
}

} // verus!
