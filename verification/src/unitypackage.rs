//! Reader for `.unitypackage` files.
//!
//! A `.unitypackage` is a gzipped tar whose top-level directories are asset GUIDs:
//!
//! ```text
//! <guid>/asset         the asset bytes (absent for folders)
//! <guid>/asset.meta    Unity .meta YAML (importer settings; contains the guid)
//! <guid>/pathname      "Assets/Path/To/File.ext" (+ an optional second line)
//! <guid>/preview.png   optional thumbnail
//! ```
//!
//! Dependencies between assets are `guid: <32 hex>` references inside text (YAML/JSON) assets and
//! inside `.meta` files. A package is read once, member by member, and what is kept of it is the
//! metadata and the references (and the preview thumbnails); binaries are never extracted.

use vstd::prelude::*;
use vstd::slice::{slice_subrange, slice_to_vec};
use vstd::utf8::*;

use crate::error::{outcome, Error, ErrorView};
use crate::kinds::{class_name, class_text, ext_and_kind, kind_for_path, name_of};
use crate::number::{all_digits, number_of, parse_u64};
use crate::outside::{
    byte_is_hex, find_groups, group_spans, guid_at, json_object, json_object_of, json_string, json_string_of,
    json_value, json_value_of, lossy, lossy_of, raw_entries, raw_entries_of, raw_view, raw_views, spans_within,
    utf8, RawEntry, RawEntryView, CLASS_ID, FOLDER, GUID_REF, IMPORTER, LABELS,
};
use crate::sorted::TextSet;
use crate::text::{
    cat, char_is_hex, chars_of, filled, is_hex, lower, lower_char, pieces, replace_char, replaced, same_text, split,
    split_filled, starts, strip_prefix, text_after_last, to_lower, trim, trimmed, Sep,
};

verus! {

/// Assets above this size are not scanned for references beyond their head.
pub const MAX_SCAN_BYTES: u64 = 268435456;

/// The head of an asset, by which text is told from binary data.
pub const HEAD_BYTES: usize = 8192;

pub const NULL_GUID: &'static str = "00000000000000000000000000000000";

// ----- guids ---------------------------------------------------------------------------------

pub open spec fn guid_shaped(s: Seq<char>) -> bool {
    s.len() == 32 && forall|i: int| 0 <= i < s.len() ==> is_hex(#[trigger] s[i])
}

/// Zeros but for the digit in the middle: the null guid, Unity's built-in resources and its
/// built-in extra resources.
pub open spec fn builtin_guid(s: Seq<char>) -> bool {
    &&& s.len() == 32
    &&& forall|i: int| 0 <= i < 32 && i != 16 ==> #[trigger] s[i] == '0'
    &&& is_hex(s[16])
}

pub fn is_guid(s: &str) -> (r: bool)
    ensures
        r == guid_shaped(s@),
{
    let v = chars_of(s);
    if v.len() != 32 {
        return false;
    }
    let mut i: usize = 0;
    while i < v.len()
        invariant
            v@ == s@,
            i <= v@.len(),
            forall|j: int| 0 <= j < i ==> is_hex(#[trigger] v@[j]),
        decreases v@.len() - i,
    {
        if !char_is_hex(v[i]) {
            return false;
        }
        i += 1;
    }
    true
}

/// `0000...0000`, `...e000...` (built-in resources) and `...f000...` (built-in extra) guids.
pub fn is_builtin_guid(guid: &str) -> (r: bool)
    ensures
        r == builtin_guid(guid@),
{
    let v = chars_of(guid);
    if v.len() != 32 {
        return false;
    }
    let mut i: usize = 0;
    while i < v.len()
        invariant
            v@ == guid@,
            v@.len() == 32,
            i <= v@.len(),
            forall|j: int| 0 <= j < i && j != 16 ==> #[trigger] v@[j] == '0',
            i > 16 ==> is_hex(v@[16]),
        decreases v@.len() - i,
    {
        if i == 16 {
            if !char_is_hex(v[i]) {
                return false;
            }
        } else if v[i] != '0' {
            return false;
        }
        i += 1;
    }
    true
}

/// A built-in guid has the shape of a guid.
pub proof fn builtin_is_guid(s: Seq<char>)
    requires
        builtin_guid(s),
    ensures
        guid_shaped(s),
{
    assert forall|i: int| 0 <= i < s.len() implies is_hex(#[trigger] s[i]) by {
        if i != 16 {
            assert(s[i] == '0');
        }
    }
}

/// The null guid is a built-in guid.
pub proof fn null_guid_is_builtin()
    ensures
        builtin_guid(NULL_GUID@),
{
    reveal_strlit("00000000000000000000000000000000");
}

// ----- entries -------------------------------------------------------------------------------

/// One guid directory of a package, as harvested while streaming.
#[derive(Debug)]
pub struct Entry {
    pub guid: String,
    pub path: String,
    pub is_folder: bool,
    pub has_asset: bool,
    pub has_preview: bool,
    pub asset_size: u64,
    pub is_text: bool,
    pub is_yaml: bool,
    pub scan_truncated: bool,
    pub main_class_id: Option<u64>,
    pub importer: Option<String>,
    pub labels: Vec<String>,
    pub refs: TextSet,
    pub meta_size: u64,
    /// The `preview.png` bytes, when the reader was asked to keep them.
    pub preview: Option<Vec<u8>>,
}

/// What a [`Entry`] holds.
#[verifier::ext_equal]
pub struct EntryView {
    pub guid: Seq<char>,
    pub path: Seq<char>,
    pub is_folder: bool,
    pub has_asset: bool,
    pub has_preview: bool,
    pub asset_size: u64,
    pub is_text: bool,
    pub is_yaml: bool,
    pub scan_truncated: bool,
    pub main_class_id: Option<u64>,
    pub importer: Option<Seq<char>>,
    pub labels: Seq<Seq<char>>,
    pub refs: Set<Seq<char>>,
    pub meta_size: u64,
    pub preview: Option<Seq<u8>>,
}

impl View for Entry {
    type V = EntryView;

    open spec fn view(&self) -> EntryView {
        EntryView {
            guid: self.guid@,
            path: self.path@,
            is_folder: self.is_folder,
            has_asset: self.has_asset,
            has_preview: self.has_preview,
            asset_size: self.asset_size,
            is_text: self.is_text,
            is_yaml: self.is_yaml,
            scan_truncated: self.scan_truncated,
            main_class_id: self.main_class_id,
            importer: self.importer.deep_view(),
            labels: self.labels.deep_view(),
            refs: self.refs.deep_view(),
            meta_size: self.meta_size,
            preview: self.preview.deep_view(),
        }
    }
}

impl DeepView for Entry {
    type V = EntryView;

    open spec fn deep_view(&self) -> EntryView {
        self.view()
    }
}

impl Clone for Entry {
    fn clone(&self) -> (r: Self)
        ensures
            r@ == self@,
    {
        let r = Entry {
            guid: self.guid.clone(),
            path: self.path.clone(),
            is_folder: self.is_folder,
            has_asset: self.has_asset,
            has_preview: self.has_preview,
            asset_size: self.asset_size,
            is_text: self.is_text,
            is_yaml: self.is_yaml,
            scan_truncated: self.scan_truncated,
            main_class_id: self.main_class_id,
            importer: self.importer.clone(),
            labels: self.labels.clone(),
            refs: self.refs.clone(),
            meta_size: self.meta_size,
            preview: self.preview.clone(),
        };
        assert(r.importer.deep_view() == self.importer.deep_view());
        assert(r.labels.deep_view() =~= self.labels.deep_view());
        assert(r.preview.deep_view() == self.preview.deep_view());
        r
    }
}

impl Default for Entry {
    fn default() -> (r: Self)
        ensures
            r@ == (EntryView {
                guid: Seq::empty(),
                path: Seq::empty(),
                is_folder: false,
                has_asset: false,
                has_preview: false,
                asset_size: 0,
                is_text: false,
                is_yaml: false,
                scan_truncated: false,
                main_class_id: None,
                importer: None,
                labels: Seq::empty(),
                refs: Set::empty(),
                meta_size: 0,
                preview: None,
            }),
    {
        let r = Entry {
            guid: String::new(),
            path: String::new(),
            is_folder: false,
            has_asset: false,
            has_preview: false,
            asset_size: 0,
            is_text: false,
            is_yaml: false,
            scan_truncated: false,
            main_class_id: None,
            importer: None,
            labels: Vec::new(),
            refs: TextSet::new(),
            meta_size: 0,
            preview: None,
        };
        assert(r.labels.deep_view() =~= Seq::empty());
        r
    }
}


/// An entry of which nothing but its guid is known.
pub open spec fn fresh_entry(guid: Seq<char>) -> EntryView {
    EntryView {
        guid: lower(guid),
        path: Seq::empty(),
        is_folder: false,
        has_asset: false,
        has_preview: false,
        asset_size: 0,
        is_text: false,
        is_yaml: false,
        scan_truncated: false,
        main_class_id: None,
        importer: None,
        labels: Seq::empty(),
        refs: Set::empty(),
        meta_size: 0,
        preview: None,
    }
}

/// The references that count: neither the entry itself nor a built-in resource.
pub open spec fn outward(refs: Set<Seq<char>>, own: Seq<char>) -> Set<Seq<char>> {
    refs.filter(|g: Seq<char>| g != own && !builtin_guid(g))
}

/// An entry when its directory has been read.
pub open spec fn finished(e: EntryView) -> EntryView {
    EntryView { refs: outward(e.refs, e.guid), ..e }
}

/// The name of an entry's main class.
pub open spec fn main_class_of(e: EntryView) -> Option<Seq<char>> {
    match e.main_class_id {
        Some(id) => Some(class_text(id)),
        None => None,
    }
}

impl Entry {
    pub fn new(guid: &str) -> (r: Self)
        ensures
            r@ == fresh_entry(guid@),
    {
        let e = Entry { guid: to_lower(guid), ..Entry::default() };
        e
    }

    pub fn name(&self) -> (r: String)
        ensures
            r@ == name_of(self@.path),
    {
        text_after_last(self.path.as_str(), '/')
    }

    pub fn ext_kind(&self) -> (r: (String, &'static str))
        ensures
            (r.0@, r.1@) == ext_and_kind(self@.path, self.is_folder),
    {
        kind_for_path(self.path.as_str(), self.is_folder)
    }

    pub fn main_class(&self) -> (r: Option<String>)
        ensures
            r.deep_view() == main_class_of(self@),
    {
        match self.main_class_id {
            Some(id) => Some(class_name(id)),
            None => None,
        }
    }

    /// Drops the references that do not count.
    pub fn finish(self) -> (r: Self)
        ensures
            r@ == finished(self@),
    {
        let all = self.refs.to_vec();
        let mut kept = TextSet::new();
        let ghost own = self.guid@;
        let ghost keep = |g: Seq<char>| g != own && !builtin_guid(g);
        let mut i: usize = 0;
        assert(all.deep_view().take(0).to_set() =~= Set::<Seq<char>>::empty());
        while i < all.len()
            invariant
                i <= all@.len(),
                own == self.guid@,
                keep == (|g: Seq<char>| g != own && !builtin_guid(g)),
                forall|g: Seq<char>|
                    kept@.contains(g) <==> all.deep_view().take(i as int).contains(g) && keep(g),
            decreases all@.len() - i,
        {
            let ghost a = all.deep_view();
            let ghost k0 = kept@;
            proof {
                assert(a.take(i + 1) =~= a.take(i as int).push(a[i as int]));
                assert(a[i as int] == all@[i as int]@);
                assert forall|g: Seq<char>| #[trigger] a.take(i + 1).contains(g) <==> (a.take(
                    i as int,
                ).contains(g) || g == a[i as int]) by {
                    if a.take(i as int).contains(g) {
                        let m = choose|m: int| 0 <= m < i && a.take(i as int)[m] == g;
                        assert(a.take(i + 1)[m] == g);
                    }
                    assert(a.take(i + 1)[i as int] == a[i as int]);
                }
            }
            let g = all[i].clone();
            if !same_text(g.as_str(), self.guid.as_str()) && !is_builtin_guid(g.as_str()) {
                kept.insert(g);
            }
            i += 1;
        }
        proof {
            let a = all.deep_view();
            assert(a.take(a.len() as int) =~= a);
            assert forall|g: Seq<char>| kept@.contains(g) <==> outward(self@.refs, own).contains(g) by {
                assert(a.contains(g) <==> a.to_set().contains(g));
            }
            assert(kept@ =~= outward(self@.refs, own));
        }
        Entry { refs: kept, ..self }
    }
}

// ----- references ----------------------------------------------------------------------------

/// Hexadecimal digits as text, in lower case.
pub open spec fn guid_text(bytes: Seq<u8>) -> Seq<char> {
    Seq::new(bytes.len(), |i: int| lower_char(bytes[i] as char))
}

/// The guids that some bytes refer to.
pub open spec fn guids_in(data: Seq<u8>) -> Set<Seq<char>> {
    Set::new(|g: Seq<char>| exists|h: int| #[trigger] guid_at(data, h) && g == guid_text(data.subrange(h, h + 32)))
}

/// The texts at the spans, in lower case.
pub open spec fn texts_at(data: Seq<u8>, spans: Seq<Option<(usize, usize)>>) -> Set<Seq<char>> {
    Set::new(
        |g: Seq<char>|
            exists|i: int|
                0 <= i < spans.len() && (#[trigger] spans[i] matches Some((s, e)) && g == guid_text(
                    data.subrange(s as int, e as int),
                )),
    )
}

fn ascii_lower_text(data: &[u8], from: usize, to: usize) -> (r: String)
    requires
        from <= to <= data@.len(),
    ensures
        r@ == guid_text(data@.subrange(from as int, to as int)),
{
    let mut r = String::new();
    let mut i: usize = from;
    while i < to
        invariant
            from <= i <= to <= data@.len(),
            r@ == guid_text(data@.subrange(from as int, i as int)),
        decreases to - i,
    {
        proof {
            let a = data@.subrange(from as int, i as int);
            let b = data@.subrange(from as int, i + 1);
            assert(b =~= a.push(data@[i as int]));
            assert(guid_text(b) =~= guid_text(a).push(lower_char(data@[i as int] as char)));
        }
        r.push(crate::text::char_lower(data[i] as char));
        i += 1;
    }
    r
}

/// Puts the texts at the spans into the set, in lower case.
pub fn insert_texts(data: &[u8], spans: &Vec<Option<(usize, usize)>>, out: &mut TextSet)
    requires
        spans_within(spans@, data@),
    ensures
        final(out)@ == old(out)@.union(texts_at(data@, spans@)),
{
    let ghost out0 = out@;
    let mut i: usize = 0;
    assert(out0.union(texts_at(data@, spans@.take(0))) =~= out0);
    while i < spans.len()
        invariant
            i <= spans@.len(),
            spans_within(spans@, data@),
            out@ == out0.union(texts_at(data@, spans@.take(i as int))),
        decreases spans@.len() - i,
    {
        let ghost t = spans@.take(i as int);
        let ghost u = spans@.take(i + 1);
        let ghost o1 = out@;
        match spans[i] {
            Some((s, e)) => {
                let g = ascii_lower_text(data, s, e);
                let ghost gv = g@;
                out.insert(g);
                proof {
                    assert forall|x: Seq<char>| texts_at(data@, u).contains(x) <==> (texts_at(
                        data@,
                        t,
                    ).contains(x) || x == gv) by {
                        lemma_texts_grow(data@, spans@, i as int, x);
                    }
                    assert(out@ =~= out0.union(texts_at(data@, u)));
                }
            },
            None => {
                proof {
                    assert forall|x: Seq<char>| texts_at(data@, u).contains(x) <==> texts_at(
                        data@,
                        t,
                    ).contains(x) by {
                        lemma_texts_grow(data@, spans@, i as int, x);
                    }
                    assert(out@ =~= out0.union(texts_at(data@, u)));
                }
            },
        }
        i += 1;
    }
    assert(spans@.take(spans@.len() as int) =~= spans@);
}

proof fn lemma_texts_grow(data: Seq<u8>, spans: Seq<Option<(usize, usize)>>, n: int, x: Seq<char>)
    requires
        0 <= n < spans.len(),
    ensures
        texts_at(data, spans.take(n + 1)).contains(x) <==> (texts_at(data, spans.take(n)).contains(x)
            || (spans[n] matches Some((s, e)) && x == guid_text(data.subrange(s as int, e as int)))),
{
    let t = spans.take(n);
    let u = spans.take(n + 1);
    if texts_at(data, t).contains(x) {
        let i = choose|i: int|
            0 <= i < t.len() && (#[trigger] t[i] matches Some((s, e)) && x == guid_text(
                data.subrange(s as int, e as int),
            ));
        assert(u[i] == t[i]);
    }
    if texts_at(data, u).contains(x) {
        let i = choose|i: int|
            0 <= i < u.len() && (#[trigger] u[i] matches Some((s, e)) && x == guid_text(
                data.subrange(s as int, e as int),
            ));
        if i < n {
            assert(t[i] == u[i]);
        }
    }
    assert(u[n] == spans[n]);
}

/// Collects the guids that the bytes refer to, in lower case.
pub fn collect_guid_refs(data: &[u8], out: &mut TextSet)
    ensures
        final(out)@ == old(out)@.union(guids_in(data@)),
{
    let spans = find_groups(GUID_REF, 1, data);
    insert_texts(data, &spans, out);
    proof {
        let d = data@;
        let sp = spans@;
        assert forall|g: Seq<char>| texts_at(d, sp).contains(g) <==> guids_in(d).contains(g) by {
            if texts_at(d, sp).contains(g) {
                let i = choose|i: int|
                    0 <= i < sp.len() && (#[trigger] sp[i] matches Some((s, e)) && g == guid_text(
                        d.subrange(s as int, e as int),
                    ));
                let span = sp[i]->0;
                let h = span.0 as int;
                assert(guid_at(d, h));
            }
            if guids_in(d).contains(g) {
                let h = choose|h: int| #[trigger] guid_at(d, h) && g == guid_text(d.subrange(h, h + 32));
                lemma_guid_at_bounds(d, h);
                assert(sp.contains(Some((h as usize, (h + 32) as usize))));
                let i = choose|i: int| 0 <= i < sp.len() && sp[i] == Some((h as usize, (h + 32) as usize));
                assert(sp[i] == Some((h as usize, (h + 32) as usize)));
                assert(h <= d.len());
                assert(d.len() == data.len());
            }
        }
        assert(texts_at(d, sp) =~= guids_in(d));
    }
}

proof fn lemma_ends(data: Seq<u8>, i: int)
    requires
        0 <= i,
    ensures
        crate::outside::quotes_end(data, i) >= i,
        crate::outside::spaces_end(data, i) >= i,
    decreases data.len() - i,
{
    if i < data.len() {
        lemma_ends(data, i + 1);
        if i + 2 <= data.len() {
            lemma_ends(data, i + 2);
        }
        if i + 3 <= data.len() {
            lemma_ends(data, i + 3);
        }
    }
}

proof fn lemma_guid_at_bounds(data: Seq<u8>, h: int)
    requires
        guid_at(data, h),
    ensures
        0 <= h,
        h + 32 <= data.len(),
        forall|k: int| h <= k < h + 32 ==> byte_is_hex(#[trigger] data[k]),
{
    let i = choose|i: int|
        #[trigger] crate::outside::names_guid(data, i) && crate::outside::digits_behind(data, i) == h;
    let a = crate::outside::quotes_end(data, i + 4);
    lemma_ends(data, i + 4);
    let b = crate::outside::spaces_end(data, a);
    lemma_ends(data, a);
    let c = crate::outside::spaces_end(data, b + 1);
    lemma_ends(data, b + 1);
    lemma_ends(data, c);
}

/// Every collected reference is a guid in lower case.
pub proof fn collected_refs_are_guids(data: Seq<u8>, g: Seq<char>)
    requires
        guids_in(data).contains(g),
    ensures
        guid_shaped(g),
        lower(g) == g,
{
    let h = choose|h: int| #[trigger] guid_at(data, h) && g == guid_text(data.subrange(h, h + 32));
    lemma_guid_at_bounds(data, h);
    assert forall|i: int| 0 <= i < 32 implies is_hex(#[trigger] g[i]) && lower_char(g[i]) == g[i] by {
        assert(byte_is_hex(data[h + i]));
    }
    assert(lower(g) =~= g);
}

// ----- meta files ----------------------------------------------------------------------------

/// The text of the group in the first match.
pub open spec fn first_text(spans: Seq<Option<(usize, usize)>>, data: Seq<u8>) -> Option<Seq<char>> {
    if spans.len() == 0 {
        None
    } else {
        match spans[0] {
            Some((s, e)) => if valid_utf8(data.subrange(s as int, e as int)) {
                Some(decode_utf8(data.subrange(s as int, e as int)))
            } else {
                None
            },
            None => None,
        }
    }
}

pub fn first_group(spans: &Vec<Option<(usize, usize)>>, data: &[u8]) -> (r: Option<String>)
    requires
        spans_within(spans@, data@),
    ensures
        r.deep_view() == first_text(spans@, data@),
{
    if spans.len() == 0 {
        return None;
    }
    match spans[0] {
        Some((s, e)) => utf8(slice_subrange(data, s, e)),
        None => None,
    }
}

/// The labels in a YAML list: what follows `- ` on each line, without white space at its ends.
pub open spec fn labels_in(block: Seq<char>) -> Seq<Seq<char>> {
    filled(items_of(pieces(block, Sep::Is('\n'))))
}

/// What follows `- ` on the lines that begin with it.
pub open spec fn items_of(lines: Seq<Seq<char>>) -> Seq<Seq<char>>
    decreases lines.len(),
{
    if lines.len() == 0 {
        Seq::empty()
    } else {
        let front = items_of(lines.drop_last());
        if starts(lines.last(), "- "@) {
            front.push(trim(lines.last().skip("- "@.len() as int)))
        } else {
            front
        }
    }
}

proof fn lemma_filled_push(s: Seq<Seq<char>>, x: Seq<char>)
    ensures
        filled(s.push(x)) == (if x.len() > 0 {
            filled(s).push(x)
        } else {
            filled(s)
        }),
{
    reveal(Seq::filter);
    assert(s.push(x).drop_last() =~= s);
}

fn labels_of(block: &str) -> (r: Vec<String>)
    ensures
        r.deep_view() == labels_in(block@),
{
    let lines = split(block, Sep::Is('\n'));
    let mut out: Vec<String> = Vec::new();
    let mut i: usize = 0;
    proof {
        assert(lines.deep_view().take(0) =~= Seq::<Seq<char>>::empty());
        assert(items_of(lines.deep_view().take(0)) =~= Seq::<Seq<char>>::empty());
        reveal(Seq::filter);
        assert(out.deep_view() =~= Seq::<Seq<char>>::empty());
    }
    while i < lines.len()
        invariant
            i <= lines@.len(),
            out.deep_view() == filled(items_of(lines.deep_view().take(i as int))),
        decreases lines@.len() - i,
    {
        let ghost l = lines.deep_view();
        let ghost front = items_of(l.take(i as int));
        proof {
            assert(l.take(i + 1).drop_last() =~= l.take(i as int));
            assert(l.take(i + 1).last() == lines@[i as int]@);
        }
        match strip_prefix(lines[i].as_str(), "- ") {
            Some(rest) => {
                let label = trimmed(rest.as_str());
                proof {
                    lemma_filled_push(front, label@);
                }
                if !label.as_str().is_empty() {
                    let ghost o0 = out.deep_view();
                    let ghost lv = label@;
                    out.push(label);
                    assert(out.deep_view() =~= o0.push(lv));
                }
            },
            None => {},
        }
        i += 1;
    }
    assert(lines.deep_view().take(lines@.len() as int) =~= lines.deep_view());
    out
}

/// An entry with what its `.meta` file says, the matches of the patterns given.
pub open spec fn with_meta(
    e: EntryView,
    text: Seq<char>,
    importer: Seq<Option<(usize, usize)>>,
    folder: Seq<Option<(usize, usize)>>,
    labels: Seq<Option<(usize, usize)>>,
) -> EntryView {
    let data = encode_utf8(text);
    EntryView {
        importer: first_text(importer, data),
        is_folder: e.is_folder || folder.len() > 0,
        labels: match first_text(labels, data) {
            Some(block) => labels_in(block),
            None => e.labels,
        },
        refs: e.refs.union(guids_in(data)),
        ..e
    }
}

/// An entry with what its `.meta` file says.
pub open spec fn meta_parsed(e: EntryView, text: Seq<char>) -> EntryView {
    let data = encode_utf8(text);
    with_meta(
        e,
        text,
        group_spans(IMPORTER@, 1, data),
        group_spans(FOLDER@, 0, data),
        group_spans(LABELS@, 1, data),
    )
}

/// Takes over what a `.meta` file says, the matches of the patterns given.
pub fn apply_meta(
    entry: &mut Entry,
    text: &str,
    importer: &Vec<Option<(usize, usize)>>,
    folder: &Vec<Option<(usize, usize)>>,
    labels: &Vec<Option<(usize, usize)>>,
)
    requires
        spans_within(importer@, encode_utf8(text@)),
        spans_within(labels@, encode_utf8(text@)),
    ensures
        final(entry)@ == with_meta(old(entry)@, text@, importer@, folder@, labels@),
{
    let data = text.as_bytes();
    entry.importer = first_group(importer, data);
    if folder.len() > 0 {
        entry.is_folder = true;
    }
    match first_group(labels, data) {
        Some(block) => {
            entry.labels = labels_of(block.as_str());
        },
        None => {},
    }
    collect_guid_refs(data, &mut entry.refs);
}

/// Takes over what a `.meta` file says.
pub fn parse_meta(entry: &mut Entry, text: &str)
    ensures
        final(entry)@ == meta_parsed(old(entry)@, text@),
{
    let data = text.as_bytes();
    let importer = find_groups(IMPORTER, 1, data);
    let folder = find_groups(FOLDER, 0, data);
    let labels = find_groups(LABELS, 1, data);
    apply_meta(entry, text, &importer, &folder, &labels);
}

// ----- assets --------------------------------------------------------------------------------

/// Text by its head: no zero byte, and UTF-8 up to a character that the end of the head may cut.
pub open spec fn text_like(head: Seq<u8>) -> bool {
    &&& !head.contains(0u8)
    &&& valid_utf8(head) || (head.len() > 4 && valid_utf8(head.take(head.len() - 4)))
}

pub fn looks_like_text(head: &[u8]) -> (r: bool)
    ensures
        r == text_like(head@),
{
    let n: usize = head.len();
    let mut i: usize = 0;
    while i < n
        invariant
            n == head@.len(),
            i <= n,
            forall|j: int| 0 <= j < i ==> head@[j] != 0u8,
        decreases n - i,
    {
        if head[i] == 0 {
            assert(head@.contains(head@[i as int]));
            return false;
        }
        i += 1;
    }
    if utf8(head).is_some() {
        return true;
    }
    if n > 4 {
        assert(head@.subrange(0, n - 4) =~= head@.take(n - 4));
        utf8(slice_subrange(head, 0, n - 4)).is_some()
    } else {
        false
    }
}

/// Whether the bytes begin with `%YAML`.
pub open spec fn yaml_marked(head: Seq<u8>) -> bool {
    head.len() >= 5 && head[0] == 0x25 && head[1] == 0x59 && head[2] == 0x41 && head[3] == 0x4d && head[4]
        == 0x4c
}

fn has_yaml_mark(head: &[u8]) -> (r: bool)
    ensures
        r == yaml_marked(head@),
{
    head.len() >= 5 && head[0] == 0x25 && head[1] == 0x59 && head[2] == 0x41 && head[3] == 0x4d && head[4]
        == 0x4c
}

/// The number that the group in the first match spells, where it is one.
pub open spec fn class_id_in(spans: Seq<Option<(usize, usize)>>, head: Seq<u8>) -> Option<u64> {
    match first_text(spans, head) {
        Some(t) => if all_digits(t) && number_of(t) <= u64::MAX {
            Some(number_of(t) as u64)
        } else {
            None
        },
        None => None,
    }
}

/// How much of an asset is read to tell text from binary data.
pub open spec fn head_len(size: u64) -> int {
    if size < HEAD_BYTES {
        size as int
    } else {
        HEAD_BYTES as int
    }
}

/// An entry whose asset is known to be there.
pub open spec fn with_asset(e: EntryView, size: u64) -> EntryView {
    EntryView { has_asset: true, asset_size: size, ..e }
}

/// An entry after the head of its asset, the match of the class id given.
pub open spec fn with_head(
    e: EntryView,
    head: Seq<u8>,
    size: u64,
    max_scan: u64,
    class_id: Seq<Option<(usize, usize)>>,
) -> EntryView {
    if size == 0 || (!yaml_marked(head) && !text_like(head)) {
        e
    } else {
        let is_yaml = e.is_yaml || yaml_marked(head);
        EntryView {
            is_yaml,
            is_text: true,
            main_class_id: if is_yaml && class_id.len() > 0 {
                class_id_in(class_id, head)
            } else {
                e.main_class_id
            },
            scan_truncated: e.scan_truncated || size > max_scan,
            refs: if size > max_scan {
                e.refs.union(guids_in(head))
            } else {
                e.refs
            },
            ..e
        }
    }
}

/// Whether what follows the head of an asset is scanned too.
pub open spec fn wants_body(head: Seq<u8>, size: u64, max_scan: u64) -> bool {
    size != 0 && (yaml_marked(head) || text_like(head)) && size <= max_scan
}

/// The head of an asset.
pub open spec fn head_of(data: Seq<u8>, size: u64) -> Seq<u8> {
    if head_len(size) < data.len() {
        data.take(head_len(size))
    } else {
        data
    }
}

/// An entry after its asset has been scanned: text is searched for references, up to its head
/// where it is too large.
pub open spec fn scanned(e: EntryView, data: Seq<u8>, size: u64, max_scan: u64) -> EntryView {
    let head = head_of(data, size);
    let f = with_head(with_asset(e, size), head, size, max_scan, group_spans(CLASS_ID@, 1, head));
    if wants_body(head, size, max_scan) {
        EntryView { refs: f.refs.union(guids_in(data)), ..f }
    } else {
        f
    }
}

/// Notes that there is an asset; says how much of it to read first.
pub fn begin_asset(entry: &mut Entry, size: u64) -> (want: usize)
    ensures
        final(entry)@ == with_asset(old(entry)@, size),
        want == head_len(size),
{
    entry.has_asset = true;
    entry.asset_size = size;
    if size < HEAD_BYTES as u64 {
        size as usize
    } else {
        HEAD_BYTES
    }
}

/// Judges an asset by its head, the match of the class id given; says whether the whole asset is
/// to be scanned.
pub fn judge_head(
    entry: &mut Entry,
    head: &[u8],
    size: u64,
    max_scan: u64,
    class_id: &Vec<Option<(usize, usize)>>,
) -> (more: bool)
    requires
        spans_within(class_id@, head@),
    ensures
        final(entry)@ == with_head(old(entry)@, head@, size, max_scan, class_id@),
        more == wants_body(head@, size, max_scan),
{
    if size == 0 {
        return false;
    }
    let marked = has_yaml_mark(head);
    if marked {
        entry.is_yaml = true;
    } else if !looks_like_text(head) {
        return false;
    }
    entry.is_text = true;
    if entry.is_yaml && class_id.len() > 0 {
        entry.main_class_id = match first_group(class_id, head) {
            Some(t) => parse_u64(t.as_str()),
            None => None,
        };
    }
    if size > max_scan {
        entry.scan_truncated = true;
        collect_guid_refs(head, &mut entry.refs);
        false
    } else {
        true
    }
}

/// Judges an asset by its head; says whether the whole asset is to be scanned.
pub fn scan_head(entry: &mut Entry, head: &[u8], size: u64, max_scan: u64) -> (more: bool)
    ensures
        final(entry)@ == with_head(
            old(entry)@,
            head@,
            size,
            max_scan,
            group_spans(CLASS_ID@, 1, head@),
        ),
        more == wants_body(head@, size, max_scan),
{
    let class_id = find_groups(CLASS_ID, 1, head);
    judge_head(entry, head, size, max_scan, &class_id)
}

/// Scans the whole of a text asset.
pub fn scan_body(entry: &mut Entry, data: &[u8])
    ensures
        final(entry)@ == (EntryView { refs: old(entry)@.refs.union(guids_in(data@)), ..old(entry)@ }),
{
    collect_guid_refs(data, &mut entry.refs);
}

/// Decides whether the asset is text; if so, harvests guid references and the main class id.
pub fn scan_asset(entry: &mut Entry, data: &[u8], size: u64, max_scan: u64)
    ensures
        final(entry)@ == scanned(old(entry)@, data@, size, max_scan),
{
    let want = begin_asset(entry, size);
    let more = if want < data.len() {
        assert(data@.subrange(0, want as int) =~= data@.take(want as int));
        scan_head(entry, slice_subrange(data, 0, want), size, max_scan)
    } else {
        scan_head(entry, data, size, max_scan)
    };
    if more {
        scan_body(entry, data);
    }
}

/// A binary asset adds no references.
pub proof fn binary_assets_refer_to_nothing(e: EntryView, data: Seq<u8>, size: u64, max_scan: u64)
    requires
        !yaml_marked(head_of(data, size)),
        !text_like(head_of(data, size)),
    ensures
        scanned(e, data, size, max_scan).refs == e.refs,
        scanned(e, data, size, max_scan).is_text == e.is_text,
{
}

// ----- member names --------------------------------------------------------------------------

/// `./<guid>/asset` parted into guid and leaf; `None` for what is in no guid directory.
pub open spec fn member_parts(name: Seq<char>) -> Option<(Seq<char>, Option<Seq<char>>)> {
    let rest = if starts(name, "./"@) {
        name.skip("./"@.len() as int)
    } else {
        name
    };
    let parts = filled(pieces(rest, Sep::Is('/')));
    if parts.len() == 0 || !guid_shaped(parts[0]) {
        None
    } else {
        Some(
            (
                lower(parts[0]),
                if parts.len() > 1 {
                    Some(parts[1])
                } else {
                    None
                },
            ),
        )
    }
}

/// `./<guid>/asset` -> Some(("<guid>", Some("asset"))); top-level junk -> None.
pub fn split_member_name(name: &str) -> (r: Option<(String, Option<String>)>)
    ensures
        r.deep_view() == member_parts(name@),
{
    let rest = match strip_prefix(name, "./") {
        Some(t) => t,
        None => name.to_string(),
    };
    let parts = split_filled(rest.as_str(), Sep::Is('/'));
    if parts.len() == 0 {
        return None;
    }
    assert(parts.deep_view()[0] == parts@[0]@);
    if !is_guid(parts[0].as_str()) {
        return None;
    }
    let guid = to_lower(parts[0].as_str());
    if parts.len() > 1 {
        assert(parts.deep_view()[1] == parts@[1]@);
        Some((guid, Some(parts[1].clone())))
    } else {
        Some((guid, None))
    }
}

/// The path in a `pathname` member: its first line, with forward slashes.
pub open spec fn path_in(data: Seq<u8>) -> Seq<char> {
    if valid_utf8(data) {
        replaced(trim(pieces(decode_utf8(data), Sep::Is('\n'))[0]), '\\', '/')
    } else {
        Seq::empty()
    }
}

pub fn parse_pathname(data: &[u8]) -> (r: String)
    ensures
        r@ == path_in(data@),
{
    match utf8(data) {
        Some(text) => {
            proof {
                crate::text::lemma_pieces_nonempty(text@, Sep::Is('\n'));
            }
            let lines = split(text.as_str(), Sep::Is('\n'));
            assert(lines.deep_view()[0] == lines@[0]@);
            let first = trimmed(lines[0].as_str());
            replace_char(first.as_str(), '\\', '/')
        },
        None => String::new(),
    }
}

/// A member of an unpacked archive.
#[derive(Debug)]
pub struct TarMember {
    pub name: String,
    pub is_file: bool,
    pub size: u64,
    pub mtime: u64,
    pub data: Vec<u8>,
}

/// What a [`TarMember`] holds.
#[verifier::ext_equal]
pub struct TarMemberView {
    pub name: Seq<char>,
    pub is_file: bool,
    pub size: u64,
    pub mtime: u64,
    pub data: Seq<u8>,
}

impl View for TarMember {
    type V = TarMemberView;

    open spec fn view(&self) -> TarMemberView {
        TarMemberView {
            name: self.name@,
            is_file: self.is_file,
            size: self.size,
            mtime: self.mtime,
            data: self.data.deep_view(),
        }
    }
}

impl DeepView for TarMember {
    type V = TarMemberView;

    open spec fn deep_view(&self) -> TarMemberView {
        self.view()
    }
}

impl Clone for TarMember {
    fn clone(&self) -> (r: Self)
        ensures
            r@ == self@,
    {
        let r = TarMember {
            name: self.name.clone(),
            is_file: self.is_file,
            size: self.size,
            mtime: self.mtime,
            data: self.data.clone(),
        };
        assert(r.data.deep_view() =~= self.data.deep_view());
        r
    }
}

/// Where and why an archive cannot be read on.
#[derive(Debug)]
pub struct Fault {
    /// The name of the member whose data cannot be read; none where the next member cannot be found.
    pub member: Option<String>,
    /// What is wrong, in words.
    pub words: String,
}

/// What a [`Fault`] holds.
#[verifier::ext_equal]
pub struct FaultView {
    pub member: Option<Seq<char>>,
    pub words: Seq<char>,
}

impl View for Fault {
    type V = FaultView;

    open spec fn view(&self) -> FaultView {
        FaultView { member: self.member.deep_view(), words: self.words@ }
    }
}

impl DeepView for Fault {
    type V = FaultView;

    open spec fn deep_view(&self) -> FaultView {
        self.view()
    }
}

/// An unpacked archive: its members up to its end, or up to the first fault.
#[derive(Debug)]
pub struct Unpacked {
    pub members: Vec<TarMember>,
    pub fault: Option<Fault>,
}

/// What an [`Unpacked`] holds.
#[verifier::ext_equal]
pub struct UnpackedView {
    pub members: Seq<TarMemberView>,
    pub fault: Option<FaultView>,
}

impl View for Unpacked {
    type V = UnpackedView;

    open spec fn view(&self) -> UnpackedView {
        UnpackedView { members: self.members.deep_view(), fault: self.fault.deep_view() }
    }
}

impl DeepView for Unpacked {
    type V = UnpackedView;

    open spec fn deep_view(&self) -> UnpackedView {
        self.view()
    }
}

/// An archive without a fault.
pub open spec fn whole(ms: Seq<TarMemberView>) -> UnpackedView {
    UnpackedView { members: ms, fault: None }
}

/// The size or the time of change that a header gives; 0 where it gives none.
pub open spec fn or_zero(n: Option<u64>) -> u64 {
    match n {
        Some(n) => n,
        None => 0,
    }
}

/// The members among some entries of an archive, up to the first one that cannot be read.
pub open spec fn gathered(entries: Seq<Result<RawEntryView, Seq<char>>>) -> UnpackedView
    decreases entries.len(),
{
    if entries.len() == 0 {
        whole(Seq::empty())
    } else {
        let front = gathered(entries.drop_last());
        if front.fault is Some {
            front
        } else {
            match entries.last() {
                Err(words) => UnpackedView { fault: Some(FaultView { member: None, words }), ..front },
                Ok((path, is_file, size, mtime, read)) => match read {
                    Err(words) => UnpackedView {
                        fault: Some(FaultView { member: Some(lossy_of(path)), words }),
                        ..front
                    },
                    Ok(data) => UnpackedView {
                        members: front.members.push(
                            TarMemberView {
                                name: lossy_of(path),
                                is_file,
                                size: or_zero(size),
                                mtime: or_zero(mtime),
                                data,
                            },
                        ),
                        ..front
                    },
                },
            }
        }
    }
}

/// What the archive that some bytes hold unpacks to.
pub open spec fn archive_of(data: Seq<u8>) -> UnpackedView {
    gathered(raw_entries_of(data))
}

/// The members among some entries of an archive, up to the first one that cannot be read.
pub fn gather(entries: Vec<Result<RawEntry, String>>) -> (r: Unpacked)
    ensures
        r@ == gathered(raw_views(entries)),
{
    let ghost es = raw_views(entries);
    let mut out = Unpacked { members: Vec::new(), fault: None };
    let mut i: usize = 0;
    proof {
        assert(es.take(0) =~= Seq::<Result<RawEntryView, Seq<char>>>::empty());
        assert(out@ =~= whole(Seq::empty()));
    }
    while i < entries.len()
        invariant
            i <= entries@.len(),
            es == raw_views(entries),
            out@ == gathered(es.take(i as int)),
        decreases entries@.len() - i,
    {
        let ghost before = out@;
        proof {
            assert(es.take(i + 1).drop_last() =~= es.take(i as int));
            assert(es.take(i + 1).last() == raw_view(entries@[i as int]));
        }
        if out.fault.is_none() {
            match &entries[i] {
                Err(words) => {
                    out.fault = Some(Fault { member: None, words: words.clone() });
                },
                Ok((path, is_file, size, mtime, read)) => {
                    let name = lossy(path.as_slice());
                    match read {
                        Err(words) => {
                            out.fault = Some(Fault { member: Some(name), words: words.clone() });
                        },
                        Ok(data) => {
                            let m = TarMember {
                                name,
                                is_file: *is_file,
                                size: size.unwrap_or(0),
                                mtime: mtime.unwrap_or(0),
                                data: data.clone(),
                            };
                            let ghost mv = m@;
                            proof {
                                assert(m.data.deep_view() =~= data@);
                            }
                            out.members.push(m);
                            assert(out.members.deep_view() =~= before.members.push(mv));
                        },
                    }
                },
            }
        }
        i += 1;
    }
    assert(es.take(es.len() as int) =~= es);
    out
}

/// Unpacks an archive as far as it can be read.
pub fn unpack_archive(data: &[u8]) -> (r: Unpacked)
    ensures
        r@ == archive_of(data@),
{
    gather(raw_entries(data))
}

/// What is said of a fault.
pub open spec fn fault_words(f: FaultView) -> Seq<char> {
    match f.member {
        Some(_) => f.words,
        None => "reading tar entry: "@ + f.words,
    }
}

fn tell_fault(f: &Fault) -> (r: Error)
    ensures
        r@ == ErrorView::Other(fault_words(f@)),
{
    match f.member {
        Some(_) => Error::Other(f.words.clone()),
        None => Error::Other(cat("reading tar entry: ", f.words.as_str())),
    }
}

/// A member of a wanted guid directory.
#[derive(Debug)]
pub struct Member {
    pub guid: String,
    pub leaf: String,
    pub size: u64,
    pub mtime: u64,
    pub data: Vec<u8>,
}

/// What a [`Member`] holds.
#[verifier::ext_equal]
pub struct MemberView {
    pub guid: Seq<char>,
    pub leaf: Seq<char>,
    pub size: u64,
    pub mtime: u64,
    pub data: Seq<u8>,
}

impl View for Member {
    type V = MemberView;

    open spec fn view(&self) -> MemberView {
        MemberView {
            guid: self.guid@,
            leaf: self.leaf@,
            size: self.size,
            mtime: self.mtime,
            data: self.data.deep_view(),
        }
    }
}

impl DeepView for Member {
    type V = MemberView;

    open spec fn deep_view(&self) -> MemberView {
        self.view()
    }
}

impl Clone for Member {
    fn clone(&self) -> (r: Self)
        ensures
            r@ == self@,
    {
        let r = Member {
            guid: self.guid.clone(),
            leaf: self.leaf.clone(),
            size: self.size,
            mtime: self.mtime,
            data: self.data.clone(),
        };
        assert(r.data.deep_view() =~= self.data.deep_view());
        r
    }
}


// ----- streaming -----------------------------------------------------------------------------

/// How a package is scanned.
#[derive(Debug, Clone, Copy)]
pub struct ScanOptions {
    pub max_scan: u64,
    pub keep_previews: bool,
}

impl Default for ScanOptions {
    fn default() -> (r: Self)
        ensures
            r.max_scan == MAX_SCAN_BYTES,
            !r.keep_previews,
    {
        ScanOptions { max_scan: MAX_SCAN_BYTES, keep_previews: false }
    }
}

/// An entry with what one file of its directory says.
pub open spec fn absorbed(e: EntryView, leaf: Seq<char>, m: TarMemberView, opts: ScanOptions) -> EntryView {
    if leaf == "pathname"@ {
        EntryView { path: path_in(m.data), ..e }
    } else if leaf == "asset.meta"@ {
        meta_parsed(EntryView { meta_size: m.size, ..e }, lossy_of(m.data))
    } else if leaf == "asset"@ {
        scanned(e, m.data, m.size, opts.max_scan)
    } else if leaf == "preview.png"@ {
        EntryView {
            has_preview: true,
            preview: if opts.keep_previews {
                Some(m.data)
            } else {
                e.preview
            },
            ..e
        }
    } else {
        e
    }
}

/// A scan under way: the entries that are complete and the one being read.
#[verifier::ext_equal]
pub struct ScanView {
    pub done: Seq<EntryView>,
    pub cur: Option<EntryView>,
}

/// The scan when the directory of `guid` is entered: another directory ends there.
pub open spec fn entered(st: ScanView, guid: Seq<char>) -> ScanView {
    match st.cur {
        Some(e) => if e.guid == guid {
            st
        } else {
            ScanView { done: st.done.push(finished(e)), cur: Some(fresh_entry(guid)) }
        },
        None => ScanView { done: st.done, cur: Some(fresh_entry(guid)) },
    }
}

/// The scan after one more member.
pub open spec fn scan_step(st: ScanView, m: TarMemberView, opts: ScanOptions) -> ScanView {
    match member_parts(m.name) {
        None => st,
        Some((guid, leaf)) => {
            let st = entered(st, guid);
            match (st.cur, leaf) {
                (Some(e), Some(l)) => if m.is_file {
                    ScanView { done: st.done, cur: Some(absorbed(e, l, m, opts)) }
                } else {
                    st
                },
                _ => st,
            }
        },
    }
}

pub open spec fn scan_all(ms: Seq<TarMemberView>, opts: ScanOptions) -> ScanView
    decreases ms.len(),
{
    if ms.len() == 0 {
        ScanView { done: Seq::empty(), cur: None }
    } else {
        scan_step(scan_all(ms.drop_last(), opts), ms.last(), opts)
    }
}

/// The complete entries of a scan that has come to its end.
pub open spec fn scan_end(st: ScanView) -> Seq<EntryView> {
    match st.cur {
        Some(e) => st.done.push(finished(e)),
        None => st.done,
    }
}

/// The entries of a package: one for each run of members of one guid directory, in their order.
pub open spec fn entries_of(ms: Seq<TarMemberView>, opts: ScanOptions) -> Seq<EntryView> {
    scan_end(scan_all(ms, opts))
}

/// Reads a package member by member.
pub struct PackageScan {
    opts: ScanOptions,
    cur: Option<Entry>,
}

impl PackageScan {
    /// The entry being read.
    pub closed spec fn current(&self) -> Option<EntryView> {
        self.cur.deep_view()
    }

    pub closed spec fn options(&self) -> ScanOptions {
        self.opts
    }

    pub fn new(opts: ScanOptions) -> (r: Self)
        ensures
            r.current() is None,
            r.options() == opts,
    {
        PackageScan { opts, cur: None }
    }

    /// Goes on to a member; gives the entry that is complete by that, and the leaf where the member
    /// is in a guid directory.
    pub fn enter(&mut self, name: &str) -> (r: (Option<Entry>, Option<String>))
        ensures
            final(self).options() == old(self).options(),
            match member_parts(name@) {
                None => final(self).current() == old(self).current() && r.0 is None && r.1 is None,
                Some((guid, leaf)) => {
                    let before = ScanView { done: Seq::empty(), cur: old(self).current() };
                    let after = entered(before, guid);
                    &&& final(self).current() == after.cur
                    &&& after.done == (match r.0 {
                        Some(e) => seq![e@],
                        None => Seq::empty(),
                    })
                    &&& r.1.deep_view() == leaf
                },
            },
    {
        match split_member_name(name) {
            None => (None, None),
            Some((guid, leaf)) => {
                let old_cur = self.cur.take();
                match old_cur {
                    Some(e) => {
                        if same_text(e.guid.as_str(), guid.as_str()) {
                            self.cur = Some(e);
                            (None, leaf)
                        } else {
                            self.cur = Some(Entry::new(guid.as_str()));
                            let done = e.finish();
                            assert(Seq::<EntryView>::empty().push(done@) =~= seq![done@]);
                            (Some(done), leaf)
                        }
                    },
                    None => {
                        self.cur = Some(Entry::new(guid.as_str()));
                        (None, leaf)
                    },
                }
            },
        }
    }

    /// Takes the bytes of a `pathname` member.
    pub fn pathname(&mut self, data: &[u8])
        ensures
            final(self).options() == old(self).options(),
            final(self).current() == (match old(self).current() {
                Some(e) => Some(EntryView { path: path_in(data@), ..e }),
                None => None,
            }),
    {
        if let Some(mut e) = self.cur.take() {
            e.path = parse_pathname(data);
            self.cur = Some(e);
        }
    }

    /// Takes the bytes of an `asset.meta` member.
    pub fn meta(&mut self, size: u64, data: &[u8])
        ensures
            final(self).options() == old(self).options(),
            final(self).current() == (match old(self).current() {
                Some(e) => Some(meta_parsed(EntryView { meta_size: size, ..e }, lossy_of(data@))),
                None => None,
            }),
    {
        if let Some(mut e) = self.cur.take() {
            e.meta_size = size;
            let text = lossy(data);
            parse_meta(&mut e, text.as_str());
            self.cur = Some(e);
        }
    }

    /// Notes an asset; says how much of it to read first.
    pub fn asset(&mut self, size: u64) -> (want: usize)
        ensures
            final(self).options() == old(self).options(),
            final(self).current() == (match old(self).current() {
                Some(e) => Some(with_asset(e, size)),
                None => None,
            }),
            want == head_len(size),
    {
        if let Some(mut e) = self.cur.take() {
            let want = begin_asset(&mut e, size);
            self.cur = Some(e);
            want
        } else {
            if size < HEAD_BYTES as u64 {
                size as usize
            } else {
                HEAD_BYTES
            }
        }
    }

    /// Takes the head of an asset; says whether to read on.
    pub fn asset_head(&mut self, size: u64, head: &[u8]) -> (more: bool)
        ensures
            final(self).options() == old(self).options(),
            match old(self).current() {
                Some(e) => {
                    &&& final(self).current() == Some(
                        with_head(
                            e,
                            head@,
                            size,
                            old(self).options().max_scan,
                            group_spans(CLASS_ID@, 1, head@),
                        ),
                    )
                    &&& more == wants_body(head@, size, old(self).options().max_scan)
                },
                None => final(self).current() is None && !more,
            },
    {
        if let Some(mut e) = self.cur.take() {
            let more = scan_head(&mut e, head, size, self.opts.max_scan);
            self.cur = Some(e);
            more
        } else {
            false
        }
    }

    /// Takes the whole of an asset.
    pub fn asset_body(&mut self, data: &[u8])
        ensures
            final(self).options() == old(self).options(),
            final(self).current() == (match old(self).current() {
                Some(e) => Some(EntryView { refs: e.refs.union(guids_in(data@)), ..e }),
                None => None,
            }),
    {
        if let Some(mut e) = self.cur.take() {
            scan_body(&mut e, data);
            self.cur = Some(e);
        }
    }

    /// Notes a preview; keeps its bytes where they are wanted.
    pub fn preview(&mut self, data: Option<Vec<u8>>)
        ensures
            final(self).options() == old(self).options(),
            final(self).current() == (match old(self).current() {
                Some(e) => Some(
                    EntryView {
                        has_preview: true,
                        preview: match data.deep_view() {
                            Some(d) => Some(d),
                            None => e.preview,
                        },
                        ..e
                    },
                ),
                None => None,
            }),
    {
        if let Some(mut e) = self.cur.take() {
            e.has_preview = true;
            if data.is_some() {
                e.preview = data;
            }
            self.cur = Some(e);
        }
    }

    /// Ends the scan.
    pub fn finish(&mut self) -> (r: Option<Entry>)
        ensures
            final(self).options() == old(self).options(),
            final(self).current() is None,
            r.deep_view() == (match old(self).current() {
                Some(e) => Some(finished(e)),
                None => None,
            }),
    {
        match self.cur.take() {
            Some(e) => Some(e.finish()),
            None => None,
        }
    }

    /// Takes one member whole.
    pub fn feed(&mut self, m: &TarMember) -> (r: Option<Entry>)
        ensures
            final(self).options() == old(self).options(),
            ({
                let before = ScanView { done: Seq::empty(), cur: old(self).current() };
                let after = scan_step(before, m@, old(self).options());
                &&& final(self).current() == after.cur
                &&& after.done == (match r {
                    Some(e) => seq![e@],
                    None => Seq::empty(),
                })
            }),
    {
        assert(m.data.deep_view() =~= m.data@);
        let (done, leaf) = self.enter(m.name.as_str());
        match leaf {
            None => {},
            Some(leaf) => {
                if m.is_file {
                    if same_text(leaf.as_str(), "pathname") {
                        self.pathname(m.data.as_slice());
                    } else if same_text(leaf.as_str(), "asset.meta") {
                        self.meta(m.size, m.data.as_slice());
                    } else if same_text(leaf.as_str(), "asset") {
                        self.feed_asset(m.size, m.data.as_slice());
                    } else if same_text(leaf.as_str(), "preview.png") {
                        let kept = if self.opts.keep_previews {
                            Some(m.data.clone())
                        } else {
                            None
                        };
                        assert(kept matches Some(d) ==> d.deep_view() =~= m.data.deep_view());
                        self.preview(kept);
                    }
                }
            },
        }
        done
    }

    fn feed_asset(&mut self, size: u64, data: &[u8])
        ensures
            final(self).options() == old(self).options(),
            final(self).current() == (match old(self).current() {
                Some(e) => Some(scanned(e, data@, size, old(self).options().max_scan)),
                None => None,
            }),
    {
        let want = self.asset(size);
        let more = if want < data.len() {
            assert(data@.subrange(0, want as int) =~= data@.take(want as int));
            self.asset_head(size, slice_subrange(data, 0, want))
        } else {
            self.asset_head(size, data)
        };
        if more {
            self.asset_body(data);
        }
    }
}

proof fn lemma_step_keeps_done(d: Seq<EntryView>, st: ScanView, m: TarMemberView, opts: ScanOptions)
    ensures
        scan_step(ScanView { done: d + st.done, cur: st.cur }, m, opts) == (ScanView {
            done: d + scan_step(st, m, opts).done,
            cur: scan_step(st, m, opts).cur,
        }),
{
    let a = scan_step(ScanView { done: d + st.done, cur: st.cur }, m, opts);
    let b = scan_step(st, m, opts);
    assert(a.done =~= d + b.done);
}

/// Scans the members of a package; gives one entry for every guid directory (in their order).
pub fn scan_package(members: &Vec<TarMember>, opts: ScanOptions) -> (r: Vec<Entry>)
    ensures
        r.deep_view() == entries_of(members.deep_view(), opts),
{
    let mut scan = PackageScan::new(opts);
    let mut out: Vec<Entry> = Vec::new();
    let mut i: usize = 0;
    proof {
        assert(members.deep_view().take(0) =~= Seq::<TarMemberView>::empty());
        assert(out.deep_view() =~= Seq::<EntryView>::empty());
    }
    while i < members.len()
        invariant
            i <= members@.len(),
            scan.options() == opts,
            scan_all(members.deep_view().take(i as int), opts) == (ScanView {
                done: out.deep_view(),
                cur: scan.current(),
            }),
        decreases members@.len() - i,
    {
        let ghost ms = members.deep_view();
        let ghost o0 = out.deep_view();
        let ghost c0 = scan.current();
        proof {
            assert(ms.take(i + 1).drop_last() =~= ms.take(i as int));
            assert(ms.take(i + 1).last() == members@[i as int]@);
            let st = ScanView { done: Seq::empty(), cur: c0 };
            lemma_step_keeps_done(o0, st, members@[i as int]@, opts);
            assert(o0 + st.done =~= o0);
        }
        match scan.feed(&members[i]) {
            Some(e) => {
                let ghost ev = e@;
                out.push(e);
                assert(out.deep_view() =~= o0 + seq![ev]);
            },
            None => {
                assert(out.deep_view() =~= o0 + Seq::<EntryView>::empty());
            },
        }
        i += 1;
    }
    assert(members.deep_view().take(members@.len() as int) =~= members.deep_view());
    let ghost o0 = out.deep_view();
    match scan.finish() {
        Some(e) => {
            let ghost ev = e@;
            out.push(e);
            assert(out.deep_view() =~= o0.push(ev));
        },
        None => {},
    }
    out
}

/// The entries of an unpacked archive, or what is wrong with it.
pub open spec fn entries_read(found: UnpackedView, opts: ScanOptions) -> Result<Seq<EntryView>, ErrorView> {
    match found.fault {
        None => Ok(entries_of(found.members, opts)),
        Some(f) => Err(ErrorView::Other(fault_words(f))),
    }
}

/// Collects every entry of an unpacked archive; a fault anywhere fails the whole.
pub fn collect_entries(found: &Unpacked, opts: ScanOptions) -> (r: Result<Vec<Entry>, Error>)
    ensures
        outcome(r) == entries_read(found@, opts),
{
    match &found.fault {
        None => Ok(scan_package(&found.members, opts)),
        Some(f) => Err(tell_fault(f)),
    }
}

/// Collects every entry of a package.
pub fn read_entries(package: &[u8], opts: ScanOptions) -> (r: Result<Vec<Entry>, Error>)
    ensures
        outcome(r) == entries_read(archive_of(package@), opts),
{
    collect_entries(&unpack_archive(package), opts)
}

/// A scanned entry refers neither to itself nor to a built-in resource.
pub proof fn entries_refer_outward(ms: Seq<TarMemberView>, opts: ScanOptions, i: int, g: Seq<char>)
    requires
        0 <= i < entries_of(ms, opts).len(),
        entries_of(ms, opts)[i].refs.contains(g),
    ensures
        g != entries_of(ms, opts)[i].guid,
        !builtin_guid(g),
{
    lemma_done_are_finished(ms, opts);
    let st = scan_all(ms, opts);
    let es = entries_of(ms, opts);
    if i < st.done.len() {
        assert(es[i] == st.done[i]);
        let e = choose|e: EntryView| st.done[i] == finished(e);
        assert(st.done[i] == finished(e));
    }
}

proof fn lemma_done_are_finished(ms: Seq<TarMemberView>, opts: ScanOptions)
    ensures
        forall|i: int|
            0 <= i < scan_all(ms, opts).done.len() ==> exists|e: EntryView|
                #[trigger] scan_all(ms, opts).done[i] == finished(e),
    decreases ms.len(),
{
    if ms.len() > 0 {
        lemma_done_are_finished(ms.drop_last(), opts);
        let a = scan_all(ms.drop_last(), opts);
        let b = scan_all(ms, opts);
        assert forall|i: int| 0 <= i < b.done.len() implies exists|e: EntryView|
            #[trigger] b.done[i] == finished(e) by {
            if i < a.done.len() {
                assert(b.done[i] == a.done[i]);
            } else {
                assert(b.done[i] == finished(a.cur->0));
            }
        }
    }
}

proof fn lemma_entered(ms: Seq<TarMemberView>, opts: ScanOptions, i: int)
    requires
        0 <= i < ms.len(),
        dir_of(ms[i]) is Some,
    ensures
        ({
            let st = scan_all(ms, opts);
            let g = dir_of(ms[i])->0;
            ||| st.cur is Some && st.cur->0.guid == g
            ||| exists|k: int| 0 <= k < st.done.len() && (#[trigger] st.done[k]).guid == g
        }),
    decreases ms.len(),
{
    let rest = ms.drop_last();
    let m = ms.last();
    let before = scan_all(rest, opts);
    let after = scan_all(ms, opts);
    let g = dir_of(ms[i])->0;
    if let Some((h, _)) = member_parts(m.name) {
        let parts = filled(
            pieces(
                if starts(m.name, "./"@) {
                    m.name.skip("./"@.len() as int)
                } else {
                    m.name
                },
                Sep::Is('/'),
            ),
        );
        assert(h == lower(parts[0]));
        assert(lower(h) =~= h);
        assert(after.cur->0.guid == h);
    }
    if i < rest.len() {
        assert(rest[i] == ms[i]);
        lemma_entered(rest, opts, i);
        if before.cur is Some && before.cur->0.guid == g {
            if after.done.len() > before.done.len() {
                assert(after.done[before.done.len() as int].guid == g);
            }
        } else {
            let k = choose|k: int| 0 <= k < before.done.len() && (#[trigger] before.done[k]).guid == g;
            assert(after.done[k] == before.done[k]);
        }
    }
}

/// Every guid directory of a package has an entry.
pub proof fn every_directory_has_an_entry(ms: Seq<TarMemberView>, opts: ScanOptions, i: int) -> (k: int)
    requires
        0 <= i < ms.len(),
        dir_of(ms[i]) is Some,
    ensures
        0 <= k < entries_of(ms, opts).len(),
        Some(entries_of(ms, opts)[k].guid) == dir_of(ms[i]),
{
    lemma_entered(ms, opts, i);
    let st = scan_all(ms, opts);
    let g = dir_of(ms[i])->0;
    if st.cur is Some && st.cur->0.guid == g {
        st.done.len() as int
    } else {
        let k = choose|k: int| 0 <= k < st.done.len() && (#[trigger] st.done[k]).guid == g;
        assert(entries_of(ms, opts)[k] == st.done[k]);
        k
    }
}

/// References that are guids in lower case, and finitely many.
pub open spec fn clean_refs(refs: Set<Seq<char>>) -> bool {
    &&& refs.finite()
    &&& forall|g: Seq<char>| #[trigger] refs.contains(g) ==> guid_shaped(g) && lower(g) == g
}

proof fn lemma_collected_are_clean(data: Seq<u8>)
    ensures
        clean_refs(guids_in(data)),
{
    let places = vstd::set_lib::set_int_range(0, data.len() as int);
    let f = |h: int| guid_text(data.subrange(h, h + 32));
    vstd::set_lib::lemma_int_range(0, data.len() as int);
    places.lemma_map_finite(f);
    assert forall|g: Seq<char>| #[trigger] guids_in(data).contains(g) implies guid_shaped(g) && lower(g) == g
        && places.map(f).contains(g) by {
        collected_refs_are_guids(data, g);
        let h = choose|h: int| #[trigger] guid_at(data, h) && g == guid_text(data.subrange(h, h + 32));
        lemma_guid_at_bounds(data, h);
        assert(places.contains(h));
        assert(f(h) == g);
    }
    assert(guids_in(data).subset_of(places.map(f)));
    vstd::set_lib::lemma_set_subset_finite(places.map(f), guids_in(data));
}

proof fn lemma_absorbed_is_clean(e: EntryView, leaf: Seq<char>, m: TarMemberView, opts: ScanOptions)
    requires
        clean_refs(e.refs),
    ensures
        clean_refs(absorbed(e, leaf, m, opts).refs),
{
    lemma_collected_are_clean(m.data);
    lemma_collected_are_clean(head_of(m.data, m.size));
    lemma_collected_are_clean(encode_utf8(lossy_of(m.data)));
}

proof fn lemma_scan_is_clean(ms: Seq<TarMemberView>, opts: ScanOptions)
    ensures
        forall|i: int| 0 <= i < scan_all(ms, opts).done.len() ==> clean_refs(
            (#[trigger] scan_all(ms, opts).done[i]).refs,
        ),
        scan_all(ms, opts).cur matches Some(e) ==> clean_refs(e.refs),
    decreases ms.len(),
{
    if ms.len() > 0 {
        lemma_scan_is_clean(ms.drop_last(), opts);
        let a = scan_all(ms.drop_last(), opts);
        let m = ms.last();
        match member_parts(m.name) {
            None => {},
            Some((guid, leaf)) => {
                let b = entered(a, guid);
                if a.cur is Some {
                    assert(clean_refs(finished(a.cur->0).refs));
                }
                assert(clean_refs(fresh_entry(guid).refs));
                assert(clean_refs(b.cur->0.refs));
                if leaf is Some {
                    lemma_absorbed_is_clean(b.cur->0, leaf->0, m, opts);
                }
            },
        }
    }
}

/// Every reference of a scanned entry is a guid in lower case, and there are finitely many.
pub proof fn scanned_refs_are_guids(ms: Seq<TarMemberView>, opts: ScanOptions, i: int)
    requires
        0 <= i < entries_of(ms, opts).len(),
    ensures
        clean_refs(entries_of(ms, opts)[i].refs),
{
    lemma_scan_is_clean(ms, opts);
    let st = scan_all(ms, opts);
    if i < st.done.len() {
        assert(entries_of(ms, opts)[i] == st.done[i]);
    } else {
        assert(clean_refs(finished(st.cur->0).refs));
    }
}

// ----- wanted members ------------------------------------------------------------------------

/// What to do with a member while looking for certain guid directories.
pub enum MemberStep {
    /// Not wanted.
    Skip,
    /// Every wanted directory has been seen, and this is another one: nothing wanted follows.
    Stop,
    /// The leaf of a wanted directory: guid and leaf.
    Take(String, String),
}

/// The members of the wanted directories, up to the first directory behind the last wanted one.
pub open spec fn picked(ms: Seq<TarMemberView>, wanted: Set<Seq<char>>, remaining: Set<Seq<char>>) -> Seq<
    MemberView,
>
    decreases ms.len(),
{
    if ms.len() == 0 {
        Seq::empty()
    } else {
        let m = ms.first();
        let rest = ms.drop_first();
        match member_parts(m.name) {
            None => picked(rest, wanted, remaining),
            Some((guid, leaf)) => if !wanted.contains(guid) {
                if remaining == Set::<Seq<char>>::empty() {
                    Seq::empty()
                } else {
                    picked(rest, wanted, remaining)
                }
            } else {
                let tail = picked(rest, wanted, remaining.remove(guid));
                match leaf {
                    Some(l) => if m.is_file {
                        seq![member_view(m, guid, l)] + tail
                    } else {
                        tail
                    },
                    None => tail,
                }
            },
        }
    }
}

/// Whether reading for the wanted directories ends at an unwanted one, before the last member.
pub open spec fn stops(ms: Seq<TarMemberView>, wanted: Set<Seq<char>>, remaining: Set<Seq<char>>) -> bool
    decreases ms.len(),
{
    ms.len() > 0 && match dir_of(ms.first()) {
        None => stops(ms.drop_first(), wanted, remaining),
        Some(guid) => if wanted.contains(guid) {
            stops(ms.drop_first(), wanted, remaining.remove(guid))
        } else {
            remaining == Set::<Seq<char>>::empty() || stops(ms.drop_first(), wanted, remaining)
        },
    }
}

/// The members that show up before an archive ends or turns out to be damaged: the one whose data
/// cannot be read is the last of them.
pub open spec fn shown(found: UnpackedView) -> Seq<TarMemberView> {
    match found.fault {
        Some(FaultView { member: Some(name), .. }) => found.members.push(
            TarMemberView { name, is_file: true, size: 0, mtime: 0, data: Seq::empty() },
        ),
        _ => found.members,
    }
}

/// The members of the wanted directories in an unpacked archive, or what is wrong with it: a fault
/// behind the place where reading stops is never met.
pub open spec fn members_read(found: UnpackedView, wanted: Set<Seq<char>>) -> Result<Seq<MemberView>, ErrorView> {
    match found.fault {
        Some(f) => if stops(shown(found), wanted, wanted) {
            Ok(picked(found.members, wanted, wanted))
        } else {
            Err(ErrorView::Other(fault_words(f)))
        },
        None => Ok(picked(found.members, wanted, wanted)),
    }
}

pub open spec fn member_view(m: TarMemberView, guid: Seq<char>, leaf: Seq<char>) -> MemberView {
    MemberView { guid, leaf, size: m.size, mtime: m.mtime, data: m.data }
}

/// The guids in lower case.
pub open spec fn lower_set(guids: Seq<Seq<char>>) -> Set<Seq<char>> {
    Set::new(|g: Seq<char>| exists|i: int| 0 <= i < guids.len() && g == lower(#[trigger] guids[i]))
}

/// Picks the members of wanted guid directories out of a package.
pub struct MemberFilter {
    wanted: TextSet,
    remaining: TextSet,
}

impl MemberFilter {
    /// The directories looked for.
    pub closed spec fn wants(&self) -> Set<Seq<char>> {
        self.wanted@
    }

    /// The directories not seen yet.
    pub closed spec fn missing(&self) -> Set<Seq<char>> {
        self.remaining@
    }

    pub fn new(guids: &Vec<String>) -> (r: Self)
        ensures
            r.wants() == lower_set(guids.deep_view()),
            r.missing() == r.wants(),
    {
        let mut wanted = TextSet::new();
        let mut i: usize = 0;
        assert(lower_set(guids.deep_view().take(0)) =~= Set::<Seq<char>>::empty());
        while i < guids.len()
            invariant
                i <= guids@.len(),
                wanted@ == lower_set(guids.deep_view().take(i as int)),
            decreases guids@.len() - i,
        {
            let ghost gs = guids.deep_view();
            wanted.insert(to_lower(guids[i].as_str()));
            proof {
                let t = gs.take(i as int);
                let u = gs.take(i + 1);
                assert(u =~= t.push(gs[i as int]));
                assert(gs[i as int] == guids@[i as int]@);
                assert forall|g: Seq<char>| lower_set(u).contains(g) <==> (lower_set(t).contains(g)
                    || g == lower(gs[i as int])) by {
                    if lower_set(t).contains(g) {
                        let k = choose|k: int| 0 <= k < t.len() && g == lower(#[trigger] t[k]);
                        assert(u[k] == t[k]);
                    }
                    if lower_set(u).contains(g) {
                        let k = choose|k: int| 0 <= k < u.len() && g == lower(#[trigger] u[k]);
                        if k < i {
                            assert(t[k] == u[k]);
                        }
                    }
                    assert(u[i as int] == gs[i as int]);
                }
                assert(wanted@ =~= lower_set(u));
            }
            i += 1;
        }
        assert(guids.deep_view().take(guids@.len() as int) =~= guids.deep_view());
        let remaining = wanted.clone();
        MemberFilter { wanted, remaining }
    }

    /// What to do with the next member.
    pub fn step(&mut self, name: &str, is_file: bool) -> (r: MemberStep)
        ensures
            final(self).wants() == old(self).wants(),
            match member_parts(name@) {
                None => r is Skip && final(self).missing() == old(self).missing(),
                Some((guid, leaf)) => if !old(self).wants().contains(guid) {
                    &&& final(self).missing() == old(self).missing()
                    &&& old(self).missing() == Set::<Seq<char>>::empty() ==> r is Stop
                    &&& old(self).missing() != Set::<Seq<char>>::empty() ==> r is Skip
                } else {
                    &&& final(self).missing() == old(self).missing().remove(guid)
                    &&& match leaf {
                        Some(l) => if is_file {
                            r matches MemberStep::Take(g, k) && g@ == guid && k@ == l
                        } else {
                            r is Skip
                        },
                        None => r is Skip,
                    }
                },
            },
    {
        match split_member_name(name) {
            None => MemberStep::Skip,
            Some((guid, leaf)) => {
                if !self.wanted.contains(guid.as_str()) {
                    if self.remaining.is_empty() {
                        MemberStep::Stop
                    } else {
                        MemberStep::Skip
                    }
                } else {
                    self.remaining.remove(guid.as_str());
                    match leaf {
                        Some(leaf) => if is_file {
                            MemberStep::Take(guid, leaf)
                        } else {
                            MemberStep::Skip
                        },
                        None => MemberStep::Skip,
                    }
                }
            },
        }
    }
}

/// Goes through the members for those of the wanted directories: what was found, whether reading
/// stopped early, and the state of the search.
fn walk_members(members: &Vec<TarMember>, guids: &Vec<String>, Ghost(all): Ghost<Seq<TarMemberView>>) -> (r: (
    Vec<Member>,
    bool,
    MemberFilter,
))
    requires
        members@.len() <= all.len(),
        members.deep_view() == all.take(members@.len() as int),
    ensures
        ({
            let wanted = lower_set(guids.deep_view());
            &&& r.0.deep_view() == picked(members.deep_view(), wanted, wanted)
            &&& r.1 ==> stops(all, wanted, wanted)
            &&& !r.1 ==> r.2.wants() == wanted && stops(all, wanted, wanted) == stops(
                all.skip(members@.len() as int),
                wanted,
                r.2.missing(),
            )
        }),
{
    let mut filter = MemberFilter::new(guids);
    let mut out: Vec<Member> = Vec::new();
    let ghost wanted = filter.wants();
    let ghost goal = picked(members.deep_view(), wanted, wanted);
    let mut i: usize = 0;
    proof {
        assert(members.deep_view().skip(0) =~= members.deep_view());
        assert(all.skip(0) =~= all);
        assert(goal =~= out.deep_view() + picked(members.deep_view().skip(0), wanted, wanted));
    }
    while i < members.len()
        invariant
            i <= members@.len(),
            filter.wants() == wanted,
            wanted == lower_set(guids.deep_view()),
            goal == picked(members.deep_view(), wanted, wanted),
            members@.len() <= all.len(),
            members.deep_view() == all.take(members@.len() as int),
            stops(all, wanted, wanted) == stops(all.skip(i as int), wanted, filter.missing()),
            goal == out.deep_view() + picked(members.deep_view().skip(i as int), wanted, filter.missing()),
        decreases members@.len() - i,
    {
        let ghost ms = members.deep_view();
        let ghost o0 = out.deep_view();
        let ghost miss = filter.missing();
        let m = &members[i];
        proof {
            assert(ms.skip(i as int).first() == m@);
            assert(ms.skip(i as int).drop_first() =~= ms.skip(i + 1));
            assert(ms[i as int] == all[i as int]);
            assert(all.skip(i as int).first() == m@);
            assert(all.skip(i as int).drop_first() =~= all.skip(i + 1));
            assert(m.data.deep_view() =~= m.data@);
        }
        match filter.step(m.name.as_str(), m.is_file) {
            MemberStep::Skip => {},
            MemberStep::Stop => {
                assert(goal =~= o0);
                return (out, true, filter);
            },
            MemberStep::Take(guid, leaf) => {
                let item = Member { guid, leaf, size: m.size, mtime: m.mtime, data: m.data.clone() };
                let ghost iv = item@;
                proof {
                    assert(item.data.deep_view() =~= m.data.deep_view());
                    assert(iv == member_view(m@, iv.guid, iv.leaf));
                }
                out.push(item);
                proof {
                    assert(out.deep_view() =~= o0.push(iv));
                    let tail = picked(ms.skip(i + 1), wanted, filter.missing());
                    assert(o0 + (seq![iv] + tail) =~= o0.push(iv) + tail);
                }
            },
        }
        i += 1;
    }
    proof {
        assert(members.deep_view().skip(i as int) =~= Seq::<TarMemberView>::empty());
        assert(goal =~= out.deep_view());
    }
    (out, false, filter)
}

/// The members of the wanted guid directories (`asset`, `asset.meta`, `pathname`, `preview.png`).
/// Members are grouped per guid inside a package, so once every wanted guid has been seen and an
/// unwanted one shows up, reading stops early.
pub fn for_each_member(members: &Vec<TarMember>, guids: &Vec<String>) -> (r: Vec<Member>)
    ensures
        r.deep_view() == picked(
            members.deep_view(),
            lower_set(guids.deep_view()),
            lower_set(guids.deep_view()),
        ),
{
    let ghost ms = members.deep_view();
    assert(ms.take(ms.len() as int) =~= ms);
    walk_members(members, guids, Ghost(ms)).0
}

/// The members of the wanted guid directories in an unpacked archive. A fault matters only where
/// reading comes to it.
pub fn collect_members(found: &Unpacked, guids: &Vec<String>) -> (r: Result<Vec<Member>, Error>)
    ensures
        outcome(r) == members_read(found@, lower_set(guids.deep_view())),
{
    let ghost all = shown(found@);
    proof {
        assert(found@.members.len() == found.members@.len());
        assert(all.take(found.members@.len() as int) =~= found@.members);
    }
    let (out, stopped, mut filter) = walk_members(&found.members, guids, Ghost(all));
    match &found.fault {
        None => Ok(out),
        Some(f) => {
            if stopped {
                return Ok(out);
            }
            match &f.member {
                Some(name) => {
                    let ghost rest = all.skip(found.members@.len() as int);
                    proof {
                        assert(rest.len() == 1 && rest.first().name == name@);
                        assert(rest.drop_first().len() == 0);
                        reveal_with_fuel(stops, 2);
                    }
                    match filter.step(name.as_str(), true) {
                        MemberStep::Stop => Ok(out),
                        _ => Err(tell_fault(f)),
                    }
                },
                None => {
                    assert(all.skip(found.members@.len() as int).len() == 0);
                    Err(tell_fault(f))
                },
            }
        },
    }
}

/// Reads the members of the wanted guid directories out of a package.
pub fn read_members(package: &[u8], guids: &Vec<String>) -> (r: Result<Vec<Member>, Error>)
    ensures
        outcome(r) == members_read(archive_of(package@), lower_set(guids.deep_view())),
{
    collect_members(&unpack_archive(package), guids)
}

/// Whatever stands behind the place where reading stops, be it damage or other members, changes
/// nothing: the members of the wanted directories come as they are.
pub proof fn late_damage_is_not_met(
    ms: Seq<TarMemberView>,
    more: Seq<TarMemberView>,
    fault: Option<FaultView>,
    wanted: Set<Seq<char>>,
)
    requires
        stops(ms, wanted, wanted),
    ensures
        members_read(UnpackedView { members: ms + more, fault }, wanted) == Ok::<Seq<MemberView>, ErrorView>(
            picked(ms, wanted, wanted),
        ),
{
    let found = UnpackedView { members: ms + more, fault };
    lemma_stops_there(ms, more, wanted, wanted);
    if shown(found) != found.members {
        let rest = more.push(shown(found).last());
        assert(shown(found) =~= ms + rest);
        lemma_stops_there(ms, rest, wanted, wanted);
    }
}

proof fn lemma_stops_there(
    ms: Seq<TarMemberView>,
    more: Seq<TarMemberView>,
    wanted: Set<Seq<char>>,
    remaining: Set<Seq<char>>,
)
    requires
        stops(ms, wanted, remaining),
    ensures
        stops(ms + more, wanted, remaining),
        picked(ms + more, wanted, remaining) == picked(ms, wanted, remaining),
    decreases ms.len(),
{
    assert((ms + more).first() == ms.first());
    assert((ms + more).drop_first() =~= ms.drop_first() + more);
    match dir_of(ms.first()) {
        None => lemma_stops_there(ms.drop_first(), more, wanted, remaining),
        Some(guid) => {
            if wanted.contains(guid) {
                lemma_stops_there(ms.drop_first(), more, wanted, remaining.remove(guid));
            } else if remaining != Set::<Seq<char>>::empty() {
                lemma_stops_there(ms.drop_first(), more, wanted, remaining);
            }
        },
    }
}

/// All files of the wanted directories.
pub open spec fn wanted_files(ms: Seq<TarMemberView>, wanted: Set<Seq<char>>) -> Seq<MemberView>
    decreases ms.len(),
{
    if ms.len() == 0 {
        Seq::empty()
    } else {
        let m = ms.first();
        let tail = wanted_files(ms.drop_first(), wanted);
        match member_parts(m.name) {
            Some((guid, Some(l))) => if wanted.contains(guid) && m.is_file {
                seq![member_view(m, guid, l)] + tail
            } else {
                tail
            },
            _ => tail,
        }
    }
}

/// The guid of the directory that a member is in.
pub open spec fn dir_of(m: TarMemberView) -> Option<Seq<char>> {
    match member_parts(m.name) {
        Some((guid, _)) => Some(guid),
        None => None,
    }
}

/// The members of each guid directory stand together.
pub open spec fn grouped(ms: Seq<TarMemberView>) -> bool {
    forall|i: int, j: int, k: int|
        0 <= i < j < k < ms.len() && (#[trigger] dir_of(ms[i])) is Some && dir_of(ms[i]) == #[trigger] dir_of(ms[k])
            && (#[trigger] dir_of(ms[j])) is Some ==> dir_of(ms[j]) == dir_of(ms[i])
}

/// Stopping early loses nothing: where the members of each directory stand together, every file of
/// a wanted directory is picked.
pub proof fn early_stop_loses_nothing(ms: Seq<TarMemberView>, wanted: Set<Seq<char>>)
    requires
        grouped(ms),
    ensures
        picked(ms, wanted, wanted) == wanted_files(ms, wanted),
{
    assert(ms.skip(0) =~= ms);
    lemma_no_loss(ms, 0, wanted, wanted);
}

proof fn lemma_no_loss(ms: Seq<TarMemberView>, n: int, wanted: Set<Seq<char>>, remaining: Set<Seq<char>>)
    requires
        grouped(ms),
        0 <= n <= ms.len(),
        forall|g: Seq<char>|
            wanted.contains(g) && !#[trigger] remaining.contains(g) ==> exists|i: int|
                0 <= i < n && dir_of(#[trigger] ms[i]) == Some(g),
    ensures
        picked(ms.skip(n), wanted, remaining) == wanted_files(ms.skip(n), wanted),
    decreases ms.len() - n,
{
    let rest = ms.skip(n);
    if n < ms.len() {
        let m = ms[n];
        assert(rest.first() == m);
        assert(rest.drop_first() =~= ms.skip(n + 1));
        match member_parts(m.name) {
            None => {
                lemma_no_loss(ms, n + 1, wanted, remaining);
            },
            Some((guid, leaf)) => {
                if !wanted.contains(guid) {
                    if remaining == Set::<Seq<char>>::empty() {
                        assert forall|k: int| n < k < ms.len() implies !(dir_of(#[trigger] ms[k]) matches Some(g)
                            && wanted.contains(g)) by {
                            if let Some(g) = dir_of(ms[k]) {
                                if wanted.contains(g) {
                                    assert(!remaining.contains(g));
                                    let i = choose|i: int| 0 <= i < n && dir_of(#[trigger] ms[i]) == Some(g);
                                    assert(dir_of(ms[n]) is Some);
                                    assert(dir_of(ms[i]) == dir_of(ms[k]));
                                    assert(dir_of(ms[n]) == dir_of(ms[i]));
                                }
                            }
                        }
                        lemma_none_wanted(ms, n, wanted);
                    } else {
                        lemma_no_loss(ms, n + 1, wanted, remaining);
                    }
                } else {
                    let rem = remaining.remove(guid);
                    assert forall|g: Seq<char>| wanted.contains(g) && !#[trigger] rem.contains(g) implies exists|
                        i: int,
                    |
                        0 <= i < n + 1 && dir_of(#[trigger] ms[i]) == Some(g) by {
                        if g == guid {
                            assert(dir_of(ms[n]) == Some(g));
                        } else {
                            assert(!remaining.contains(g));
                            let i = choose|i: int| 0 <= i < n && dir_of(#[trigger] ms[i]) == Some(g);
                            assert(dir_of(ms[i]) == Some(g));
                        }
                    }
                    lemma_no_loss(ms, n + 1, wanted, rem);
                }
            },
        }
    }
}

proof fn lemma_none_wanted(ms: Seq<TarMemberView>, n: int, wanted: Set<Seq<char>>)
    requires
        0 <= n <= ms.len(),
        forall|k: int|
            n <= k < ms.len() ==> !(dir_of(#[trigger] ms[k]) matches Some(g) && wanted.contains(g)),
    ensures
        wanted_files(ms.skip(n), wanted) == Seq::<MemberView>::empty(),
    decreases ms.len() - n,
{
    if n < ms.len() {
        assert(ms.skip(n).first() == ms[n]);
        assert(ms.skip(n).drop_first() =~= ms.skip(n + 1));
        lemma_none_wanted(ms, n + 1, wanted);
    }
}

// ----- gzip header ---------------------------------------------------------------------------

/// What the Asset Store writes into the gzip header of a package.
#[derive(Debug)]
pub struct PackageHeader {
    pub title: Option<String>,
    pub version: Option<String>,
    pub unity_version: Option<String>,
    pub pubdate: Option<String>,
    pub description: Option<String>,
    pub store_id: Option<String>,
    pub publisher: Option<String>,
    pub category: Option<String>,
    /// The whole object as JSON.
    pub json: String,
}

/// What a [`PackageHeader`] holds.
#[verifier::ext_equal]
pub struct PackageHeaderView {
    pub title: Option<Seq<char>>,
    pub version: Option<Seq<char>>,
    pub unity_version: Option<Seq<char>>,
    pub pubdate: Option<Seq<char>>,
    pub description: Option<Seq<char>>,
    pub store_id: Option<Seq<char>>,
    pub publisher: Option<Seq<char>>,
    pub category: Option<Seq<char>>,
    pub json: Seq<char>,
}

impl View for PackageHeader {
    type V = PackageHeaderView;

    open spec fn view(&self) -> PackageHeaderView {
        PackageHeaderView {
            title: self.title.deep_view(),
            version: self.version.deep_view(),
            unity_version: self.unity_version.deep_view(),
            pubdate: self.pubdate.deep_view(),
            description: self.description.deep_view(),
            store_id: self.store_id.deep_view(),
            publisher: self.publisher.deep_view(),
            category: self.category.deep_view(),
            json: self.json@,
        }
    }
}

impl DeepView for PackageHeader {
    type V = PackageHeaderView;

    open spec fn deep_view(&self) -> PackageHeaderView {
        self.view()
    }
}

impl Clone for PackageHeader {
    fn clone(&self) -> (r: Self)
        ensures
            r@ == self@,
    {
        let r = PackageHeader {
            title: self.title.clone(),
            version: self.version.clone(),
            unity_version: self.unity_version.clone(),
            pubdate: self.pubdate.clone(),
            description: self.description.clone(),
            store_id: self.store_id.clone(),
            publisher: self.publisher.clone(),
            category: self.category.clone(),
            json: self.json.clone(),
        };
        assert(r.title.deep_view() == self.title.deep_view());
        assert(r.version.deep_view() == self.version.deep_view());
        assert(r.unity_version.deep_view() == self.unity_version.deep_view());
        assert(r.pubdate.deep_view() == self.pubdate.deep_view());
        assert(r.description.deep_view() == self.description.deep_view());
        assert(r.store_id.deep_view() == self.store_id.deep_view());
        assert(r.publisher.deep_view() == self.publisher.deep_view());
        assert(r.category.deep_view() == self.category.deep_view());
        r
    }
}


/// A 16-bit number in little-endian order.
pub open spec fn le16(lo: u8, hi: u8) -> int {
    lo as int + 256 * (hi as int)
}

fn read_le16(lo: u8, hi: u8) -> (r: usize)
    ensures
        r == le16(lo, hi),
{
    lo as usize + 256 * (hi as usize)
}

/// The extra field of a gzip header, as far as it is there.
pub open spec fn gzip_extra(head: Seq<u8>) -> Option<Seq<u8>> {
    if head.len() < 12 || head[0] != 0x1f || head[1] != 0x8b || head[3] & 4 == 0 {
        None
    } else {
        let end = 12 + le16(head[10], head[11]);
        Some(
            head.subrange(
                12,
                if end < head.len() {
                    end
                } else {
                    head.len() as int
                },
            ),
        )
    }
}

/// The data of the subfields of an extra field from `pos` on: two bytes of identification, the
/// length, the data. The last one may be cut short.
pub open spec fn subfields(extra: Seq<u8>, pos: int) -> Seq<Seq<u8>>
    decreases extra.len() - pos,
{
    if pos < 0 || pos + 4 > extra.len() {
        Seq::empty()
    } else {
        let full = pos + 4 + le16(extra[pos + 2], extra[pos + 3]);
        let end = if full < extra.len() {
            full
        } else {
            extra.len() as int
        };
        seq![extra.subrange(pos + 4, end)] + subfields(extra, end)
    }
}

/// The data of the subfields in a gzip header.
pub open spec fn gzip_fields(head: Seq<u8>) -> Seq<Seq<u8>> {
    match gzip_extra(head) {
        Some(extra) => subfields(extra, 0),
        None => Seq::empty(),
    }
}

/// The data of the subfields in a gzip header.
pub fn extra_fields(head: &[u8]) -> (r: Vec<Vec<u8>>)
    ensures
        r.deep_view() == gzip_fields(head@),
{
    let mut out: Vec<Vec<u8>> = Vec::new();
    assert(out.deep_view() =~= Seq::<Seq<u8>>::empty());
    let n: usize = head.len();
    if n < 12 || head[0] != 0x1f || head[1] != 0x8b || head[3] & 4 == 0 {
        return out;
    }
    let len = read_le16(head[10], head[11]);
    let end: usize = if len < n - 12 {
        12 + len
    } else {
        n
    };
    let extra = slice_subrange(head, 12, end);
    let m: usize = extra.len();
    let ghost all = subfields(extra@, 0);
    let mut pos: usize = 0;
    assert(all =~= out.deep_view() + subfields(extra@, 0));
    while 4 <= m - pos
        invariant
            m == extra@.len(),
            pos <= m,
            all == out.deep_view() + subfields(extra@, pos as int),
        decreases m - pos,
    {
        let ln = read_le16(extra[pos + 2], extra[pos + 3]);
        let rest: usize = m - pos - 4;
        let stop: usize = if ln < rest {
            pos + 4 + ln
        } else {
            m
        };
        let part = slice_subrange(extra, pos + 4, stop);
        let data = slice_to_vec(part);
        let ghost o0 = out.deep_view();
        proof {
            assert(data.deep_view() =~= part@);
        }
        out.push(data);
        proof {
            assert(out.deep_view() =~= o0.push(part@));
            let tail = subfields(extra@, stop as int);
            assert(subfields(extra@, pos as int) == seq![part@] + tail);
            assert(o0 + (seq![part@] + tail) =~= o0.push(part@) + tail);
        }
        pos = stop;
    }
    assert(all =~= out.deep_view());
    out
}

/// The fields of a store header, read off the bytes of its JSON object.
pub open spec fn header_of(data: Seq<u8>, json: Seq<char>) -> PackageHeaderView {
    PackageHeaderView {
        title: json_string_of(data, "/title"@),
        version: json_string_of(data, "/version"@),
        unity_version: json_string_of(data, "/unity_version"@),
        pubdate: json_string_of(data, "/pubdate"@),
        description: json_string_of(data, "/description"@),
        store_id: match json_string_of(data, "/id"@) {
            Some(s) => Some(s),
            None => json_value_of(data, "/id"@),
        },
        publisher: json_string_of(data, "/publisher/label"@),
        category: json_string_of(data, "/category/label"@),
        json,
    }
}

/// The header in the first field that holds a JSON object, bytes that are not UTF-8 replaced where
/// it is none as it stands.
pub open spec fn header_in(fields: Seq<Seq<u8>>) -> Option<PackageHeaderView>
    decreases fields.len(),
{
    if fields.len() == 0 {
        None
    } else {
        let data = fields.first();
        let mended = encode_utf8(lossy_of(data));
        match json_object_of(data) {
            Some(json) => Some(header_of(data, json)),
            None => match json_object_of(mended) {
                Some(json) => Some(header_of(mended, json)),
                None => header_in(fields.drop_first()),
            },
        }
    }
}

fn read_header(data: &[u8], json: String) -> (r: PackageHeader)
    ensures
        r@ == header_of(data@, json@),
{
    let id = json_string(data, "/id");
    PackageHeader {
        title: json_string(data, "/title"),
        version: json_string(data, "/version"),
        unity_version: json_string(data, "/unity_version"),
        pubdate: json_string(data, "/pubdate"),
        description: json_string(data, "/description"),
        store_id: if id.is_some() {
            id
        } else {
            json_value(data, "/id")
        },
        publisher: json_string(data, "/publisher/label"),
        category: json_string(data, "/category/label"),
        json,
    }
}

/// The store header in the first field that holds one.
pub fn find_header(fields: &Vec<Vec<u8>>) -> (r: Option<PackageHeader>)
    ensures
        r.deep_view() == header_in(fields.deep_view()),
{
    let mut i: usize = 0;
    assert(fields.deep_view().skip(0) =~= fields.deep_view());
    while i < fields.len()
        invariant
            i <= fields@.len(),
            header_in(fields.deep_view()) == header_in(fields.deep_view().skip(i as int)),
        decreases fields@.len() - i,
    {
        let data = fields[i].as_slice();
        proof {
            let fs = fields.deep_view();
            assert(fs.skip(i as int).first() =~= data@);
            assert(fs.skip(i as int).drop_first() =~= fs.skip(i + 1));
        }
        match json_object(data) {
            Some(json) => {
                return Some(read_header(data, json));
            },
            None => {},
        }
        let text = lossy(data);
        let mended = text.as_str().as_bytes();
        match json_object(mended) {
            Some(json) => {
                return Some(read_header(mended, json));
            },
            None => {},
        }
        i += 1;
    }
    None
}

/// Asset Store packages embed JSON in the gzip extra field (store id, unity version, title, ...).
pub fn parse_gzip_extra_json(head: &[u8]) -> (r: Option<PackageHeader>)
    ensures
        r.deep_view() == header_in(gzip_fields(head@)),
{
    let fields = extra_fields(head);
    find_header(&fields)
}

} // verus!
