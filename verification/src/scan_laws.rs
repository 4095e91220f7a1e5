//! What scanning a package promises: which entries it gives, and what each of them holds.

use vstd::prelude::*;
use vstd::utf8::*;

use crate::outside::{
    byte_is_hex, digits_behind, group_spans, guid_at, json_object_of, json_string_of, lossy_of, names_guid, quotes_end,
    space_at, spaces_end, FOLDER, IMPORTER, LABELS,
};
use crate::text::{is_hex, is_space, lower_char, pieces, starts, trim, Sep};
use crate::unitypackage::{
    absorbed, builtin_guid, dir_of, entered, entries_of, finished, first_text, grouped, guid_text, guids_in, head_of,
    header_in, items_of, labels_in, member_parts, meta_parsed, outward, path_in, scan_all, scanned, text_like,
    wants_body, with_head, yaml_marked, EntryView, ScanOptions, ScanView, TarMemberView,
};

verus! {

// ----- one asset -----------------------------------------------------------------------------

/// The first bytes of an asset, by which text is told from binary data: 8192 of them, or all.
pub open spec fn first_bytes(data: Seq<u8>, size: u64) -> Seq<u8> {
    let n = if size < 8192 {
        size as int
    } else {
        8192
    };
    if n < data.len() {
        data.take(n)
    } else {
        data
    }
}

/// Whether an asset counts as text: it begins with `%YAML`, or its first bytes hold no zero and are
/// UTF-8 but for a character that may be cut at their end.
pub open spec fn counts_as_text(data: Seq<u8>, size: u64) -> bool {
    let head = first_bytes(data, size);
    ||| head.len() >= 5 && head.take(5) == seq![0x25u8, 0x59u8, 0x41u8, 0x4du8, 0x4cu8]
    ||| !head.contains(0u8) && (valid_utf8(head) || (head.len() > 4 && valid_utf8(head.take(head.len() - 4))))
}

proof fn lemma_counts_as_text(data: Seq<u8>, size: u64)
    ensures
        head_of(data, size) == first_bytes(data, size),
        counts_as_text(data, size) <==> yaml_marked(head_of(data, size)) || text_like(head_of(data, size)),
{
    let head = head_of(data, size);
    let mark = seq![0x25u8, 0x59u8, 0x41u8, 0x4du8, 0x4cu8];
    if yaml_marked(head) {
        assert(head.take(5) =~= mark);
    }
    if head.len() >= 5 && head.take(5) == mark {
        assert(head[0] == mark[0] && head[1] == mark[1] && head[2] == mark[2] && head[3] == mark[3] && head[4]
            == mark[4]) by {
            assert(head.take(5)[0] == head[0] && head.take(5)[1] == head[1] && head.take(5)[2] == head[2] && head.take(
                5,
            )[3] == head[3] && head.take(5)[4] == head[4]);
        }
    }
}

/// Text is searched for references to its end, however long it is, up to the limit of the scan; beyond
/// it the first bytes alone are searched, and that is noted. What is not text is not searched.
pub proof fn text_is_searched_to_its_end(e: EntryView, data: Seq<u8>, size: u64, max_scan: u64)
    ensures
        size != 0 && counts_as_text(data, size) && size <= max_scan ==> {
            &&& scanned(e, data, size, max_scan).refs == e.refs.union(guids_in(data))
            &&& scanned(e, data, size, max_scan).is_text
            &&& scanned(e, data, size, max_scan).scan_truncated == e.scan_truncated
        },
        size != 0 && counts_as_text(data, size) && size > max_scan ==> {
            &&& scanned(e, data, size, max_scan).refs == e.refs.union(guids_in(first_bytes(data, size)))
            &&& scanned(e, data, size, max_scan).is_text
            &&& scanned(e, data, size, max_scan).scan_truncated
        },
        size == 0 || !counts_as_text(data, size) ==> {
            &&& scanned(e, data, size, max_scan).refs == e.refs
            &&& scanned(e, data, size, max_scan).is_text == e.is_text
            &&& scanned(e, data, size, max_scan).scan_truncated == e.scan_truncated
        },
        scanned(e, data, size, max_scan).has_asset,
        scanned(e, data, size, max_scan).asset_size == size,
        scanned(e, data, size, max_scan).guid == e.guid,
        scanned(e, data, size, max_scan).path == e.path,
        scanned(e, data, size, max_scan).labels == e.labels,
        scanned(e, data, size, max_scan).is_folder == e.is_folder,
        scanned(e, data, size, max_scan).importer == e.importer,
{
    lemma_counts_as_text(data, size);
}

/// The import settings of an asset are searched for references too; they tell its importer, whether it
/// is a folder, and its labels. What was known of the asset stays.
pub proof fn import_settings_are_read(e: EntryView, text: Seq<char>)
    ensures
        ({
            let r = meta_parsed(e, text);
            let data = encode_utf8(text);
            &&& r.refs == e.refs.union(guids_in(data))
            &&& r.importer == first_text(group_spans(IMPORTER@, 1, data), data)
            &&& r.is_folder <==> e.is_folder || group_spans(FOLDER@, 0, data).len() > 0
            &&& r.labels == (match first_text(group_spans(LABELS@, 1, data), data) {
                Some(block) => labels_in(block),
                None => e.labels,
            })
            &&& r.guid == e.guid && r.path == e.path && r.asset_size == e.asset_size && r.has_asset == e.has_asset
                && r.is_text == e.is_text && r.has_preview == e.has_preview && r.preview == e.preview
        }),
{
}

/// The path of an asset is the first line of its `pathname`, without white space at its ends, and with
/// forward slashes.
pub proof fn paths_are_first_lines(data: Seq<u8>, line: Seq<char>, more: Seq<char>)
    requires
        valid_utf8(data),
        !line.contains('\n'),
        decode_utf8(data) == line || decode_utf8(data) == line + seq!['\n'] + more,
    ensures
        path_in(data).len() == trim(line).len(),
        forall|i: int|
            0 <= i < trim(line).len() ==> #[trigger] path_in(data)[i] == (if trim(line)[i] == '\\' {
                '/'
            } else {
                trim(line)[i]
            }),
{
    let t = decode_utf8(data);
    lemma_one_piece(line, '\n');
    if t != line {
        lemma_first_piece(line, more, '\n');
    }
    assert(pieces(t, Sep::Is('\n'))[0] == line);
}

proof fn lemma_one_piece(s: Seq<char>, c: char)
    requires
        !s.contains(c),
    ensures
        pieces(s, Sep::Is(c)) == seq![s],
    decreases s.len(),
{
    if s.len() > 0 {
        let rest = s.drop_last();
        assert(s[s.len() - 1] == s.last());
        assert(s.contains(s.last()));
        assert(!rest.contains(c)) by {
            if rest.contains(c) {
                let k = choose|k: int| 0 <= k < rest.len() && rest[k] == c;
                assert(s[k] == c);
            }
        }
        lemma_one_piece(rest, c);
        assert(rest.push(s.last()) =~= s);
        assert(pieces(s, Sep::Is(c)) =~= seq![s]);
    } else {
        assert(s =~= Seq::<char>::empty());
        assert(pieces(s, Sep::Is(c)) =~= seq![s]);
    }
}

proof fn lemma_first_piece(line: Seq<char>, more: Seq<char>, c: char)
    requires
        !line.contains(c),
    ensures
        pieces(line + seq![c] + more, Sep::Is(c)).len() >= 2,
        pieces(line + seq![c] + more, Sep::Is(c))[0] == line,
    decreases more.len(),
{
    let t = line + seq![c] + more;
    if more.len() == 0 {
        assert(t.drop_last() =~= line);
        lemma_one_piece(line, c);
        assert(t.last() == c);
    } else {
        assert(t.drop_last() =~= line + seq![c] + more.drop_last());
        lemma_first_piece(line, more.drop_last(), c);
    }
}

// ----- the entries of a package --------------------------------------------------------------

proof fn lemma_absorbed_keeps(e: EntryView, leaf: Seq<char>, m: TarMemberView, opts: ScanOptions)
    ensures
        absorbed(e, leaf, m, opts).guid == e.guid,
        forall|x: Seq<char>| #[trigger] e.refs.contains(x) ==> absorbed(e, leaf, m, opts).refs.contains(x),
        leaf != "pathname"@ ==> absorbed(e, leaf, m, opts).path == e.path,
        leaf != "asset"@ ==> absorbed(e, leaf, m, opts).asset_size == e.asset_size,
        e.has_asset ==> absorbed(e, leaf, m, opts).has_asset,
        e.is_text ==> absorbed(e, leaf, m, opts).is_text,
        leaf != "asset.meta"@ ==> absorbed(e, leaf, m, opts).importer == e.importer && absorbed(
            e,
            leaf,
            m,
            opts,
        ).labels == e.labels && absorbed(e, leaf, m, opts).meta_size == e.meta_size,
        e.is_folder ==> absorbed(e, leaf, m, opts).is_folder,
        e.has_preview ==> absorbed(e, leaf, m, opts).has_preview,
        leaf != "preview.png"@ ==> absorbed(e, leaf, m, opts).preview == e.preview,
{
    reveal_strlit("pathname");
    reveal_strlit("asset.meta");
    reveal_strlit("asset");
    reveal_strlit("preview.png");
}

/// What holds of the entry that is being read still holds of it when it is complete.
proof fn lemma_carried(
    ms: Seq<TarMemberView>,
    opts: ScanOptions,
    i: int,
    n: int,
    g: Seq<char>,
    prop: spec_fn(EntryView) -> bool,
)
    requires
        0 <= i < n <= ms.len(),
        scan_all(ms.take(i + 1), opts).cur matches Some(e) && e.guid == g && prop(e),
        forall|e: EntryView| #[trigger] prop(e) ==> prop(finished(e)),
        forall|e: EntryView, l: Seq<char>, j: int|
            i < j < n && e.guid == g && #[trigger] prop(e) && member_parts((#[trigger] ms[j]).name) == Some(
                (g, Some(l)),
            ) && ms[j].is_file ==> prop(#[trigger] absorbed(e, l, ms[j], opts)),
    ensures
        ({
            let st = scan_all(ms.take(n), opts);
            ||| st.cur matches Some(e) && e.guid == g && prop(e)
            ||| exists|k: int| 0 <= k < st.done.len() && (#[trigger] st.done[k]).guid == g && prop(st.done[k])
        }),
    decreases n - i,
{
    if n > i + 1 {
        lemma_carried(ms, opts, i, n - 1, g, prop);
        let t = ms.take(n);
        let j = n - 1;
        assert(t.drop_last() =~= ms.take(n - 1));
        assert(t.last() == ms[j]);
        let before = scan_all(ms.take(n - 1), opts);
        let st = scan_all(t, opts);
        if exists|k: int| 0 <= k < before.done.len() && (#[trigger] before.done[k]).guid == g && prop(before.done[k]) {
            let k = choose|k: int|
                0 <= k < before.done.len() && (#[trigger] before.done[k]).guid == g && prop(before.done[k]);
            assert(st.done[k] == before.done[k]);
        } else {
            let e = before.cur->0;
            match member_parts(ms[j].name) {
                None => {},
                Some((guid, leaf)) => {
                    if guid == g {
                        if let Some(l) = leaf {
                            lemma_absorbed_keeps(e, l, ms[j], opts);
                        }
                    } else {
                        assert(prop(finished(e)));
                        assert(st.done[before.done.len() as int] == finished(e));
                    }
                },
            }
        }
    }
}

proof fn lemma_in_the_end(
    ms: Seq<TarMemberView>,
    opts: ScanOptions,
    i: int,
    g: Seq<char>,
    prop: spec_fn(EntryView) -> bool,
) -> (k: int)
    requires
        0 <= i < ms.len(),
        scan_all(ms.take(i + 1), opts).cur matches Some(e) && e.guid == g && prop(e),
        forall|e: EntryView| #[trigger] prop(e) ==> prop(finished(e)),
        forall|e: EntryView, l: Seq<char>, j: int|
            i < j < ms.len() && e.guid == g && #[trigger] prop(e) && member_parts((#[trigger] ms[j]).name) == Some(
                (g, Some(l)),
            ) && ms[j].is_file ==> prop(#[trigger] absorbed(e, l, ms[j], opts)),
    ensures
        0 <= k < entries_of(ms, opts).len(),
        entries_of(ms, opts)[k].guid == g,
        prop(entries_of(ms, opts)[k]),
{
    lemma_carried(ms, opts, i, ms.len() as int, g, prop);
    assert(ms.take(ms.len() as int) =~= ms);
    let st = scan_all(ms, opts);
    let es = entries_of(ms, opts);
    if exists|k: int| 0 <= k < st.done.len() && (#[trigger] st.done[k]).guid == g && prop(st.done[k]) {
        let k = choose|k: int| 0 <= k < st.done.len() && (#[trigger] st.done[k]).guid == g && prop(st.done[k]);
        assert(es[k] == st.done[k]);
        k
    } else {
        let e = st.cur->0;
        assert(prop(finished(e)));
        es.len() - 1
    }
}

/// Whether a member is a file of a guid directory.
pub open spec fn is_leaf(m: TarMemberView, g: Seq<char>, leaf: Seq<char>) -> bool {
    m.is_file && member_parts(m.name) == Some((g, Some(leaf)))
}

/// Whether no member behind `i` is such a file.
pub open spec fn is_last_leaf(ms: Seq<TarMemberView>, i: int, g: Seq<char>, leaf: Seq<char>) -> bool {
    is_leaf(ms[i], g, leaf) && forall|j: int| i < j < ms.len() ==> !is_leaf(#[trigger] ms[j], g, leaf)
}

proof fn lemma_fed(ms: Seq<TarMemberView>, opts: ScanOptions, i: int, g: Seq<char>, leaf: Seq<char>) -> (e: EntryView)
    requires
        0 <= i < ms.len(),
        is_leaf(ms[i], g, leaf),
    ensures
        e.guid == g,
        scan_all(ms.take(i + 1), opts).cur == Some(absorbed(e, leaf, ms[i], opts)),
{
    let t = ms.take(i + 1);
    assert(t.last() == ms[i]);
    let st = scan_all(t.drop_last(), opts);
    entered(st, g).cur->0
}

/// Every reference in the text of an asset is among the references of its entry, but for those to
/// itself and to built-in resources, as long as the asset is within the limit of the scan; the entry
/// tells that there is an asset, and that it is text.
pub proof fn entries_refer_to_all_that_assets_name(
    ms: Seq<TarMemberView>,
    opts: ScanOptions,
    i: int,
    g: Seq<char>,
) -> (k: int)
    requires
        0 <= i < ms.len(),
        is_leaf(ms[i], g, "asset"@),
        ms[i].size != 0,
        ms[i].size <= opts.max_scan,
        counts_as_text(ms[i].data, ms[i].size),
    ensures
        0 <= k < entries_of(ms, opts).len(),
        entries_of(ms, opts)[k].guid == g,
        entries_of(ms, opts)[k].has_asset,
        entries_of(ms, opts)[k].is_text,
        forall|x: Seq<char>| #[trigger]
            guids_in(ms[i].data).contains(x) && x != g && !builtin_guid(x) ==> entries_of(ms, opts)[k].refs.contains(x),
{
    reveal_strlit("pathname");
    reveal_strlit("asset.meta");
    reveal_strlit("asset");
    let named = guids_in(ms[i].data);
    let prop = |e: EntryView|
        e.has_asset && e.is_text && e.guid == g && forall|x: Seq<char>| #[trigger]
            named.contains(x) && x != g && !builtin_guid(x) ==> e.refs.contains(x);
    let e = lemma_fed(ms, opts, i, g, "asset"@);
    assert("asset"@.len() == 5 && "pathname"@.len() == 8 && "asset.meta"@.len() == 10);
    text_is_searched_to_its_end(e, ms[i].data, ms[i].size, opts.max_scan);
    assert(prop(absorbed(e, "asset"@, ms[i], opts)));
    assert forall|e: EntryView, l: Seq<char>, j: int|
        i < j < ms.len() && e.guid == g && #[trigger] prop(e) && member_parts((#[trigger] ms[j]).name) == Some(
            (g, Some(l)),
        ) && ms[j].is_file implies prop(#[trigger] absorbed(e, l, ms[j], opts)) by {
        lemma_absorbed_keeps(e, l, ms[j], opts);
    }
    assert forall|e: EntryView| #[trigger] prop(e) implies prop(finished(e)) by {}
    lemma_in_the_end(ms, opts, i, g, prop)
}

/// Every reference in the import settings of an asset is among the references of its entry, but for
/// those to itself and to built-in resources.
pub proof fn entries_refer_to_all_that_settings_name(
    ms: Seq<TarMemberView>,
    opts: ScanOptions,
    i: int,
    g: Seq<char>,
) -> (k: int)
    requires
        0 <= i < ms.len(),
        is_leaf(ms[i], g, "asset.meta"@),
    ensures
        0 <= k < entries_of(ms, opts).len(),
        entries_of(ms, opts)[k].guid == g,
        forall|x: Seq<char>| #[trigger]
            guids_in(encode_utf8(lossy_of(ms[i].data))).contains(x) && x != g && !builtin_guid(x) ==> entries_of(
                ms,
                opts,
            )[k].refs.contains(x),
        group_spans(FOLDER@, 0, encode_utf8(lossy_of(ms[i].data))).len() > 0 ==> entries_of(ms, opts)[k].is_folder,
        is_last_leaf(ms, i, g, "asset.meta"@) ==> entries_of(ms, opts)[k].importer == first_text(
            group_spans(IMPORTER@, 1, encode_utf8(lossy_of(ms[i].data))),
            encode_utf8(lossy_of(ms[i].data)),
        ) && entries_of(ms, opts)[k].meta_size == ms[i].size,
{
    reveal_strlit("pathname");
    reveal_strlit("asset.meta");
    let data = encode_utf8(lossy_of(ms[i].data));
    let named = guids_in(data);
    let folder = group_spans(FOLDER@, 0, data).len() > 0;
    let last = is_last_leaf(ms, i, g, "asset.meta"@);
    let importer = first_text(group_spans(IMPORTER@, 1, data), data);
    let size = ms[i].size;
    let prop = |e: EntryView|
        e.guid == g && (folder ==> e.is_folder) && (last ==> e.importer == importer && e.meta_size == size) && forall|
            x: Seq<char>,
        | #[trigger]
            named.contains(x) && x != g && !builtin_guid(x) ==> e.refs.contains(x);
    let e = lemma_fed(ms, opts, i, g, "asset.meta"@);
    assert("pathname"@.len() == 8 && "asset.meta"@.len() == 10);
    assert(prop(absorbed(e, "asset.meta"@, ms[i], opts)));
    assert forall|e: EntryView, l: Seq<char>, j: int|
        i < j < ms.len() && e.guid == g && #[trigger] prop(e) && member_parts((#[trigger] ms[j]).name) == Some(
            (g, Some(l)),
        ) && ms[j].is_file implies prop(#[trigger] absorbed(e, l, ms[j], opts)) by {
        lemma_absorbed_keeps(e, l, ms[j], opts);
        if last {
            assert(!is_leaf(ms[j], g, "asset.meta"@));
        }
    }
    assert forall|e: EntryView| #[trigger] prop(e) implies prop(finished(e)) by {}
    lemma_in_the_end(ms, opts, i, g, prop)
}

/// The entry of a directory has the path that the `pathname` in it states.
pub proof fn entries_have_their_path(ms: Seq<TarMemberView>, opts: ScanOptions, i: int, g: Seq<char>) -> (k: int)
    requires
        0 <= i < ms.len(),
        is_last_leaf(ms, i, g, "pathname"@),
    ensures
        0 <= k < entries_of(ms, opts).len(),
        entries_of(ms, opts)[k].guid == g,
        entries_of(ms, opts)[k].path == path_in(ms[i].data),
{
    let path = path_in(ms[i].data);
    let prop = |e: EntryView| e.guid == g && e.path == path;
    let e = lemma_fed(ms, opts, i, g, "pathname"@);
    assert(prop(absorbed(e, "pathname"@, ms[i], opts)));
    assert forall|e: EntryView, l: Seq<char>, j: int|
        i < j < ms.len() && e.guid == g && #[trigger] prop(e) && member_parts((#[trigger] ms[j]).name) == Some(
            (g, Some(l)),
        ) && ms[j].is_file implies prop(#[trigger] absorbed(e, l, ms[j], opts)) by {
        lemma_absorbed_keeps(e, l, ms[j], opts);
        assert(!is_leaf(ms[j], g, "pathname"@));
    }
    assert forall|e: EntryView| #[trigger] prop(e) implies prop(finished(e)) by {}
    lemma_in_the_end(ms, opts, i, g, prop)
}

/// The entry of a directory has the size of the asset in it.
pub proof fn entries_have_their_size(ms: Seq<TarMemberView>, opts: ScanOptions, i: int, g: Seq<char>) -> (k: int)
    requires
        0 <= i < ms.len(),
        is_last_leaf(ms, i, g, "asset"@),
    ensures
        0 <= k < entries_of(ms, opts).len(),
        entries_of(ms, opts)[k].guid == g,
        entries_of(ms, opts)[k].has_asset,
        entries_of(ms, opts)[k].asset_size == ms[i].size,
{
    reveal_strlit("pathname");
    reveal_strlit("asset.meta");
    reveal_strlit("asset");
    let size = ms[i].size;
    let prop = |e: EntryView| e.guid == g && e.has_asset && e.asset_size == size;
    let e = lemma_fed(ms, opts, i, g, "asset"@);
    assert("asset"@.len() == 5 && "pathname"@.len() == 8 && "asset.meta"@.len() == 10);
    text_is_searched_to_its_end(e, ms[i].data, ms[i].size, opts.max_scan);
    assert(prop(absorbed(e, "asset"@, ms[i], opts)));
    assert forall|e: EntryView, l: Seq<char>, j: int|
        i < j < ms.len() && e.guid == g && #[trigger] prop(e) && member_parts((#[trigger] ms[j]).name) == Some(
            (g, Some(l)),
        ) && ms[j].is_file implies prop(#[trigger] absorbed(e, l, ms[j], opts)) by {
        lemma_absorbed_keeps(e, l, ms[j], opts);
        assert(!is_leaf(ms[j], g, "asset"@));
    }
    assert forall|e: EntryView| #[trigger] prop(e) implies prop(finished(e)) by {}
    lemma_in_the_end(ms, opts, i, g, prop)
}

/// The entry of a directory tells that there is a preview in it, and holds it where previews are kept.
pub proof fn entries_have_their_preview(ms: Seq<TarMemberView>, opts: ScanOptions, i: int, g: Seq<char>) -> (k: int)
    requires
        0 <= i < ms.len(),
        is_last_leaf(ms, i, g, "preview.png"@),
    ensures
        0 <= k < entries_of(ms, opts).len(),
        entries_of(ms, opts)[k].guid == g,
        entries_of(ms, opts)[k].has_preview,
        opts.keep_previews ==> entries_of(ms, opts)[k].preview == Some(ms[i].data),
{
    reveal_strlit("pathname");
    reveal_strlit("asset.meta");
    reveal_strlit("asset");
    reveal_strlit("preview.png");
    let data = ms[i].data;
    let prop = |e: EntryView| e.guid == g && e.has_preview && (opts.keep_previews ==> e.preview == Some(data));
    let e = lemma_fed(ms, opts, i, g, "preview.png"@);
    assert("asset"@.len() == 5 && "pathname"@.len() == 8 && "asset.meta"@.len() == 10 && "preview.png"@.len() == 11);
    assert(prop(absorbed(e, "preview.png"@, ms[i], opts)));
    assert forall|e: EntryView, l: Seq<char>, j: int|
        i < j < ms.len() && e.guid == g && #[trigger] prop(e) && member_parts((#[trigger] ms[j]).name) == Some(
            (g, Some(l)),
        ) && ms[j].is_file implies prop(#[trigger] absorbed(e, l, ms[j], opts)) by {
        lemma_absorbed_keeps(e, l, ms[j], opts);
        assert(!is_leaf(ms[j], g, "preview.png"@));
    }
    assert forall|e: EntryView| #[trigger] prop(e) implies prop(finished(e)) by {}
    lemma_in_the_end(ms, opts, i, g, prop)
}

// ----- nothing more --------------------------------------------------------------------------

/// Whether a reference stands in the text of an asset or of import settings in the directory of `g`.
pub open spec fn named_in(ms: Seq<TarMemberView>, g: Seq<char>, x: Seq<char>) -> bool {
    exists|i: int|
        0 <= i < ms.len() && dir_of(#[trigger] ms[i]) == Some(g) && (guids_in(ms[i].data).contains(x) || guids_in(
            first_bytes(ms[i].data, ms[i].size),
        ).contains(x) || guids_in(encode_utf8(lossy_of(ms[i].data))).contains(x))
}

proof fn lemma_named_grows(ms: Seq<TarMemberView>, m: TarMemberView, g: Seq<char>, x: Seq<char>)
    requires
        named_in(ms, g, x),
    ensures
        named_in(ms.push(m), g, x),
{
    let i = choose|i: int|
        0 <= i < ms.len() && dir_of(#[trigger] ms[i]) == Some(g) && (guids_in(ms[i].data).contains(x) || guids_in(
            first_bytes(ms[i].data, ms[i].size),
        ).contains(x) || guids_in(encode_utf8(lossy_of(ms[i].data))).contains(x));
    assert(ms.push(m)[i] == ms[i]);
}

spec fn accounted(ms: Seq<TarMemberView>, st: ScanView) -> bool {
    &&& forall|k: int, x: Seq<char>|
        0 <= k < st.done.len() && #[trigger] st.done[k].refs.contains(x) ==> named_in(ms, st.done[k].guid, x)
    &&& st.cur matches Some(e) ==> forall|x: Seq<char>| #[trigger] e.refs.contains(x) ==> named_in(ms, e.guid, x)
}

proof fn lemma_accounted(ms: Seq<TarMemberView>, opts: ScanOptions)
    ensures
        accounted(ms, scan_all(ms, opts)),
    decreases ms.len(),
{
    if ms.len() > 0 {
        let rest = ms.drop_last();
        let m = ms.last();
        lemma_accounted(rest, opts);
        assert(rest.push(m) =~= ms);
        let before = scan_all(rest, opts);
        let st = scan_all(ms, opts);
        assert forall|g: Seq<char>, x: Seq<char>| #[trigger] named_in(rest, g, x) implies named_in(ms, g, x) by {
            lemma_named_grows(rest, m, g, x);
        }
        match member_parts(m.name) {
            None => {
                assert(st == before);
            },
            Some((guid, leaf)) => {
                let mid = entered(before, guid);
                assert forall|k: int, x: Seq<char>|
                    0 <= k < mid.done.len() && #[trigger] mid.done[k].refs.contains(x) implies named_in(
                    ms,
                    mid.done[k].guid,
                    x,
                ) by {
                    if k < before.done.len() {
                        assert(mid.done[k] == before.done[k]);
                        assert(before.done[k].refs.contains(x));
                    } else {
                        let e = before.cur->0;
                        assert(e.refs.contains(x));
                        assert(named_in(rest, e.guid, x));
                    }
                }
                let e = mid.cur->0;
                assert forall|x: Seq<char>| #[trigger] e.refs.contains(x) implies named_in(ms, e.guid, x) by {
                    assert(before.cur is Some && before.cur->0 == e);
                    assert(named_in(rest, e.guid, x));
                }
                if leaf is Some && m.is_file {
                    let l = leaf->0;
                    let f = absorbed(e, l, m, opts);
                    text_is_searched_to_its_end(e, m.data, m.size, opts.max_scan);
                    assert(ms[ms.len() - 1] == m);
                    assert(dir_of(m) == Some(guid));
                    assert forall|x: Seq<char>| #[trigger] f.refs.contains(x) implies named_in(ms, f.guid, x) by {
                        lemma_absorbed_keeps(e, l, m, opts);
                        assert(f.guid == guid);
                        assert(dir_of(ms[ms.len() - 1]) == Some(guid));
                        if e.refs.contains(x) {
                            assert(named_in(ms, e.guid, x));
                        } else {
                            assert(guids_in(ms[ms.len() - 1].data).contains(x) || guids_in(
                                first_bytes(ms[ms.len() - 1].data, ms[ms.len() - 1].size),
                            ).contains(x) || guids_in(encode_utf8(lossy_of(ms[ms.len() - 1].data))).contains(x));
                        }
                    }
                }
            },
        }
    }
}

/// An entry refers to nothing that does not stand in a file of its directory.
pub proof fn entries_refer_to_nothing_else(ms: Seq<TarMemberView>, opts: ScanOptions, k: int, x: Seq<char>)
    requires
        0 <= k < entries_of(ms, opts).len(),
        entries_of(ms, opts)[k].refs.contains(x),
    ensures
        named_in(ms, entries_of(ms, opts)[k].guid, x),
{
    lemma_accounted(ms, opts);
    let st = scan_all(ms, opts);
    let es = entries_of(ms, opts);
    if k < st.done.len() {
        assert(es[k] == st.done[k]);
        assert(st.done[k].refs.contains(x));
    } else {
        assert(st.cur->0.refs.contains(x));
    }
}

spec fn left_behind(ms: Seq<TarMemberView>, g: Seq<char>) -> bool {
    exists|i: int, j: int|
        0 <= i < j < ms.len() && #[trigger] dir_of(ms[i]) == Some(g) && (#[trigger] dir_of(ms[j])) is Some && dir_of(
            ms[j],
        ) != Some(g)
}

spec fn in_turn(ms: Seq<TarMemberView>, st: ScanView) -> bool {
    &&& forall|k: int| 0 <= k < st.done.len() ==> left_behind(ms, (#[trigger] st.done[k]).guid)
    &&& forall|k: int, h: int|
        0 <= k < h < st.done.len() ==> (#[trigger] st.done[k]).guid != (#[trigger] st.done[h]).guid
    &&& st.cur matches Some(e) ==> {
        &&& exists|i: int| 0 <= i < ms.len() && #[trigger] dir_of(ms[i]) == Some(e.guid)
        &&& forall|k: int| 0 <= k < st.done.len() ==> (#[trigger] st.done[k]).guid != e.guid
    }
}

proof fn lemma_in_turn(ms: Seq<TarMemberView>, opts: ScanOptions, n: int)
    requires
        grouped(ms),
        0 <= n <= ms.len(),
    ensures
        in_turn(ms.take(n), scan_all(ms.take(n), opts)),
    decreases n,
{
    if n > 0 {
        lemma_in_turn(ms, opts, n - 1);
        let t = ms.take(n);
        let rest = ms.take(n - 1);
        let m = ms[n - 1];
        assert(t.drop_last() =~= rest);
        assert(t.last() == m);
        let before = scan_all(rest, opts);
        let st = scan_all(t, opts);
        assert forall|g: Seq<char>| #[trigger] left_behind(rest, g) implies left_behind(t, g) by {
            let (i, j) = choose|i: int, j: int|
                0 <= i < j < rest.len() && #[trigger] dir_of(rest[i]) == Some(g) && (#[trigger] dir_of(rest[j])) is Some
                    && dir_of(rest[j]) != Some(g);
            assert(t[i] == rest[i] && t[j] == rest[j]);
            assert(dir_of(t[i]) == Some(g) && dir_of(t[j]) is Some);
        }
        if before.cur is Some {
            let e = before.cur->0;
            let i = choose|i: int| 0 <= i < rest.len() && #[trigger] dir_of(rest[i]) == Some(e.guid);
            assert(t[i] == rest[i]);
            assert(dir_of(t[i]) == Some(e.guid));
        }
        match member_parts(m.name) {
            None => {},
            Some((guid, leaf)) => {
                assert(dir_of(t[n - 1]) == Some(guid));
                let mid = entered(before, guid);
                if before.cur is Some && before.cur->0.guid != guid {
                    let e = before.cur->0;
                    let i = choose|i: int| 0 <= i < rest.len() && #[trigger] dir_of(rest[i]) == Some(e.guid);
                    assert(dir_of(t[i]) == Some(e.guid) && dir_of(t[n - 1]) is Some);
                    assert(left_behind(t, e.guid));
                    assert(finished(e).guid == e.guid);
                }
                assert forall|k: int| 0 <= k < before.done.len() implies (#[trigger] before.done[k]).guid != guid by {
                    if before.done[k].guid == guid {
                        let (i, j) = choose|i: int, j: int|
                            0 <= i < j < rest.len() && #[trigger] dir_of(rest[i]) == Some(guid) && (#[trigger] dir_of(
                                rest[j],
                            )) is Some && dir_of(rest[j]) != Some(guid);
                        assert(ms[i] == rest[i] && ms[j] == rest[j]);
                        assert(dir_of(ms[i]) == dir_of(ms[n - 1]));
                        assert(dir_of(ms[j]) == dir_of(ms[i]));
                    }
                }
                let e = mid.cur->0;
                assert(e.guid == guid);
                if let Some(l) = leaf {
                    lemma_absorbed_keeps(e, l, m, opts);
                }
                assert(st.cur->0.guid == guid);
                assert(st.done == mid.done);
            },
        }
    }
}

/// A package whose directories each stand together has one entry for each of them.
pub proof fn directories_have_one_entry(ms: Seq<TarMemberView>, opts: ScanOptions, k: int, h: int)
    requires
        grouped(ms),
        0 <= k < h < entries_of(ms, opts).len(),
    ensures
        entries_of(ms, opts)[k].guid != entries_of(ms, opts)[h].guid,
{
    lemma_in_turn(ms, opts, ms.len() as int);
    assert(ms.take(ms.len() as int) =~= ms);
    let st = scan_all(ms, opts);
    let es = entries_of(ms, opts);
    assert(es[k] == st.done[k]);
    if h < st.done.len() {
        assert(es[h] == st.done[h]);
    }
}

/// The first bytes of an asset decide whether all of it is read: exactly where they are those of text and
/// the asset is no larger than the limit. Where it is larger what they refer to is noted, and no more.
pub proof fn heads_decide_what_is_read(
    e: EntryView,
    head: Seq<u8>,
    size: u64,
    max_scan: u64,
    class_id: Seq<Option<(usize, usize)>>,
)
    ensures
        ({
            let yaml = head.len() >= 5 && head.take(5) == seq![0x25u8, 0x59u8, 0x41u8, 0x4du8, 0x4cu8];
            let text = yaml || (!head.contains(0u8) && (valid_utf8(head) || (head.len() > 4 && valid_utf8(
                head.take(head.len() - 4),
            ))));
            let f = with_head(e, head, size, max_scan, class_id);
            &&& wants_body(head, size, max_scan) <==> size > 0 && text && size <= max_scan
            &&& size > 0 && text ==> f.is_text && (f.scan_truncated <==> e.scan_truncated || size > max_scan)
            &&& size > 0 && text && size > max_scan ==> f.refs == e.refs.union(guids_in(head))
            &&& !(size > 0 && text && size > max_scan) ==> f.refs == e.refs
            &&& !(size > 0 && text) ==> f == e
            &&& size > 0 && yaml ==> f.is_yaml
        }),
{
    let mark = seq![0x25u8, 0x59u8, 0x41u8, 0x4du8, 0x4cu8];
    if yaml_marked(head) {
        assert(head.take(5) =~= mark);
    }
    if head.len() >= 5 && head.take(5) == mark {
        assert(head.take(5)[0] == head[0] && head.take(5)[1] == head[1] && head.take(5)[2] == head[2] && head.take(
            5,
        )[3] == head[3] && head.take(5)[4] == head[4]);
    }
}

/// The header of a package is the first of its fields that is a JSON object: fields before it that are
/// none do not matter, and what is behind it does not either.
pub proof fn headers_are_the_first_object(fields: Seq<Seq<u8>>, k: int)
    requires
        0 <= k < fields.len(),
        forall|j: int|
            0 <= j < k ==> json_object_of(#[trigger] fields[j]) is None && json_object_of(
                encode_utf8(lossy_of(fields[j])),
            ) is None,
    ensures
        json_object_of(fields[k]) matches Some(json) ==> (header_in(fields) matches Some(h) && h.json == json && h.title
            == json_string_of(fields[k], "/title"@) && h.version == json_string_of(fields[k], "/version"@)
            && h.unity_version == json_string_of(fields[k], "/unity_version"@) && h.pubdate == json_string_of(
            fields[k],
            "/pubdate"@,
        ) && h.description == json_string_of(fields[k], "/description"@) && h.publisher == json_string_of(
            fields[k],
            "/publisher/label"@,
        ) && h.category == json_string_of(fields[k], "/category/label"@)),
    decreases k,
{
    if k > 0 {
        let rest = fields.drop_first();
        assert(rest[k - 1] == fields[k]);
        assert forall|j: int| 0 <= j < k - 1 implies json_object_of(#[trigger] rest[j]) is None && json_object_of(
            encode_utf8(lossy_of(rest[j])),
        ) is None by {
            assert(rest[j] == fields[j + 1]);
        }
        assert(fields[0] == fields.first());
        headers_are_the_first_object(rest, k - 1);
    }
}

// ----- references, labels and members --------------------------------------------------------

proof fn lemma_first_byte(c: char)
    ensures
        encode_utf8(seq![c]).len() > 0,
        (c as u32) < 0x80 ==> encode_utf8(seq![c]).len() == 1 && encode_utf8(seq![c])[0] as u32 == c as u32,
        (c as u32) >= 0x80 ==> encode_utf8(seq![c])[0] >= 0xc0,
{
    let u = c as u32;
    reveal_with_fuel(encode_utf8, 2);
    assert(seq![c].drop_first() =~= Seq::<char>::empty());
    assert(encode_utf8(seq![c]) =~= encode_scalar(u));
    assert(u < 0x80 ==> leading_byte_width_1(u) as u32 == u) by (bit_vector);
    assert(leading_byte_width_2(u) >= 0xc0) by (bit_vector);
    assert(leading_byte_width_3(u) >= 0xc0) by (bit_vector);
    assert(leading_byte_width_4(u) >= 0xc0) by (bit_vector);
}

proof fn lemma_no_space(data: Seq<u8>, i: int)
    requires
        0 <= i < data.len(),
        data[i] < 0x80,
        !is_space(data[i] as char),
    ensures
        spaces_end(data, i) == i,
{
    assert forall|n: int| !space_at(data, i, n) by {
        if space_at(data, i, n) {
            let c = choose|c: char| is_space(c) && #[trigger] encode_utf8(seq![c]) == data.subrange(i, i + n);
            lemma_first_byte(c);
            assert(data.subrange(i, i + n)[0] == data[i]);
            assert((c as u32) < 0x80);
            assert(data[i] as char == c);
        }
    }
}

proof fn lemma_one_space(data: Seq<u8>, i: int)
    requires
        0 <= i && i + 1 < data.len(),
        data[i] == 0x20,
        data[i + 1] < 0x80,
        !is_space(data[i + 1] as char),
    ensures
        spaces_end(data, i) == i + 1,
{
    lemma_first_byte(' ');
    assert(data.subrange(i, i + 1) =~= encode_utf8(seq![' ']));
    assert(space_at(data, i, 1));
    lemma_no_space(data, i + 1);
}

/// `guid: ` and 32 hexadecimal digits refer to the guid that the digits are in lower case, and so do they
/// behind `guid":"`.
pub proof fn guids_behind_their_key_are_references(data: Seq<u8>, i: int)
    requires
        0 <= i && i + 6 <= data.len(),
        data[i] == 0x67 && data[i + 1] == 0x75 && data[i + 2] == 0x69 && data[i + 3] == 0x64,
    ensures
        data[i + 4] == 0x3a && data[i + 5] == 0x20 && i + 38 <= data.len() && (forall|k: int|
            i + 6 <= k < i + 38 ==> byte_is_hex(#[trigger] data[k])) ==> guids_in(data).contains(
            Seq::new(32, |k: int| lower_char(data[i + 6 + k] as char)),
        ),
        data[i + 4] == 0x22 && data[i + 5] == 0x3a && i + 39 <= data.len() && data[i + 6] == 0x22 && (forall|k: int|
            i + 7 <= k < i + 39 ==> byte_is_hex(#[trigger] data[k])) ==> guids_in(data).contains(
            Seq::new(32, |k: int| lower_char(data[i + 7 + k] as char)),
        ),
{
    reveal_with_fuel(quotes_end, 3);
    if data[i + 4] == 0x3a && data[i + 5] == 0x20 && i + 38 <= data.len() && (forall|k: int|
        i + 6 <= k < i + 38 ==> byte_is_hex(#[trigger] data[k])) {
        let h = i + 6;
        assert(byte_is_hex(data[h]));
        lemma_no_space(data, i + 4);
        lemma_one_space(data, i + 5);
        assert(digits_behind(data, i) == h);
        assert(names_guid(data, i));
        assert(guid_at(data, h));
        assert(guid_text(data.subrange(h, h + 32)) =~= Seq::new(
            32,
            |k: int| lower_char(data[i + 6 + k] as char),
        ));
    }
    if data[i + 4] == 0x22 && data[i + 5] == 0x3a && i + 39 <= data.len() && data[i + 6] == 0x22 && (forall|k: int|
        i + 7 <= k < i + 39 ==> byte_is_hex(#[trigger] data[k])) {
        let h = i + 7;
        assert(byte_is_hex(data[h]));
        lemma_no_space(data, i + 5);
        lemma_no_space(data, i + 6);
        assert(digits_behind(data, i) == h);
        assert(names_guid(data, i));
        assert(guid_at(data, h));
        assert(guid_text(data.subrange(h, h + 32)) =~= Seq::new(
            32,
            |k: int| lower_char(data[i + 7 + k] as char),
        ));
    }
}

/// All references count but those to the asset itself and those to what is built into Unity: 32 zeros, but
/// for the digit in the middle.
pub proof fn built_in_resources_do_not_count(refs: Set<Seq<char>>, own: Seq<char>, g: Seq<char>)
    ensures
        outward(refs, own).contains(g) <==> refs.contains(g) && g != own && !(g.len() == 32 && is_hex(g[16])
            && forall|i: int| 0 <= i < 32 && i != 16 ==> #[trigger] g[i] == '0'),
{
}

proof fn lemma_items(lines: Seq<Seq<char>>, x: Seq<char>)
    ensures
        items_of(lines).contains(x) <==> exists|i: int|
            0 <= i < lines.len() && starts(#[trigger] lines[i], "- "@) && trim(lines[i].skip(2)) == x,
    decreases lines.len(),
{
    reveal_strlit("- ");
    if lines.len() > 0 {
        let rest = lines.drop_last();
        let front = items_of(rest);
        let all = items_of(lines);
        lemma_items(rest, x);
        assert(lines[lines.len() - 1] == lines.last());
        if all.contains(x) {
            let k = choose|k: int| 0 <= k < all.len() && all[k] == x;
            if k < front.len() {
                assert(front[k] == x);
                let i = choose|i: int|
                    0 <= i < rest.len() && starts(#[trigger] rest[i], "- "@) && trim(rest[i].skip(2)) == x;
                assert(lines[i] == rest[i]);
            }
        }
        if exists|i: int| 0 <= i < lines.len() && starts(#[trigger] lines[i], "- "@) && trim(lines[i].skip(2)) == x {
            let i = choose|i: int|
                0 <= i < lines.len() && starts(#[trigger] lines[i], "- "@) && trim(lines[i].skip(2)) == x;
            if i < rest.len() {
                assert(rest[i] == lines[i]);
                let k = choose|k: int| 0 <= k < front.len() && front[k] == x;
                assert(all[k] == x);
            } else {
                assert(all[all.len() - 1] == x);
            }
        }
    }
}

/// The labels are what stands behind `- ` on each line, without white space at its ends, as far as
/// something stands there: all of it, and nothing else.
pub proof fn every_line_is_a_label(block: Seq<char>, label: Seq<char>)
    ensures
        labels_in(block).contains(label) <==> label.len() > 0 && exists|i: int|
            0 <= i < pieces(block, Sep::Is('\n')).len() && starts(#[trigger] pieces(block, Sep::Is('\n'))[i], "- "@)
                && trim(pieces(block, Sep::Is('\n'))[i].skip(2)) == label,
{
    let lines = pieces(block, Sep::Is('\n'));
    lemma_items(lines, label);
    crate::seqs::lemma_filter_has(items_of(lines), |p: Seq<char>| p.len() > 0, label);
}

} // verus!
