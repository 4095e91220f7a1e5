//! What requests to a server, calls of tools and their answers promise.

use vstd::prelude::*;

use crate::client::{or_empty, search_params, telling};
use crate::db::DbView;
use crate::mcp::{
    assets_text_json, call_of, field_text, files_only, list_text, listed_asset_json, listed_text_json, listing_json,
    object_text, package_summary_json, packages_text_json, ref_json, refs_text_json, slim_asset_json, text_or,
    user_asset_json, users_text_json, MessageView, ToolArgsView, ToolCallView,
};
use crate::model::{
    AssetInfoView, AssetView, ClosureOutView, ExportOutView, PackageListingView, PackageView, SearchQueryView,
};
use crate::number::numeral;
use crate::outside::json_text_of;
use crate::replies::{
    answer_of, asset_fields, asset_json, asset_list_json, closure_asset_json, closure_asset_list_json, conflict_json,
    conflict_list_json, deps_json, export_json, info_json, missing_json, missing_list_json, reply_json, result_json,
    texts_json, tool_result_json, unresolved_json, unresolved_list_json, written_json, written_list_json, AnswerView,
};
use crate::resolve::asset_named;
use crate::seqs::{lemma_filter_has, limited};
use crate::server::{full_ident, query_of, SearchParamsView};
use crate::text::{glue, occurs, occurs_at, trim};

verus! {

// ----- searches over the wire ----------------------------------------------------------------

proof fn lemma_telling(pairs: Seq<(Seq<char>, Seq<char>)>, x: (Seq<char>, Seq<char>))
    ensures
        telling(pairs).contains(x) <==> pairs.contains(x) && x.1.len() > 0,
    decreases pairs.len(),
{
    if pairs.len() > 0 {
        let rest = pairs.drop_last();
        let front = telling(rest);
        let all = telling(pairs);
        lemma_telling(rest, x);
        assert(pairs[pairs.len() - 1] == pairs.last());
        if all.contains(x) {
            let k = choose|k: int| 0 <= k < all.len() && all[k] == x;
            if k < front.len() {
                assert(front[k] == x);
                let i = choose|i: int| 0 <= i < rest.len() && rest[i] == x;
                assert(pairs[i] == x);
            }
        }
        if pairs.contains(x) && x.1.len() > 0 {
            let i = choose|i: int| 0 <= i < pairs.len() && pairs[i] == x;
            if i < rest.len() {
                assert(rest[i] == x);
                let k = choose|k: int| 0 <= k < front.len() && front[k] == x;
                assert(all[k] == x);
            } else {
                assert(all[all.len() - 1] == x);
            }
        }
    }
}

/// The parameters of a search tell its text, each of its filters, its limit and its offset.
pub proof fn searches_send_everything(q: SearchQueryView)
    ensures
        ({
            let p = search_params(q);
            &&& q.query.len() > 0 ==> p.contains(("q"@, q.query))
            &&& q.kind matches Some(s) ==> s.len() > 0 ==> p.contains(("kind"@, s))
            &&& q.package matches Some(s) ==> s.len() > 0 ==> p.contains(("package"@, s))
            &&& q.publisher matches Some(s) ==> s.len() > 0 ==> p.contains(("publisher"@, s))
            &&& q.ext matches Some(s) ==> s.len() > 0 ==> p.contains(("ext"@, s))
            &&& q.include_folders ==> p.contains(("folders"@, "1"@))
            &&& p.contains(("limit"@, numeral(q.limit as nat)))
            &&& q.offset > 0 ==> p.contains(("offset"@, numeral(q.offset as nat)))
        }),
{
    let pairs = seq![
        ("q"@, q.query),
        ("kind"@, or_empty(q.kind)),
        ("package"@, or_empty(q.package)),
        ("publisher"@, or_empty(q.publisher)),
        ("ext"@, or_empty(q.ext)),
        (
            "folders"@,
            if q.include_folders {
                "1"@
            } else {
                Seq::empty()
            },
        ),
        ("limit"@, numeral(q.limit as nat)),
        (
            "offset"@,
            if q.offset > 0 {
                numeral(q.offset as nat)
            } else {
                Seq::empty()
            },
        ),
    ];
    assert(search_params(q) == telling(pairs));
    reveal_strlit("1");
    assert forall|i: int| 0 <= i < pairs.len() && (#[trigger] pairs[i]).1.len() > 0 implies telling(pairs).contains(
        pairs[i],
    ) by {
        lemma_telling(pairs, pairs[i]);
        assert(pairs.contains(pairs[i]));
    }
    let t = telling(pairs);
    assert(numeral(q.limit as nat).len() > 0 && numeral(q.offset as nat).len() > 0);
    assert(pairs[0].1.len() > 0 ==> t.contains(pairs[0]));
    assert(pairs[1].1.len() > 0 ==> t.contains(pairs[1]));
    assert(pairs[2].1.len() > 0 ==> t.contains(pairs[2]));
    assert(pairs[3].1.len() > 0 ==> t.contains(pairs[3]));
    assert(pairs[4].1.len() > 0 ==> t.contains(pairs[4]));
    assert(pairs[5].1.len() > 0 ==> t.contains(pairs[5]));
    assert(pairs[6].1.len() > 0 ==> t.contains(pairs[6]));
    assert(pairs[7].1.len() > 0 ==> t.contains(pairs[7]));
}

/// Whether a filter says something where it is given.
pub open spec fn says_something(o: Option<Seq<char>>) -> bool {
    o matches Some(s) ==> s.len() > 0
}

/// A search reaches the server as it was asked, with every filter, where its limit is one that the server
/// takes; what is left out is left out there, and other limits go to the nearest one.
pub proof fn searches_survive_the_wire(q: SearchQueryView)
    requires
        says_something(q.kind),
        says_something(q.package),
        says_something(q.publisher),
        says_something(q.ext),
    ensures
        ({
            let got = query_of(
                SearchParamsView {
                    q: q.query,
                    kind: q.kind,
                    package: q.package,
                    publisher: q.publisher,
                    ext: q.ext,
                    folders: if q.include_folders {
                        Some("1"@)
                    } else {
                        None
                    },
                    limit: Some(q.limit),
                    offset: if q.offset > 0 {
                        Some(q.offset)
                    } else {
                        None
                    },
                },
            );
            &&& 1 <= got.limit <= 1000
            &&& 1 <= q.limit <= 1000 ==> got == q
            &&& got == SearchQueryView { limit: got.limit, ..q }
            &&& q.limit > 1000 ==> got.limit == 1000
        }),
{
}

/// A package beside an identifier may as well be sent in front of it: the server finds the same asset.
pub proof fn identifiers_survive_the_wire(db: DbView, ident: Seq<char>, package: Seq<char>)
    requires
        trim(package).len() > 0,
        forall|i: int| 0 <= i < package.len() ==> #[trigger] package[i] != ':',
        !occurs(ident, "::"@),
        trim(package + "::"@ + ident) == package + "::"@ + ident,
        trim(ident) == ident,
    ensures
        asset_named(db, full_ident(ident, Some(package)), None) == asset_named(db, ident, Some(package)),
        full_ident(ident, None) == ident,
{
    crate::resolve_laws::packages_stand_before_or_beside(db, package, ident);
}

// ----- calls ---------------------------------------------------------------------------------

/// The tools are called with what they were given: every argument that a tool takes reaches it, and what
/// is not given has its default.
pub proof fn calls_carry_their_arguments(a: ToolArgsView, user_home: Option<Seq<char>>)
    ensures
        call_of("list_packages"@, a, user_home) == Ok::<ToolCallView, crate::error::ErrorView>(
            ToolCallView::ListPackages,
        ),
        call_of("search_assets"@, a, user_home) matches Ok(ToolCallView::Search(q)) && q.query == text_or(a.query, ""@)
            && q.kind == a.kind && q.package == a.package && q.publisher == a.publisher && q.ext == a.ext
            && !q.include_folders && q.offset == 0 && (a.limit is None ==> q.limit == 30) && (a.limit matches Some(n)
            ==> n <= usize::MAX ==> q.limit == n),
        a.package matches Some(p) ==> (call_of("list_package_assets"@, a, user_home) matches Ok(
            ToolCallView::ListAssets { package, prefix, kind, limit },
        ) && package == p && prefix == a.path_prefix && kind == a.kind && (a.limit is None ==> limit == 500) && (
        a.limit matches Some(n) ==> n <= usize::MAX ==> limit == n)),
        a.package is None ==> call_of("list_package_assets"@, a, user_home) is Err,
        a.identifier matches Some(i) ==> (call_of("asset_info"@, a, user_home) matches Ok(
            ToolCallView::Info { ident, package },
        ) && ident == i && package == a.package),
        a.identifier is None ==> call_of("asset_info"@, a, user_home) is Err,
        a.identifiers.len() > 0 ==> (call_of("dependencies"@, a, user_home) matches Ok(
            ToolCallView::Deps { idents, scripts, max_depth },
        ) && idents == a.identifiers && scripts == (a.include_scripts != Some(false)) && (a.max_depth is None
            <==> max_depth is None) && (a.max_depth matches Some(d) ==> d <= u32::MAX ==> max_depth == Some(d as u32))),
        a.identifiers.len() == 0 ==> call_of("dependencies"@, a, user_home) is Err && call_of(
            "export_assets"@,
            a,
            user_home,
        ) is Err,
        call_of("export_assets"@, a, user_home) matches Ok(c) ==> (c matches ToolCallView::Export { req, dest, opts }
            && req.identifiers == a.identifiers && req.include_deps == (a.include_deps != Some(false))
            && req.include_scripts == (a.include_scripts != Some(false)) && req.include_folders && opts.force == (a.force
            == Some(true)) && opts.dry_run == (a.dry_run == Some(true)) && opts.conflict_check),
        a.identifier matches Some(i) ==> (call_of("read_text_asset"@, a, user_home) matches Ok(
            ToolCallView::ReadText { ident, max_bytes },
        ) && ident == i && (a.max_bytes is None ==> max_bytes == 200_000) && (a.max_bytes matches Some(n) ==> n
            <= usize::MAX ==> max_bytes == n)),
        a.identifier is None ==> call_of("read_text_asset"@, a, user_home) is Err,
{
    reveal_strlit("");
    reveal_strlit("list_packages");
    reveal_strlit("search_assets");
    reveal_strlit("list_package_assets");
    reveal_strlit("asset_info");
    reveal_strlit("dependencies");
    reveal_strlit("export_assets");
    reveal_strlit("read_text_asset");
    assert("list_packages"@.len() == 13 && "list_packages"@[0] == 'l');
    assert("search_assets"@.len() == 13 && "search_assets"@[0] == 's');
    assert("list_package_assets"@.len() == 19);
    assert("asset_info"@.len() == 10);
    assert("dependencies"@.len() == 12);
    assert("export_assets"@.len() == 13 && "export_assets"@[0] == 'e');
    assert("read_text_asset"@.len() == 15);
    assert(Seq::<char>::empty() =~= ""@);
}

// ----- answers -------------------------------------------------------------------------------

proof fn lemma_within(s: Seq<char>, a: Seq<char>, t: Seq<char>, b: Seq<char>, x: Seq<char>)
    requires
        s == a + t + b,
        occurs(t, x),
    ensures
        occurs(s, x),
{
    let i = choose|i: int| occurs_at(t, x, i);
    assert(s.subrange(a.len() + i, a.len() + i + x.len()) =~= t.subrange(i, i + x.len()));
    assert(occurs_at(s, x, a.len() + i));
}

proof fn lemma_whole(x: Seq<char>)
    ensures
        occurs(x, x),
{
    assert(x.subrange(0, x.len() as int) =~= x);
    assert(occurs_at(x, x, 0));
}

pub(crate) proof fn lemma_glued(parts: Seq<Seq<char>>, sep: Seq<char>, i: int, x: Seq<char>)
    requires
        0 <= i < parts.len(),
        occurs(parts[i], x),
    ensures
        occurs(glue(parts, sep), x),
    decreases parts.len(),
{
    let none = Seq::<char>::empty();
    if parts.len() > 1 {
        let front = glue(parts.drop_last(), sep);
        let all = glue(parts, sep);
        if i < parts.len() - 1 {
            lemma_glued(parts.drop_last(), sep, i, x);
            assert(all =~= none + front + (sep + parts.last()));
            lemma_within(all, none, front, sep + parts.last(), x);
        } else {
            assert(all =~= (front + sep) + parts.last() + none);
            lemma_within(all, front + sep, parts.last(), none, x);
        }
    }
}

proof fn lemma_item(items: Seq<Seq<char>>, i: int, x: Seq<char>)
    requires
        0 <= i < items.len(),
        occurs(items[i], x),
    ensures
        occurs(list_text(items), x),
        occurs(object_text(items), x),
{
    lemma_glued(items, ","@, i, x);
    lemma_within(list_text(items), "["@, glue(items, ","@), "]"@, x);
    lemma_within(object_text(items), "{"@, glue(items, ","@), "}"@, x);
}

proof fn lemma_value(key: Seq<char>, value: Seq<char>, x: Seq<char>)
    requires
        occurs(value, x),
    ensures
        occurs(field_text(key, value), x),
{
    let none = Seq::<char>::empty();
    assert(field_text(key, value) =~= ("\""@ + key + "\":"@) + value + none);
    lemma_within(field_text(key, value), "\""@ + key + "\":"@, value, none, x);
}

/// Whether a JSON text holds a field.
pub open spec fn holds(json: Seq<char>, key: Seq<char>, value: Seq<char>) -> bool {
    occurs(json, "\""@ + key + "\":"@ + value)
}

/// An answer goes out to everything but notifications, and says which message it answers.
pub proof fn requests_are_answered(m: MessageView, version: Seq<char>)
    ensures
        m is Notification <==> answer_of(m, version) is Silence,
        m is CallTool <==> answer_of(m, version) is Call,
        m matches MessageView::CallTool { id, name, args } ==> answer_of(m, version) == (AnswerView::Call {
            id,
            name,
            args,
        }),
        m matches MessageView::Ping { id } ==> (answer_of(m, version) matches AnswerView::Line(l) && holds(l, "id"@, id)
            && holds(l, "result"@, "{}"@)),
        m matches MessageView::Initialize { id, .. } ==> (answer_of(m, version) matches AnswerView::Line(l) && holds(
            l,
            "id"@,
            id,
        )),
        m matches MessageView::ListTools { id } ==> (answer_of(m, version) matches AnswerView::Line(l) && holds(
            l,
            "id"@,
            id,
        )),
        m matches MessageView::ListResources { id } ==> (answer_of(m, version) matches AnswerView::Line(l) && holds(
            l,
            "id"@,
            id,
        )),
        m matches MessageView::ListPrompts { id } ==> (answer_of(m, version) matches AnswerView::Line(l) && holds(
            l,
            "id"@,
            id,
        )),
        m matches MessageView::Unknown { id, method } ==> (answer_of(m, version) matches AnswerView::Line(l) && holds(
            l,
            "id"@,
            id,
        ) && occurs(l, json_text_of("method not found: "@ + method))),
        m matches MessageView::Malformed(words) ==> (answer_of(m, version) matches AnswerView::Line(l) && holds(
            l,
            "id"@,
            "null"@,
        ) && occurs(l, json_text_of("parse error: "@ + words))),
{
    match m {
        MessageView::Ping { id } => {
            lemma_reply(id, "{}"@);
        },
        MessageView::Initialize { id, protocol } => {
            lemma_reply(id, crate::replies::welcome_json(crate::mcp::protocol_for(protocol), version));
        },
        MessageView::ListTools { id } => {
            lemma_reply(id, object_text(seq![field_text("tools"@, crate::mcp::tools_json())]));
        },
        MessageView::ListResources { id } => {
            lemma_reply(id, "{\"resources\":[]}"@);
        },
        MessageView::ListPrompts { id } => {
            lemma_reply(id, "{\"prompts\":[]}"@);
        },
        MessageView::Unknown { id, method } => {
            lemma_trouble(id, -32601, "method not found: "@ + method);
        },
        MessageView::Malformed(words) => {
            lemma_trouble("null"@, -32700, "parse error: "@ + words);
        },
        _ => {},
    }
}

proof fn lemma_reply(id: Seq<char>, result: Seq<char>)
    ensures
        holds(reply_json(id, result), "id"@, id),
        holds(reply_json(id, result), "result"@, result),
{
    let fields = seq![
        field_text("jsonrpc"@, json_text_of("2.0"@)),
        field_text("id"@, id),
        field_text("result"@, result),
    ];
    lemma_whole(fields[1]);
    lemma_item(fields, 1, fields[1]);
    lemma_whole(fields[2]);
    lemma_item(fields, 2, fields[2]);
}

proof fn lemma_trouble(id: Seq<char>, code: int, message: Seq<char>)
    ensures
        holds(crate::replies::trouble_json(id, code, message), "id"@, id),
        occurs(crate::replies::trouble_json(id, code, message), json_text_of(message)),
{
    let words = json_text_of(message);
    let inner = seq![
        field_text("code"@, crate::number::signed_numeral(code)),
        field_text("message"@, words),
    ];
    let error = object_text(inner);
    let fields = seq![
        field_text("jsonrpc"@, json_text_of("2.0"@)),
        field_text("id"@, id),
        field_text("error"@, error),
    ];
    lemma_whole(fields[1]);
    lemma_item(fields, 1, fields[1]);
    lemma_whole(words);
    lemma_value("message"@, words, words);
    lemma_item(inner, 1, words);
    lemma_value("error"@, error, words);
    lemma_item(fields, 2, words);
}

/// The result of a call holds what the tool gave as it is, or what went wrong.
pub proof fn calls_give_what_their_tools_gave(id: Seq<char>, given: Result<Seq<char>, crate::error::ErrorView>)
    ensures
        holds(reply_json(id, tool_result_json(given)), "id"@, id),
        given matches Ok(value) ==> holds(reply_json(id, tool_result_json(given)), "structuredContent"@, value)
            && holds(reply_json(id, tool_result_json(given)), "isError"@, "false"@),
        given matches Err(e) ==> occurs(
            reply_json(id, tool_result_json(given)),
            json_text_of("error: "@ + crate::error::described(e)),
        ) && holds(reply_json(id, tool_result_json(given)), "isError"@, "true"@),
{
    let result = tool_result_json(given);
    let fields = seq![
        field_text("jsonrpc"@, json_text_of("2.0"@)),
        field_text("id"@, id),
        field_text("result"@, result),
    ];
    lemma_reply(id, result);
    match given {
        Ok(value) => {
            let inner = seq![
                field_text("content"@, crate::replies::content_json(crate::replies::shown_json(value))),
                field_text("structuredContent"@, value),
                field_text("isError"@, "false"@),
            ];
            lemma_whole(inner[1]);
            lemma_item(inner, 1, inner[1]);
            lemma_value("result"@, result, inner[1]);
            lemma_item(fields, 2, inner[1]);
            lemma_whole(inner[2]);
            lemma_item(inner, 2, inner[2]);
            lemma_value("result"@, result, inner[2]);
            lemma_item(fields, 2, inner[2]);
        },
        Err(e) => {
            let words = json_text_of("error: "@ + crate::error::described(e));
            let content = crate::replies::content_json(crate::mcp::failure_of(e));
            let inner = seq![field_text("content"@, content), field_text("isError"@, "true"@)];
            let deep = seq![field_text("type"@, json_text_of("text"@)), field_text("text"@, words)];
            lemma_whole(words);
            lemma_value("text"@, words, words);
            lemma_item(deep, 1, words);
            lemma_item(seq![object_text(deep)], 0, words);
            lemma_value("content"@, content, words);
            lemma_item(inner, 0, words);
            lemma_value("result"@, result, words);
            lemma_item(fields, 2, words);
            lemma_whole(inner[1]);
            lemma_item(inner, 1, inner[1]);
            lemma_value("result"@, result, inner[1]);
            lemma_item(fields, 2, inner[1]);
        },
    }
}

// ----- what tools give -----------------------------------------------------------------------

proof fn lemma_slot(fields: Seq<Seq<char>>, j: int, key: Seq<char>, value: Seq<char>)
    requires
        0 <= j < fields.len(),
        fields[j] == field_text(key, value),
    ensures
        holds(object_text(fields), key, value),
{
    lemma_whole(fields[j]);
    lemma_item(fields, j, fields[j]);
}

proof fn lemma_slot_in(fields: Seq<Seq<char>>, j: int, key: Seq<char>, value: Seq<char>, x: Seq<char>)
    requires
        0 <= j < fields.len(),
        fields[j] == field_text(key, value),
        occurs(value, x),
    ensures
        occurs(object_text(fields), x),
{
    lemma_value(key, value, x);
    lemma_item(fields, j, x);
}

/// A search gives every hit with its guid, its path, its kind and its package.
pub proof fn tools_give_every_hit(s: Seq<AssetView>, i: int)
    requires
        0 <= i < s.len(),
    ensures
        holds(assets_text_json(s), "guid"@, json_text_of(s[i].guid)),
        holds(assets_text_json(s), "path"@, json_text_of(s[i].path)),
        holds(assets_text_json(s), "kind"@, json_text_of(s[i].kind)),
        holds(assets_text_json(s), "package"@, json_text_of(s[i].package)),
{
    let a = s[i];
    let items = s.map_values(|x: AssetView| slim_asset_json(x));
    reveal(slim_asset_json);
    let fields = seq![
        field_text("guid"@, json_text_of(a.guid)),
        field_text("path"@, json_text_of(a.path)),
        field_text("name"@, json_text_of(a.name)),
        field_text("kind"@, json_text_of(a.kind)),
        field_text("ext"@, json_text_of(a.ext)),
        field_text("main_class"@, crate::mcp::option_text(a.main_class)),
        field_text("size"@, crate::number::signed_numeral(a.size as int)),
        field_text("package"@, json_text_of(a.package)),
        field_text("package_id"@, crate::number::signed_numeral(a.package_id as int)),
        field_text("publisher"@, json_text_of(a.publisher)),
        field_text("has_preview"@, crate::mcp::bool_text(a.has_preview)),
        field_text("is_text"@, crate::mcp::bool_text(a.is_text)),
    ];
    assert(items[i] == object_text(fields));
    lemma_slot(fields, 0, "guid"@, json_text_of(a.guid));
    lemma_slot(fields, 1, "path"@, json_text_of(a.path));
    lemma_slot(fields, 3, "kind"@, json_text_of(a.kind));
    lemma_slot(fields, 7, "package"@, json_text_of(a.package));
    lemma_item(items, i, fields[0]);
    lemma_item(items, i, fields[1]);
    lemma_item(items, i, fields[3]);
    lemma_item(items, i, fields[7]);
}

/// The list of packages gives every package with its id, its name and its publisher.
pub proof fn tools_give_every_package(s: Seq<PackageView>, i: int)
    requires
        0 <= i < s.len(),
    ensures
        holds(packages_text_json(s), "id"@, crate::number::signed_numeral(s[i].id as int)),
        holds(packages_text_json(s), "name"@, json_text_of(s[i].name)),
        holds(packages_text_json(s), "publisher"@, json_text_of(s[i].publisher)),
{
    let p = s[i];
    let items = s.map_values(|x: PackageView| package_summary_json(x));
    reveal(package_summary_json);
    let fields = seq![
        field_text("id"@, crate::number::signed_numeral(p.id as int)),
        field_text("name"@, json_text_of(p.name)),
        field_text("title"@, crate::mcp::option_text(p.title)),
        field_text("publisher"@, json_text_of(p.publisher)),
        field_text("category_label"@, json_text_of(crate::model::shown_category(p))),
        field_text("version"@, crate::mcp::option_text(p.version)),
        field_text("unity_version"@, crate::mcp::option_text(p.unity_version)),
        field_text("pubdate"@, crate::mcp::option_text(p.pubdate)),
        field_text("entry_count"@, crate::number::signed_numeral(p.entry_count as int)),
        field_text("total_bytes"@, crate::number::signed_numeral(p.total_bytes as int)),
        field_text("size"@, crate::number::signed_numeral(p.size as int)),
        field_text("status"@, json_text_of(p.status)),
        field_text("description"@, crate::mcp::option_text(p.description)),
    ];
    assert(items[i] == object_text(fields));
    lemma_slot(fields, 0, "id"@, crate::number::signed_numeral(p.id as int));
    lemma_slot(fields, 1, "name"@, json_text_of(p.name));
    lemma_slot(fields, 3, "publisher"@, json_text_of(p.publisher));
    lemma_item(items, i, fields[0]);
    lemma_item(items, i, fields[1]);
    lemma_item(items, i, fields[3]);
}

/// A listing gives every asset that is no folder, with its guid and its path.
pub proof fn tools_list_every_file(l: PackageListingView, i: int)
    requires
        0 <= i < l.assets.len(),
        !l.assets[i].is_folder,
    ensures
        holds(listing_json(l), "guid"@, json_text_of(l.assets[i].guid)),
        holds(listing_json(l), "path"@, json_text_of(l.assets[i].path)),
{
    let a = l.assets[i];
    let kept = files_only(l.assets);
    assert(l.assets.contains(a));
    lemma_filter_has(l.assets, |x: AssetView| !x.is_folder, a);
    let k = choose|k: int| 0 <= k < kept.len() && kept[k] == a;
    let items = kept.map_values(|x: AssetView| listed_asset_json(x));
    reveal(listed_asset_json);
    let fields = seq![
        field_text("guid"@, json_text_of(a.guid)),
        field_text("path"@, json_text_of(a.path)),
        field_text("kind"@, json_text_of(a.kind)),
        field_text("size"@, crate::number::signed_numeral(a.size as int)),
    ];
    assert(items[k] == object_text(fields));
    let outer = seq![
        field_text("package"@, crate::mcp::package_head_json(l.package)),
        field_text("kinds"@, crate::mcp::kinds_text_json(l.kinds)),
        field_text("assets"@, listed_text_json(kept)),
    ];
    lemma_slot(fields, 0, "guid"@, json_text_of(a.guid));
    lemma_item(items, k, fields[0]);
    lemma_slot_in(outer, 2, "assets"@, listed_text_json(kept), fields[0]);
    lemma_slot(fields, 1, "path"@, json_text_of(a.path));
    lemma_item(items, k, fields[1]);
    lemma_slot_in(outer, 2, "assets"@, listed_text_json(kept), fields[1]);
}

/// The details of an asset give its guid, all of its references, and the first users, 100 at most.
pub proof fn tools_tell_references_and_users(info: AssetInfoView, i: int)
    ensures
        holds(info_json(info), "guid"@, json_text_of(info.asset.guid)),
        holds(info_json(info), "path"@, json_text_of(info.asset.path)),
        0 <= i < info.refs.len() ==> holds(info_json(info), "guid"@, json_text_of(info.refs[i].guid)),
        0 <= i < info.referrers.len() && i < 100 ==> holds(
            info_json(info),
            "path"@,
            json_text_of(info.referrers[i].path),
        ),
{
    reveal(asset_fields);
    let extra = seq![
        field_text("direct_dependencies"@, refs_text_json(info.refs)),
        field_text("used_by"@, users_text_json(info.referrers)),
    ];
    let front = asset_fields(info.asset);
    let fields = front + extra;
    assert(fields[2] == field_text("guid"@, json_text_of(info.asset.guid)));
    assert(fields[3] == field_text("path"@, json_text_of(info.asset.path)));
    lemma_slot(fields, 2, "guid"@, json_text_of(info.asset.guid));
    lemma_slot(fields, 3, "path"@, json_text_of(info.asset.path));
    assert(fields[18] == extra[0]);
    assert(fields[19] == extra[1]);
    if 0 <= i < info.refs.len() {
        let x = field_text("guid"@, json_text_of(info.refs[i].guid));
        lemma_ref(info.refs, i);
        lemma_slot_in(fields, 18, "direct_dependencies"@, refs_text_json(info.refs), x);
    }
    if 0 <= i < info.referrers.len() && i < 100 {
        let x = field_text("path"@, json_text_of(info.referrers[i].path));
        lemma_user(info.referrers, i);
        lemma_slot_in(fields, 19, "used_by"@, users_text_json(info.referrers), x);
    }
}

proof fn lemma_ref(s: Seq<crate::model::RefInfoView>, i: int)
    requires
        0 <= i < s.len(),
    ensures
        holds(refs_text_json(s), "guid"@, json_text_of(s[i].guid)),
{
    let r = s[i];
    let items = s.map_values(|x: crate::model::RefInfoView| ref_json(x));
    let x = field_text("guid"@, json_text_of(r.guid));
    reveal(ref_json);
    assert(items[i] == ref_json(r));
    match r.asset {
        Some(c) => {
            let fields = seq![
                field_text("guid"@, json_text_of(r.guid)),
                field_text("path"@, json_text_of(c.path)),
                field_text("kind"@, json_text_of(c.kind)),
                field_text("package"@, json_text_of(c.package)),
            ];
            lemma_slot(fields, 0, "guid"@, json_text_of(r.guid));
        },
        None => {
            let fields = seq![
                field_text("guid"@, json_text_of(r.guid)),
                field_text("unresolved"@, "true"@),
                field_text("label"@, crate::mcp::option_text(r.label)),
            ];
            lemma_slot(fields, 0, "guid"@, json_text_of(r.guid));
        },
    }
    lemma_item(items, i, x);
}

proof fn lemma_user(s: Seq<AssetView>, i: int)
    requires
        0 <= i < s.len(),
        i < 100,
    ensures
        holds(users_text_json(s), "path"@, json_text_of(s[i].path)),
{
    let a = s[i];
    let few = limited(s, Some(100));
    assert(few[i] == a);
    let items = few.map_values(|x: AssetView| user_asset_json(x));
    reveal(user_asset_json);
    let fields = seq![
        field_text("guid"@, json_text_of(a.guid)),
        field_text("path"@, json_text_of(a.path)),
        field_text("kind"@, json_text_of(a.kind)),
        field_text("package"@, json_text_of(a.package)),
    ];
    assert(items[i] == object_text(fields));
    lemma_slot(fields, 1, "path"@, json_text_of(a.path));
    lemma_item(items, i, fields[1]);
}

/// The dependencies give every asset of the closure, every guid that is unresolved and every script that
/// is left out.
pub proof fn tools_give_the_whole_closure(cl: ClosureOutView, i: int)
    ensures
        0 <= i < cl.assets.len() ==> holds(deps_json(cl), "guid"@, json_text_of(cl.assets[i].asset.guid)) && holds(
            deps_json(cl),
            "path"@,
            json_text_of(cl.assets[i].asset.path),
        ),
        0 <= i < cl.unresolved.len() ==> holds(deps_json(cl), "guid"@, json_text_of(cl.unresolved[i].guid)),
        0 <= i < cl.skipped_scripts.len() ==> holds(
            deps_json(cl),
            "path"@,
            json_text_of(cl.skipped_scripts[i].path),
        ),
{
    reveal(deps_json);
    let fields = seq![
        field_text("roots"@, texts_json(cl.roots)),
        field_text("assets"@, closure_asset_list_json(cl.assets)),
        field_text("unresolved"@, unresolved_list_json(cl.unresolved)),
        field_text("skipped_scripts"@, asset_list_json(cl.skipped_scripts)),
        field_text("total_bytes"@, crate::number::signed_numeral(cl.total_bytes as int)),
        field_text("package_ids"@, crate::replies::ints_json(cl.package_ids)),
        field_text("packages"@, crate::replies::package_ref_list_json(cl.packages)),
    ];
    assert(deps_json(cl) == object_text(fields));
    if 0 <= i < cl.assets.len() {
        let n = cl.assets[i];
        let items = cl.assets.map_values(|x: crate::model::ClosureAssetView| closure_asset_json(x));
        let inner = asset_fields(n.asset) + seq![
            field_text("depth"@, numeral(n.depth as nat)),
            field_text("via"@, crate::mcp::option_text(n.via)),
            field_text("also_in_packages"@, crate::replies::ints_json(n.also_in_packages)),
        ];
        reveal(asset_fields);
        assert(items[i] == object_text(inner));
        assert(inner[2] == field_text("guid"@, json_text_of(n.asset.guid)));
        assert(inner[3] == field_text("path"@, json_text_of(n.asset.path)));
        lemma_slot(inner, 2, "guid"@, json_text_of(n.asset.guid));
        lemma_slot(inner, 3, "path"@, json_text_of(n.asset.path));
        lemma_item(items, i, inner[2]);
        lemma_item(items, i, inner[3]);
        lemma_slot_in(fields, 1, "assets"@, closure_asset_list_json(cl.assets), inner[2]);
        lemma_slot_in(fields, 1, "assets"@, closure_asset_list_json(cl.assets), inner[3]);
    }
    if 0 <= i < cl.unresolved.len() {
        lemma_unresolved(cl.unresolved, i);
        let x = field_text("guid"@, json_text_of(cl.unresolved[i].guid));
        lemma_slot_in(fields, 2, "unresolved"@, unresolved_list_json(cl.unresolved), x);
    }
    if 0 <= i < cl.skipped_scripts.len() {
        let a = cl.skipped_scripts[i];
        let items = cl.skipped_scripts.map_values(|x: AssetView| asset_json(x));
        let inner = asset_fields(a);
        reveal(asset_fields);
        assert(items[i] == object_text(inner));
        lemma_slot(inner, 3, "path"@, json_text_of(a.path));
        lemma_item(items, i, inner[3]);
        lemma_slot_in(fields, 3, "skipped_scripts"@, asset_list_json(cl.skipped_scripts), inner[3]);
    }
}

proof fn lemma_unresolved(s: Seq<crate::model::UnresolvedView>, i: int)
    requires
        0 <= i < s.len(),
    ensures
        holds(unresolved_list_json(s), "guid"@, json_text_of(s[i].guid)),
{
    let u = s[i];
    let items = s.map_values(|x: crate::model::UnresolvedView| unresolved_json(x));
    reveal(unresolved_json);
    let fields = seq![
        field_text("guid"@, json_text_of(u.guid)),
        field_text("label"@, crate::mcp::option_text(u.label)),
        field_text("referrers"@, texts_json(u.referrers)),
    ];
    assert(items[i] == object_text(fields));
    lemma_slot(fields, 0, "guid"@, json_text_of(u.guid));
    lemma_item(items, i, fields[0]);
}

/// An export gives every file that was written, every conflict with both paths, every asset that was not
/// found, and every warning.
pub proof fn tools_give_what_an_export_did(x: ExportOutView, seconds: Seq<char>, i: int)
    ensures
        0 <= i < x.result.written.len() ==> occurs(export_json(x, seconds), json_text_of(x.result.written[i].path)),
        0 <= i < x.result.conflicts.len() ==> occurs(
            export_json(x, seconds),
            json_text_of(x.result.conflicts[i].path),
        ) && occurs(export_json(x, seconds), json_text_of(x.result.conflicts[i].existing_path)),
        0 <= i < x.result.missing_in_package.len() ==> occurs(
            export_json(x, seconds),
            json_text_of(x.result.missing_in_package[i].path),
        ),
        0 <= i < x.plan.warnings.len() ==> occurs(export_json(x, seconds), json_text_of(x.plan.warnings[i])),
{
    reveal(export_json);
    let result = result_json(x.result, seconds);
    let fields = seq![
        field_text("roots"@, crate::replies::root_ref_list_json(x.plan.roots)),
        field_text("planned"@, numeral(x.plan.planned as nat)),
        field_text("planned_bytes"@, crate::number::signed_numeral(x.plan.planned_bytes as int)),
        field_text("packages"@, texts_json(x.plan.packages)),
        field_text("warnings"@, texts_json(x.plan.warnings)),
        field_text("unresolved"@, unresolved_list_json(x.plan.unresolved)),
        field_text("scripts"@, texts_json(x.plan.scripts)),
        field_text("skipped_scripts"@, texts_json(x.plan.skipped_scripts)),
        field_text("result"@, result),
    ];
    assert(export_json(x, seconds) == object_text(fields));
    lemma_result(x.result, seconds, i);
    if 0 <= i < x.result.written.len() {
        lemma_slot_in(fields, 8, "result"@, result, json_text_of(x.result.written[i].path));
    }
    if 0 <= i < x.result.conflicts.len() {
        lemma_slot_in(fields, 8, "result"@, result, json_text_of(x.result.conflicts[i].path));
        lemma_slot_in(fields, 8, "result"@, result, json_text_of(x.result.conflicts[i].existing_path));
    }
    if 0 <= i < x.result.missing_in_package.len() {
        lemma_slot_in(fields, 8, "result"@, result, json_text_of(x.result.missing_in_package[i].path));
    }
    if 0 <= i < x.plan.warnings.len() {
        let w = json_text_of(x.plan.warnings[i]);
        let items = x.plan.warnings.map_values(|t: Seq<char>| json_text_of(t));
        lemma_whole(w);
        assert(items[i] == w);
        lemma_item(items, i, w);
        lemma_slot_in(fields, 4, "warnings"@, texts_json(x.plan.warnings), w);
    }
}

proof fn lemma_result(r: crate::model::ExportResultView, seconds: Seq<char>, i: int)
    ensures
        0 <= i < r.written.len() ==> occurs(result_json(r, seconds), json_text_of(r.written[i].path)),
        0 <= i < r.conflicts.len() ==> occurs(result_json(r, seconds), json_text_of(r.conflicts[i].path)) && occurs(
            result_json(r, seconds),
            json_text_of(r.conflicts[i].existing_path),
        ),
        0 <= i < r.missing_in_package.len() ==> occurs(
            result_json(r, seconds),
            json_text_of(r.missing_in_package[i].path),
        ),
{
    reveal(result_json);
    let fields = seq![
        field_text("output"@, json_text_of(r.output)),
        field_text("dry_run"@, crate::mcp::bool_text(r.dry_run)),
        field_text("bytes_written"@, crate::number::signed_numeral(r.bytes_written as int)),
        field_text("seconds"@, seconds),
        field_text("written"@, written_list_json(r.written)),
        field_text("skipped_existing"@, written_list_json(r.skipped_existing)),
        field_text("conflicts"@, conflict_list_json(r.conflicts)),
        field_text("missing_in_package"@, missing_list_json(r.missing_in_package)),
    ];
    assert(result_json(r, seconds) == object_text(fields));
    if 0 <= i < r.written.len() {
        let w = json_text_of(r.written[i].path);
        let items = r.written.map_values(|x: crate::model::WrittenFileView| written_json(x));
        reveal(written_json);
        let inner = seq![
            field_text("guid"@, json_text_of(r.written[i].guid)),
            field_text("path"@, w),
            field_text("bytes"@, crate::number::signed_numeral(r.written[i].bytes as int)),
        ];
        lemma_whole(w);
        lemma_slot_in(inner, 1, "path"@, w, w);
        assert(items[i] == written_json(r.written[i]));
        lemma_item(items, i, w);
        lemma_slot_in(fields, 4, "written"@, written_list_json(r.written), w);
    }
    if 0 <= i < r.conflicts.len() {
        let c = r.conflicts[i];
        let (a, b) = (json_text_of(c.path), json_text_of(c.existing_path));
        let items = r.conflicts.map_values(|x: crate::model::ConflictView| conflict_json(x));
        reveal(conflict_json);
        let inner = seq![
            field_text("guid"@, json_text_of(c.guid)),
            field_text("path"@, a),
            field_text("existing_path"@, b),
        ];
        assert(items[i] == conflict_json(c));
        lemma_whole(a);
        lemma_slot_in(inner, 1, "path"@, a, a);
        lemma_item(items, i, a);
        lemma_slot_in(fields, 6, "conflicts"@, conflict_list_json(r.conflicts), a);
        lemma_whole(b);
        lemma_slot_in(inner, 2, "existing_path"@, b, b);
        lemma_item(items, i, b);
        lemma_slot_in(fields, 6, "conflicts"@, conflict_list_json(r.conflicts), b);
    }
    if 0 <= i < r.missing_in_package.len() {
        let m = r.missing_in_package[i];
        let w = json_text_of(m.path);
        let items = r.missing_in_package.map_values(|x: crate::model::MissingMemberView| missing_json(x));
        reveal(missing_json);
        let inner = seq![
            field_text("guid"@, json_text_of(m.guid)),
            field_text("path"@, w),
            field_text("got"@, texts_json(m.got)),
        ];
        assert(items[i] == missing_json(m));
        lemma_whole(w);
        lemma_slot_in(inner, 1, "path"@, w, w);
        lemma_item(items, i, w);
        lemma_slot_in(fields, 7, "missing_in_package"@, missing_list_json(r.missing_in_package), w);
    }
}

// ----- failures ------------------------------------------------------------------------------

proof fn lemma_asset_lines(s: Seq<AssetView>, i: int)
    requires
        0 <= i < s.len(),
    ensures
        occurs(crate::error::asset_lines(s), s[i].guid),
        occurs(crate::error::asset_lines(s), s[i].path),
    decreases s.len(),
{
    let front = crate::error::asset_lines(s.drop_last());
    let c = s.last();
    let all = crate::error::asset_lines(s);
    let none = Seq::<char>::empty();
    let back = "\n  "@ + c.guid + "  ["@ + c.package + "] "@ + c.path;
    if i < s.len() - 1 {
        lemma_asset_lines(s.drop_last(), i);
        assert(all =~= none + front + back);
        lemma_within(all, none, front, back, s[i].guid);
        lemma_within(all, none, front, back, s[i].path);
    } else {
        lemma_whole(c.guid);
        lemma_whole(c.path);
        let mid = "  ["@ + c.package + "] "@;
        assert(all =~= (front + "\n  "@) + c.guid + (mid + c.path));
        lemma_within(all, front + "\n  "@, c.guid, mid + c.path, c.guid);
        assert(all =~= (front + "\n  "@ + c.guid + mid) + c.path + none);
        lemma_within(all, front + "\n  "@ + c.guid + mid, c.path, none, c.path);
    }
}

proof fn lemma_package_lines(s: Seq<PackageView>, i: int)
    requires
        0 <= i < s.len(),
    ensures
        occurs(crate::error::package_lines(s), s[i].name),
    decreases s.len(),
{
    let front = crate::error::package_lines(s.drop_last());
    let p = s.last();
    let all = crate::error::package_lines(s);
    let none = Seq::<char>::empty();
    let head = "\n  ["@ + crate::number::signed_numeral(p.id as int) + "] "@;
    if i < s.len() - 1 {
        lemma_package_lines(s.drop_last(), i);
        assert(all =~= none + front + (head + p.name));
        lemma_within(all, none, front, head + p.name, s[i].name);
    } else {
        lemma_whole(p.name);
        assert(all =~= (front + head) + p.name + none);
        lemma_within(all, front + head, p.name, none, p.name);
    }
}

spec fn more_of(n: nat) -> Seq<char> {
    if n > 15 {
        "\n  ... "@ + numeral((n - 15) as nat) + " more"@
    } else {
        Seq::empty()
    }
}

proof fn lemma_described(message: Seq<char>, candidates: Seq<AssetView>, package_candidates: Seq<PackageView>)
    ensures
        crate::error::described(
            crate::error::ErrorView::User(
                crate::error::UaiErrorView::Ambiguous { message, candidates, package_candidates },
            ),
        ) == message + crate::error::asset_lines(crate::error::first_n(candidates, 15)) + more_of(candidates.len())
            + crate::error::package_lines(crate::error::first_n(package_candidates, 20)),
{
}

proof fn lemma_few(s: Seq<AssetView>, i: int)
    requires
        0 <= i < s.len(),
        i < 15,
    ensures
        occurs(crate::error::asset_lines(crate::error::first_n(s, 15)), s[i].guid),
        occurs(crate::error::asset_lines(crate::error::first_n(s, 15)), s[i].path),
{
    lemma_asset_lines(crate::error::first_n(s, 15), i);
}

proof fn lemma_more(n: nat)
    requires
        n > 15,
    ensures
        occurs(more_of(n), numeral((n - 15) as nat) + " more"@),
{
    lemma_last_two("\n  ... "@, numeral((n - 15) as nat), " more"@);
}

proof fn lemma_last_two(a: Seq<char>, b: Seq<char>, c: Seq<char>)
    ensures
        occurs(a + b + c, b + c),
{
    let s = a + b + c;
    let t = b + c;
    assert(s.subrange(a.len() as int, s.len() as int) =~= t);
    assert(occurs_at(s, t, a.len() as int));
}

/// What is said of an ambiguous identifier begins with the message and names the candidates: the first
/// assets, 15 at most, with guid and path, how many more there are, and the first packages, 20 at most.
pub proof fn ambiguity_is_described(
    message: Seq<char>,
    candidates: Seq<AssetView>,
    package_candidates: Seq<PackageView>,
    words: Seq<char>,
    i: int,
)
    requires
        words == crate::error::described(
            crate::error::ErrorView::User(
                crate::error::UaiErrorView::Ambiguous { message, candidates, package_candidates },
            ),
        ),
    ensures
        occurs_at(words, message, 0),
        0 <= i < candidates.len() && i < 15 ==> occurs(words, candidates[i].guid),
        0 <= i < candidates.len() && i < 15 ==> occurs(words, candidates[i].path),
        candidates.len() > 15 ==> occurs(words, numeral((candidates.len() - 15) as nat) + " more"@),
        0 <= i < package_candidates.len() && i < 20 ==> occurs(words, package_candidates[i].name),
{
    let lines = crate::error::asset_lines(crate::error::first_n(candidates, 15));
    let more = more_of(candidates.len());
    let some = crate::error::first_n(package_candidates, 20);
    let rest = crate::error::package_lines(some);
    lemma_described(message, candidates, package_candidates);
    lemma_front_of_four(message, lines, more, rest);
    if 0 <= i < candidates.len() && i < 15 {
        lemma_few(candidates, i);
        lemma_in_four(message, lines, more, rest, candidates[i].guid);
        lemma_in_four(message, lines, more, rest, candidates[i].path);
    }
    if candidates.len() > 15 {
        lemma_more(candidates.len());
        lemma_in_four(message, lines, more, rest, numeral((candidates.len() - 15) as nat) + " more"@);
    }
    if 0 <= i < package_candidates.len() && i < 20 {
        lemma_package_lines(some, i);
        lemma_in_four(message, lines, more, rest, package_candidates[i].name);
    }
}

proof fn lemma_front_of_four(a: Seq<char>, b: Seq<char>, c: Seq<char>, d: Seq<char>)
    ensures
        occurs_at(a + b + c + d, a, 0),
{
    assert((a + b + c + d).subrange(0, a.len() as int) =~= a);
}

proof fn lemma_in_four(a: Seq<char>, b: Seq<char>, c: Seq<char>, d: Seq<char>, x: Seq<char>)
    requires
        occurs(b, x) || occurs(c, x) || occurs(d, x),
    ensures
        occurs(a + b + c + d, x),
{
    let all = a + b + c + d;
    let none = Seq::<char>::empty();
    if occurs(b, x) {
        assert(all =~= a + b + (c + d));
        lemma_within(all, a, b, c + d, x);
    } else if occurs(c, x) {
        lemma_within(all, a + b, c, d, x);
    } else {
        assert(all =~= (a + b + c) + d + none);
        lemma_within(all, a + b + c, d, none, x);
    }
}

/// A message is taken for what its method says, with its id and what it brings; one without an id, or with
/// the id `null`, wants no answer.
pub proof fn messages_are_what_their_method_says(
    id: Seq<char>,
    method: Seq<char>,
    protocol: Option<Seq<char>>,
    name: Option<Seq<char>>,
    args: Option<Seq<char>>,
)
    ensures
        ({
            let of = |m: Seq<char>| crate::mcp::message_with(Some(id), Some(m), protocol, name, args);
            &&& id != "null"@ ==> {
                &&& of("initialize"@) == (MessageView::Initialize { id, protocol: text_or(protocol, ""@) })
                &&& of("ping"@) == (MessageView::Ping { id })
                &&& of("tools/list"@) == (MessageView::ListTools { id })
                &&& of("tools/call"@) == (MessageView::CallTool {
                    id,
                    name: text_or(name, ""@),
                    args: text_or(args, "{}"@),
                })
                &&& of("resources/list"@) == (MessageView::ListResources { id })
                &&& of("prompts/list"@) == (MessageView::ListPrompts { id })
                &&& !(of(method) is Notification)
                &&& of(method) matches MessageView::Unknown { id: i, method: m } ==> i == id && m == method
            }
            &&& id == "null"@ ==> of(method) is Notification
            &&& crate::mcp::message_with(None, Some(method), protocol, name, args) is Notification
        }),
{
    reveal_strlit("initialize");
    reveal_strlit("ping");
    reveal_strlit("tools/list");
    reveal_strlit("tools/call");
    reveal_strlit("resources/list");
    reveal_strlit("prompts/list");
    assert("initialize"@.len() == 10 && "initialize"@[0] == 'i');
    assert("ping"@.len() == 4);
    assert("tools/list"@.len() == 10 && "tools/list"@[0] == 't' && "tools/list"@[6] == 'l');
    assert("tools/call"@.len() == 10 && "tools/call"@[0] == 't' && "tools/call"@[6] == 'c');
    assert("resources/list"@.len() == 14);
    assert("prompts/list"@.len() == 12);
}

/// The protocol version that is asked for is spoken where it is one of these; the newest otherwise.
pub proof fn protocols_are_those_asked_for(requested: Seq<char>)
    ensures
        ({
            let known = requested == "2025-06-18"@ || requested == "2025-03-26"@ || requested == "2024-11-05"@;
            crate::mcp::protocol_for(requested) == (if known {
                requested
            } else {
                "2025-06-18"@
            })
        }),
{
    let all = crate::mcp::supported_protocols();
    assert(all[0] == "2025-06-18"@ && all[1] == "2025-03-26"@ && all[2] == "2024-11-05"@);
    if all.contains(requested) {
        let i = choose|i: int| 0 <= i < all.len() && all[i] == requested;
        assert(i == 0 || i == 1 || i == 2);
    }
}

} // verus!
