//! What the tools reply: the JSON of their results, and of the messages that carry them. The settings
//! have a JSON form too.

use vstd::prelude::*;
use vstd::string::*;

use crate::config::{joined_path, Config, ConfigView};
use crate::error::{outcome, Error, ErrorView};
use crate::mcp::{
    bool_text, choose_protocol, failure_of, failure_text, field_text, list_text, make_list, make_object,
    method_not_found, no_fields, object_text, option_text, protocol_for, push_bool, push_field, push_int,
    push_option, push_text, refs_text, refs_text_json, tools, tools_json, users_text, users_text_json, Message,
    MessageView, INSTRUCTIONS,
};
use crate::model::{
    Asset, AssetInfo, AssetInfoView, AssetView, ClosureAsset, ClosureAssetView, ClosureOut, ClosureOutView,
    Conflict, ConflictView, ExportOut, ExportOutView, ExportResult, ExportResultView, MissingMember,
    MissingMemberView, PackageRef, PackageRefView, RootRef, RootRefView, Stats, StatsView, TextOut, TextOutView, Unresolved,
    UnresolvedView, WrittenFile, WrittenFileView,
};
use crate::number::{decimal, decimal_i64, decimal_usize, numeral, signed_numeral};
use crate::outside::{json_pretty, json_pretty_of, json_text, json_text_of};
use crate::render::stats_outcome;
use crate::seqs::map_all;

verus! {

// ----- parts ---------------------------------------------------------------------------------

/// A list of texts.
pub open spec fn texts_json(s: Seq<Seq<char>>) -> Seq<char> {
    list_text(s.map_values(|x: Seq<char>| json_text_of(x)))
}

fn texts_text(v: &Vec<String>) -> (r: String)
    ensures
        r@ == texts_json(v.deep_view()),
{
    let f = |x: &String| -> (t: String)
        ensures
            t@ == json_text_of(x@),
        { json_text(x.as_str()) };
    make_list(&map_all(v, f, Ghost(|x: Seq<char>| json_text_of(x))))
}

/// A list of numbers.
pub open spec fn ints_json(s: Seq<i64>) -> Seq<char> {
    list_text(s.map_values(|x: i64| signed_numeral(x as int)))
}

fn ints_text(v: &Vec<i64>) -> (r: String)
    ensures
        r@ == ints_json(v.deep_view()),
{
    let f = |x: &i64| -> (t: String)
        ensures
            t@ == signed_numeral(*x as int),
        { decimal_i64(*x) };
    make_list(&map_all(v, f, Ghost(|x: i64| signed_numeral(x as int))))
}

/// The fields of an asset.
#[verifier::opaque]
pub open spec fn asset_fields(a: AssetView) -> Seq<Seq<char>> {
    seq![
        field_text("id"@, signed_numeral(a.id as int)),
        field_text("package_id"@, signed_numeral(a.package_id as int)),
        field_text("guid"@, json_text_of(a.guid)),
        field_text("path"@, json_text_of(a.path)),
        field_text("name"@, json_text_of(a.name)),
        field_text("ext"@, json_text_of(a.ext)),
        field_text("kind"@, json_text_of(a.kind)),
        field_text("importer"@, option_text(a.importer)),
        field_text("main_class"@, option_text(a.main_class)),
        field_text("size"@, signed_numeral(a.size as int)),
        field_text("is_folder"@, bool_text(a.is_folder)),
        field_text("has_preview"@, bool_text(a.has_preview)),
        field_text("is_text"@, bool_text(a.is_text)),
        field_text("scan_truncated"@, bool_text(a.scan_truncated)),
        field_text("labels"@, texts_json(a.labels)),
        field_text("package"@, json_text_of(a.package)),
        field_text("publisher"@, json_text_of(a.publisher)),
        field_text("package_rel_path"@, json_text_of(a.package_rel_path)),
    ]
}

fn asset_parts(a: &Asset) -> (f: Vec<String>)
    ensures
        f.deep_view() == asset_fields(a@),
{
    proof {
        reveal(asset_fields);
    }
    let mut f = no_fields();
    push_int(&mut f, "id", a.id);
    push_int(&mut f, "package_id", a.package_id);
    push_text(&mut f, "guid", a.guid.as_str());
    push_text(&mut f, "path", a.path.as_str());
    push_text(&mut f, "name", a.name.as_str());
    push_text(&mut f, "ext", a.ext.as_str());
    push_text(&mut f, "kind", a.kind.as_str());
    push_option(&mut f, "importer", &a.importer);
    push_option(&mut f, "main_class", &a.main_class);
    push_int(&mut f, "size", a.size);
    push_bool(&mut f, "is_folder", a.is_folder);
    push_bool(&mut f, "has_preview", a.has_preview);
    push_bool(&mut f, "is_text", a.is_text);
    push_bool(&mut f, "scan_truncated", a.scan_truncated);
    push_field(&mut f, "labels", texts_text(&a.labels).as_str());
    push_text(&mut f, "package", a.package.as_str());
    push_text(&mut f, "publisher", a.publisher.as_str());
    push_text(&mut f, "package_rel_path", a.package_rel_path.as_str());
    assert(f.deep_view() =~= seq![
        field_text("id"@, signed_numeral(a@.id as int)),
        field_text("package_id"@, signed_numeral(a@.package_id as int)),
        field_text("guid"@, json_text_of(a@.guid)),
        field_text("path"@, json_text_of(a@.path)),
        field_text("name"@, json_text_of(a@.name)),
        field_text("ext"@, json_text_of(a@.ext)),
        field_text("kind"@, json_text_of(a@.kind)),
        field_text("importer"@, option_text(a@.importer)),
        field_text("main_class"@, option_text(a@.main_class)),
        field_text("size"@, signed_numeral(a@.size as int)),
        field_text("is_folder"@, bool_text(a@.is_folder)),
        field_text("has_preview"@, bool_text(a@.has_preview)),
        field_text("is_text"@, bool_text(a@.is_text)),
        field_text("scan_truncated"@, bool_text(a@.scan_truncated)),
        field_text("labels"@, texts_json(a@.labels)),
        field_text("package"@, json_text_of(a@.package)),
        field_text("publisher"@, json_text_of(a@.publisher)),
        field_text("package_rel_path"@, json_text_of(a@.package_rel_path)),
    ]);
    f
}

/// An asset in full.
pub open spec fn asset_json(a: AssetView) -> Seq<char> {
    object_text(asset_fields(a))
}

fn asset_text(a: &Asset) -> (r: String)
    ensures
        r@ == asset_json(a@),
{
    make_object(&asset_parts(a))
}

/// Assets in full.
pub open spec fn asset_list_json(s: Seq<AssetView>) -> Seq<char> {
    list_text(s.map_values(|x: AssetView| asset_json(x)))
}

fn asset_list_text(v: &Vec<Asset>) -> (r: String)
    ensures
        r@ == asset_list_json(v.deep_view()),
{
    make_list(&map_all(v, asset_text, Ghost(|x: AssetView| asset_json(x))))
}

/// A guid that no package holds.
#[verifier::opaque]
pub open spec fn unresolved_json(u: UnresolvedView) -> Seq<char> {
    object_text(
        seq![
            field_text("guid"@, json_text_of(u.guid)),
            field_text("label"@, option_text(u.label)),
            field_text("referrers"@, texts_json(u.referrers)),
        ],
    )
}

fn unresolved_text(u: &Unresolved) -> (r: String)
    ensures
        r@ == unresolved_json(u@),
{
    proof {
        reveal(unresolved_json);
    }
    let mut f = no_fields();
    push_text(&mut f, "guid", u.guid.as_str());
    push_option(&mut f, "label", &u.label);
    push_field(&mut f, "referrers", texts_text(&u.referrers).as_str());
    assert(f.deep_view() =~= seq![
        field_text("guid"@, json_text_of(u@.guid)),
        field_text("label"@, option_text(u@.label)),
        field_text("referrers"@, texts_json(u@.referrers)),
    ]);
    make_object(&f)
}

/// Guids that no package holds.
pub open spec fn unresolved_list_json(s: Seq<UnresolvedView>) -> Seq<char> {
    list_text(s.map_values(|x: UnresolvedView| unresolved_json(x)))
}

fn unresolved_list_text(v: &Vec<Unresolved>) -> (r: String)
    ensures
        r@ == unresolved_list_json(v.deep_view()),
{
    make_list(&map_all(v, unresolved_text, Ghost(|x: UnresolvedView| unresolved_json(x))))
}

/// A package by id and name.
#[verifier::opaque]
pub open spec fn package_ref_json(p: PackageRefView) -> Seq<char> {
    object_text(
        seq![
            field_text("id"@, signed_numeral(p.id as int)),
            field_text("name"@, json_text_of(p.name)),
        ],
    )
}

fn package_ref_text(p: &PackageRef) -> (r: String)
    ensures
        r@ == package_ref_json(p@),
{
    proof {
        reveal(package_ref_json);
    }
    let mut f = no_fields();
    push_int(&mut f, "id", p.id);
    push_text(&mut f, "name", p.name.as_str());
    assert(f.deep_view() =~= seq![
        field_text("id"@, signed_numeral(p@.id as int)),
        field_text("name"@, json_text_of(p@.name)),
    ]);
    make_object(&f)
}

/// Packages by id and name.
pub open spec fn package_ref_list_json(s: Seq<PackageRefView>) -> Seq<char> {
    list_text(s.map_values(|x: PackageRefView| package_ref_json(x)))
}

fn package_ref_list_text(v: &Vec<PackageRef>) -> (r: String)
    ensures
        r@ == package_ref_list_json(v.deep_view()),
{
    make_list(&map_all(v, package_ref_text, Ghost(|x: PackageRefView| package_ref_json(x))))
}

/// An asset that was asked for.
#[verifier::opaque]
pub open spec fn root_ref_json(p: RootRefView) -> Seq<char> {
    object_text(
        seq![
            field_text("guid"@, json_text_of(p.guid)),
            field_text("path"@, json_text_of(p.path)),
            field_text("package"@, json_text_of(p.package)),
        ],
    )
}

fn root_ref_text(p: &RootRef) -> (r: String)
    ensures
        r@ == root_ref_json(p@),
{
    proof {
        reveal(root_ref_json);
    }
    let mut f = no_fields();
    push_text(&mut f, "guid", p.guid.as_str());
    push_text(&mut f, "path", p.path.as_str());
    push_text(&mut f, "package", p.package.as_str());
    assert(f.deep_view() =~= seq![
        field_text("guid"@, json_text_of(p@.guid)),
        field_text("path"@, json_text_of(p@.path)),
        field_text("package"@, json_text_of(p@.package)),
    ]);
    make_object(&f)
}

/// The assets that were asked for.
pub open spec fn root_ref_list_json(s: Seq<RootRefView>) -> Seq<char> {
    list_text(s.map_values(|x: RootRefView| root_ref_json(x)))
}

fn root_ref_list_text(v: &Vec<RootRef>) -> (r: String)
    ensures
        r@ == root_ref_list_json(v.deep_view()),
{
    make_list(&map_all(v, root_ref_text, Ghost(|x: RootRefView| root_ref_json(x))))
}

/// A file that was written.
#[verifier::opaque]
pub open spec fn written_json(x: WrittenFileView) -> Seq<char> {
    object_text(
        seq![
            field_text("guid"@, json_text_of(x.guid)),
            field_text("path"@, json_text_of(x.path)),
            field_text("bytes"@, signed_numeral(x.bytes as int)),
        ],
    )
}

fn written_text(x: &WrittenFile) -> (r: String)
    ensures
        r@ == written_json(x@),
{
    proof {
        reveal(written_json);
    }
    let mut f = no_fields();
    push_text(&mut f, "guid", x.guid.as_str());
    push_text(&mut f, "path", x.path.as_str());
    push_int(&mut f, "bytes", x.bytes);
    assert(f.deep_view() =~= seq![
        field_text("guid"@, json_text_of(x@.guid)),
        field_text("path"@, json_text_of(x@.path)),
        field_text("bytes"@, signed_numeral(x@.bytes as int)),
    ]);
    make_object(&f)
}

/// Files that were written.
pub open spec fn written_list_json(s: Seq<WrittenFileView>) -> Seq<char> {
    list_text(s.map_values(|x: WrittenFileView| written_json(x)))
}

fn written_list_text(v: &Vec<WrittenFile>) -> (r: String)
    ensures
        r@ == written_list_json(v.deep_view()),
{
    make_list(&map_all(v, written_text, Ghost(|x: WrittenFileView| written_json(x))))
}

/// A guid that the project has at another path.
#[verifier::opaque]
pub open spec fn conflict_json(c: ConflictView) -> Seq<char> {
    object_text(
        seq![
            field_text("guid"@, json_text_of(c.guid)),
            field_text("path"@, json_text_of(c.path)),
            field_text("existing_path"@, json_text_of(c.existing_path)),
        ],
    )
}

fn conflict_text(c: &Conflict) -> (r: String)
    ensures
        r@ == conflict_json(c@),
{
    proof {
        reveal(conflict_json);
    }
    let mut f = no_fields();
    push_text(&mut f, "guid", c.guid.as_str());
    push_text(&mut f, "path", c.path.as_str());
    push_text(&mut f, "existing_path", c.existing_path.as_str());
    assert(f.deep_view() =~= seq![
        field_text("guid"@, json_text_of(c@.guid)),
        field_text("path"@, json_text_of(c@.path)),
        field_text("existing_path"@, json_text_of(c@.existing_path)),
    ]);
    make_object(&f)
}

/// Guids that the project has at other paths.
pub open spec fn conflict_list_json(s: Seq<ConflictView>) -> Seq<char> {
    list_text(s.map_values(|x: ConflictView| conflict_json(x)))
}

fn conflict_list_text(v: &Vec<Conflict>) -> (r: String)
    ensures
        r@ == conflict_list_json(v.deep_view()),
{
    make_list(&map_all(v, conflict_text, Ghost(|x: ConflictView| conflict_json(x))))
}

/// An asset of which something is missing.
#[verifier::opaque]
pub open spec fn missing_json(m: MissingMemberView) -> Seq<char> {
    object_text(
        seq![
            field_text("guid"@, json_text_of(m.guid)),
            field_text("path"@, json_text_of(m.path)),
            field_text("got"@, texts_json(m.got)),
        ],
    )
}

fn missing_text(m: &MissingMember) -> (r: String)
    ensures
        r@ == missing_json(m@),
{
    proof {
        reveal(missing_json);
    }
    let mut f = no_fields();
    push_text(&mut f, "guid", m.guid.as_str());
    push_text(&mut f, "path", m.path.as_str());
    push_field(&mut f, "got", texts_text(&m.got).as_str());
    assert(f.deep_view() =~= seq![
        field_text("guid"@, json_text_of(m@.guid)),
        field_text("path"@, json_text_of(m@.path)),
        field_text("got"@, texts_json(m@.got)),
    ]);
    make_object(&f)
}

/// Assets of which something is missing.
pub open spec fn missing_list_json(s: Seq<MissingMemberView>) -> Seq<char> {
    list_text(s.map_values(|x: MissingMemberView| missing_json(x)))
}

fn missing_list_text(v: &Vec<MissingMember>) -> (r: String)
    ensures
        r@ == missing_list_json(v.deep_view()),
{
    make_list(&map_all(v, missing_text, Ghost(|x: MissingMemberView| missing_json(x))))
}

/// A node of a closure: its asset, and how it was reached.
pub open spec fn closure_asset_json(n: ClosureAssetView) -> Seq<char> {
    object_text(
        asset_fields(n.asset) + seq![
            field_text("depth"@, numeral(n.depth as nat)),
            field_text("via"@, option_text(n.via)),
            field_text("also_in_packages"@, ints_json(n.also_in_packages)),
        ],
    )
}

fn closure_asset_text(n: &ClosureAsset) -> (r: String)
    ensures
        r@ == closure_asset_json(n@),
{
    let mut f = asset_parts(&n.asset);
    push_field(&mut f, "depth", decimal(n.depth as u64).as_str());
    push_option(&mut f, "via", &n.via);
    push_field(&mut f, "also_in_packages", ints_text(&n.also_in_packages).as_str());
    assert(f.deep_view() =~= asset_fields(n@.asset) + seq![
        field_text("depth"@, numeral(n@.depth as nat)),
        field_text("via"@, option_text(n@.via)),
        field_text("also_in_packages"@, ints_json(n@.also_in_packages)),
    ]);
    make_object(&f)
}

/// The nodes of a closure.
pub open spec fn closure_asset_list_json(s: Seq<ClosureAssetView>) -> Seq<char> {
    list_text(s.map_values(|x: ClosureAssetView| closure_asset_json(x)))
}

fn closure_asset_list_text(v: &Vec<ClosureAsset>) -> (r: String)
    ensures
        r@ == closure_asset_list_json(v.deep_view()),
{
    make_list(&map_all(v, closure_asset_text, Ghost(|x: ClosureAssetView| closure_asset_json(x))))
}

// ----- results -------------------------------------------------------------------------------

/// What `asset_info` gives: the asset, its direct dependencies, and the first of those that use it.
pub open spec fn info_json(info: AssetInfoView) -> Seq<char> {
    object_text(
        asset_fields(info.asset) + seq![
            field_text("direct_dependencies"@, refs_text_json(info.refs)),
            field_text("used_by"@, users_text_json(info.referrers)),
        ],
    )
}

pub fn info_text(info: &AssetInfo) -> (r: String)
    ensures
        r@ == info_json(info@),
{
    let mut f = asset_parts(&info.asset);
    push_field(&mut f, "direct_dependencies", refs_text(&info.refs).as_str());
    push_field(&mut f, "used_by", users_text(&info.referrers).as_str());
    assert(f.deep_view() =~= asset_fields(info@.asset) + seq![
        field_text("direct_dependencies"@, refs_text_json(info@.refs)),
        field_text("used_by"@, users_text_json(info@.referrers)),
    ]);
    make_object(&f)
}

/// What `dependencies` gives: the closure without its edges.
#[verifier::opaque]
pub open spec fn deps_json(cl: ClosureOutView) -> Seq<char> {
    object_text(
        seq![
            field_text("roots"@, texts_json(cl.roots)),
            field_text("assets"@, closure_asset_list_json(cl.assets)),
            field_text("unresolved"@, unresolved_list_json(cl.unresolved)),
            field_text("skipped_scripts"@, asset_list_json(cl.skipped_scripts)),
            field_text("total_bytes"@, signed_numeral(cl.total_bytes as int)),
            field_text("package_ids"@, ints_json(cl.package_ids)),
            field_text("packages"@, package_ref_list_json(cl.packages)),
        ],
    )
}

pub fn deps_text(cl: &ClosureOut) -> (r: String)
    ensures
        r@ == deps_json(cl@),
{
    proof {
        reveal(deps_json);
    }
    let mut f = no_fields();
    push_field(&mut f, "roots", texts_text(&cl.roots).as_str());
    push_field(&mut f, "assets", closure_asset_list_text(&cl.assets).as_str());
    push_field(&mut f, "unresolved", unresolved_list_text(&cl.unresolved).as_str());
    push_field(&mut f, "skipped_scripts", asset_list_text(&cl.skipped_scripts).as_str());
    push_int(&mut f, "total_bytes", cl.total_bytes);
    push_field(&mut f, "package_ids", ints_text(&cl.package_ids).as_str());
    push_field(&mut f, "packages", package_ref_list_text(&cl.packages).as_str());
    assert(f.deep_view() =~= seq![
        field_text("roots"@, texts_json(cl@.roots)),
        field_text("assets"@, closure_asset_list_json(cl@.assets)),
        field_text("unresolved"@, unresolved_list_json(cl@.unresolved)),
        field_text("skipped_scripts"@, asset_list_json(cl@.skipped_scripts)),
        field_text("total_bytes"@, signed_numeral(cl@.total_bytes as int)),
        field_text("package_ids"@, ints_json(cl@.package_ids)),
        field_text("packages"@, package_ref_list_json(cl@.packages)),
    ]);
    make_object(&f)
}

/// What an export came to; `seconds` spells how long it took.
#[verifier::opaque]
pub open spec fn result_json(x: ExportResultView, seconds: Seq<char>) -> Seq<char> {
    object_text(
        seq![
            field_text("output"@, json_text_of(x.output)),
            field_text("dry_run"@, bool_text(x.dry_run)),
            field_text("bytes_written"@, signed_numeral(x.bytes_written as int)),
            field_text("seconds"@, seconds),
            field_text("written"@, written_list_json(x.written)),
            field_text("skipped_existing"@, written_list_json(x.skipped_existing)),
            field_text("conflicts"@, conflict_list_json(x.conflicts)),
            field_text("missing_in_package"@, missing_list_json(x.missing_in_package)),
        ],
    )
}

fn result_text(x: &ExportResult, seconds: &str) -> (r: String)
    ensures
        r@ == result_json(x@, seconds@),
{
    proof {
        reveal(result_json);
    }
    let mut f = no_fields();
    push_text(&mut f, "output", x.output.as_str());
    push_bool(&mut f, "dry_run", x.dry_run);
    push_int(&mut f, "bytes_written", x.bytes_written);
    push_field(&mut f, "seconds", seconds);
    push_field(&mut f, "written", written_list_text(&x.written).as_str());
    push_field(&mut f, "skipped_existing", written_list_text(&x.skipped_existing).as_str());
    push_field(&mut f, "conflicts", conflict_list_text(&x.conflicts).as_str());
    push_field(&mut f, "missing_in_package", missing_list_text(&x.missing_in_package).as_str());
    assert(f.deep_view() =~= seq![
        field_text("output"@, json_text_of(x@.output)),
        field_text("dry_run"@, bool_text(x@.dry_run)),
        field_text("bytes_written"@, signed_numeral(x@.bytes_written as int)),
        field_text("seconds"@, seconds@),
        field_text("written"@, written_list_json(x@.written)),
        field_text("skipped_existing"@, written_list_json(x@.skipped_existing)),
        field_text("conflicts"@, conflict_list_json(x@.conflicts)),
        field_text("missing_in_package"@, missing_list_json(x@.missing_in_package)),
    ]);
    make_object(&f)
}

/// What `export_assets` gives: the plan without its list of assets, and what came of it. `seconds`
/// spells how long it took.
#[verifier::opaque]
pub open spec fn export_json(x: ExportOutView, seconds: Seq<char>) -> Seq<char> {
    object_text(
        seq![
            field_text("roots"@, root_ref_list_json(x.plan.roots)),
            field_text("planned"@, numeral(x.plan.planned as nat)),
            field_text("planned_bytes"@, signed_numeral(x.plan.planned_bytes as int)),
            field_text("packages"@, texts_json(x.plan.packages)),
            field_text("warnings"@, texts_json(x.plan.warnings)),
            field_text("unresolved"@, unresolved_list_json(x.plan.unresolved)),
            field_text("scripts"@, texts_json(x.plan.scripts)),
            field_text("skipped_scripts"@, texts_json(x.plan.skipped_scripts)),
            field_text("result"@, result_json(x.result, seconds)),
        ],
    )
}

pub fn export_text(x: &ExportOut, seconds: &str) -> (r: String)
    ensures
        r@ == export_json(x@, seconds@),
{
    proof {
        reveal(export_json);
    }
    let mut f = no_fields();
    push_field(&mut f, "roots", root_ref_list_text(&x.plan.roots).as_str());
    push_field(&mut f, "planned", decimal_usize(x.plan.planned).as_str());
    push_int(&mut f, "planned_bytes", x.plan.planned_bytes);
    push_field(&mut f, "packages", texts_text(&x.plan.packages).as_str());
    push_field(&mut f, "warnings", texts_text(&x.plan.warnings).as_str());
    push_field(&mut f, "unresolved", unresolved_list_text(&x.plan.unresolved).as_str());
    push_field(&mut f, "scripts", texts_text(&x.plan.scripts).as_str());
    push_field(&mut f, "skipped_scripts", texts_text(&x.plan.skipped_scripts).as_str());
    push_field(&mut f, "result", result_text(&x.result, seconds).as_str());
    assert(f.deep_view() =~= seq![
        field_text("roots"@, root_ref_list_json(x@.plan.roots)),
        field_text("planned"@, numeral(x@.plan.planned as nat)),
        field_text("planned_bytes"@, signed_numeral(x@.plan.planned_bytes as int)),
        field_text("packages"@, texts_json(x@.plan.packages)),
        field_text("warnings"@, texts_json(x@.plan.warnings)),
        field_text("unresolved"@, unresolved_list_json(x@.plan.unresolved)),
        field_text("scripts"@, texts_json(x@.plan.scripts)),
        field_text("skipped_scripts"@, texts_json(x@.plan.skipped_scripts)),
        field_text("result"@, result_json(x@.result, seconds@)),
    ]);
    make_object(&f)
}

/// What `read_text_asset` gives.
#[verifier::opaque]
pub open spec fn text_out_json(t: TextOutView) -> Seq<char> {
    object_text(
        seq![
            field_text("guid"@, json_text_of(t.guid)),
            field_text("path"@, json_text_of(t.path)),
            field_text("text"@, json_text_of(t.text)),
            field_text("truncated"@, bool_text(t.truncated)),
        ],
    )
}

pub fn text_out_text(t: &TextOut) -> (r: String)
    ensures
        r@ == text_out_json(t@),
{
    proof {
        reveal(text_out_json);
    }
    let mut f = no_fields();
    push_text(&mut f, "guid", t.guid.as_str());
    push_text(&mut f, "path", t.path.as_str());
    push_text(&mut f, "text", t.text.as_str());
    push_bool(&mut f, "truncated", t.truncated);
    assert(f.deep_view() =~= seq![
        field_text("guid"@, json_text_of(t@.guid)),
        field_text("path"@, json_text_of(t@.path)),
        field_text("text"@, json_text_of(t@.text)),
        field_text("truncated"@, bool_text(t@.truncated)),
    ]);
    make_object(&f)
}

// ----- settings ------------------------------------------------------------------------------

/// The settings as fields, by name: what is configured, and how large the index is or why that is
/// not known.
#[verifier::opaque]
pub open spec fn config_fields(
    cfg: ConfigView,
    mounted: bool,
    stats: Result<StatsView, Seq<char>>,
    version: Seq<char>,
) -> Seq<Seq<char>> {
    let db = joined_path(cfg.home, "index.db"@);
    let previews_db = joined_path(cfg.home, "previews.db"@);
    let cache = joined_path(cfg.home, "cache"@);
    match stats {
        Ok(s) => seq![
            field_text("assets"@, signed_numeral(s.assets as int)),
            field_text("bytes"@, signed_numeral(s.bytes as int)),
            field_text("cache_dir"@, json_text_of(cache)),
            field_text("db"@, json_text_of(db)),
            field_text("fts"@, bool_text(s.fts)),
            field_text("home"@, json_text_of(cfg.home)),
            field_text("library"@, json_text_of(cfg.library)),
            field_text("library_mounted"@, bool_text(mounted)),
            field_text("packages"@, signed_numeral(s.packages as int)),
            field_text("previews"@, signed_numeral(s.previews as int)),
            field_text("previews_db"@, json_text_of(previews_db)),
            field_text("refs"@, signed_numeral(s.refs as int)),
            field_text("server"@, option_text(cfg.server)),
            field_text("version"@, json_text_of(version)),
        ],
        Err(e) => seq![
            field_text("cache_dir"@, json_text_of(cache)),
            field_text("db"@, json_text_of(db)),
            field_text("home"@, json_text_of(cfg.home)),
            field_text("library"@, json_text_of(cfg.library)),
            field_text("library_mounted"@, bool_text(mounted)),
            field_text("previews_db"@, json_text_of(previews_db)),
            field_text("server"@, option_text(cfg.server)),
            field_text("stats_error"@, json_text_of(e)),
            field_text("version"@, json_text_of(version)),
        ],
    }
}

/// The settings as JSON; `mounted` says whether the library is there, `stats` how large the index is
/// or why that is not known.
pub fn config_text(cfg: &Config, mounted: bool, stats: &Result<Stats, String>, version: &str) -> (r: String)
    ensures
        r@ == object_text(config_fields(cfg@, mounted, stats_outcome(*stats), version@)),
{
    let db = cfg.db_path();
    let previews_db = cfg.previews_path();
    let cache = cfg.cache_dir();
    let mut f = no_fields();
    match stats {
        Ok(s) => {
            push_int(&mut f, "assets", s.assets);
            push_int(&mut f, "bytes", s.bytes);
            push_text(&mut f, "cache_dir", cache.as_str());
            push_text(&mut f, "db", db.as_str());
            push_bool(&mut f, "fts", s.fts);
            push_text(&mut f, "home", cfg.home.as_str());
            push_text(&mut f, "library", cfg.library.as_str());
            push_bool(&mut f, "library_mounted", mounted);
            push_int(&mut f, "packages", s.packages);
            push_int(&mut f, "previews", s.previews);
            push_text(&mut f, "previews_db", previews_db.as_str());
            push_int(&mut f, "refs", s.refs);
            push_option(&mut f, "server", &cfg.server);
            push_text(&mut f, "version", version);
        },
        Err(e) => {
            push_text(&mut f, "cache_dir", cache.as_str());
            push_text(&mut f, "db", db.as_str());
            push_text(&mut f, "home", cfg.home.as_str());
            push_text(&mut f, "library", cfg.library.as_str());
            push_bool(&mut f, "library_mounted", mounted);
            push_text(&mut f, "previews_db", previews_db.as_str());
            push_option(&mut f, "server", &cfg.server);
            push_text(&mut f, "stats_error", e.as_str());
            push_text(&mut f, "version", version);
        },
    }
    proof {
        reveal(config_fields);
        assert(f.deep_view() =~= config_fields(cfg@, mounted, stats_outcome(*stats), version@));
    }
    make_object(&f)
}

// ----- messages ------------------------------------------------------------------------------

/// A reply: the message that it answers, and its result.
pub open spec fn reply_json(id: Seq<char>, result: Seq<char>) -> Seq<char> {
    object_text(
        seq![field_text("jsonrpc"@, json_text_of("2.0"@)), field_text("id"@, id), field_text("result"@, result)],
    )
}

fn reply_text(id: &str, result: &str) -> (r: String)
    ensures
        r@ == reply_json(id@, result@),
{
    let mut f = no_fields();
    push_text(&mut f, "jsonrpc", "2.0");
    push_field(&mut f, "id", id);
    push_field(&mut f, "result", result);
    assert(f.deep_view() =~= seq![
        field_text("jsonrpc"@, json_text_of("2.0"@)),
        field_text("id"@, id@),
        field_text("result"@, result@),
    ]);
    make_object(&f)
}

/// A reply that something is wrong: a code and a message.
pub open spec fn trouble_json(id: Seq<char>, code: int, message: Seq<char>) -> Seq<char> {
    let error = object_text(
        seq![field_text("code"@, signed_numeral(code)), field_text("message"@, json_text_of(message))],
    );
    object_text(
        seq![field_text("jsonrpc"@, json_text_of("2.0"@)), field_text("id"@, id), field_text("error"@, error)],
    )
}

fn trouble_text(id: &str, code: i64, message: &str) -> (r: String)
    ensures
        r@ == trouble_json(id@, code as int, message@),
{
    let mut e = no_fields();
    push_int(&mut e, "code", code);
    push_text(&mut e, "message", message);
    assert(e.deep_view() =~= seq![
        field_text("code"@, signed_numeral(code as int)),
        field_text("message"@, json_text_of(message@)),
    ]);
    let error = make_object(&e);
    let mut f = no_fields();
    push_text(&mut f, "jsonrpc", "2.0");
    push_field(&mut f, "id", id);
    push_field(&mut f, "error", error.as_str());
    assert(f.deep_view() =~= seq![
        field_text("jsonrpc"@, json_text_of("2.0"@)),
        field_text("id"@, id@),
        field_text("error"@, error@),
    ]);
    make_object(&f)
}

/// What the server says of itself, and the protocol version that it speaks.
pub open spec fn welcome_json(protocol: Seq<char>, version: Seq<char>) -> Seq<char> {
    let info = object_text(
        seq![field_text("name"@, json_text_of("unity-asset-index"@)), field_text("version"@, json_text_of(version))],
    );
    object_text(
        seq![
            field_text("protocolVersion"@, json_text_of(protocol)),
            field_text("capabilities"@, "{\"tools\":{\"listChanged\":false}}"@),
            field_text("serverInfo"@, info),
            field_text("instructions"@, json_text_of(INSTRUCTIONS@)),
        ],
    )
}

fn welcome_text(protocol: &str, version: &str) -> (r: String)
    ensures
        r@ == welcome_json(protocol@, version@),
{
    let mut i = no_fields();
    push_text(&mut i, "name", "unity-asset-index");
    push_text(&mut i, "version", version);
    assert(i.deep_view() =~= seq![
        field_text("name"@, json_text_of("unity-asset-index"@)),
        field_text("version"@, json_text_of(version@)),
    ]);
    let info = make_object(&i);
    let mut f = no_fields();
    push_text(&mut f, "protocolVersion", protocol);
    push_field(&mut f, "capabilities", "{\"tools\":{\"listChanged\":false}}");
    push_field(&mut f, "serverInfo", info.as_str());
    push_text(&mut f, "instructions", INSTRUCTIONS);
    assert(f.deep_view() =~= seq![
        field_text("protocolVersion"@, json_text_of(protocol@)),
        field_text("capabilities"@, "{\"tools\":{\"listChanged\":false}}"@),
        field_text("serverInfo"@, info@),
        field_text("instructions"@, json_text_of(INSTRUCTIONS@)),
    ]);
    make_object(&f)
}

/// What is done about a message.
#[derive(Debug)]
pub enum Answer {
    /// Nothing.
    Silence,
    /// A line goes back.
    Line(String),
    /// A tool is called; `args` spells its arguments.
    Call { id: String, name: String, args: String },
}

/// What an [`Answer`] holds.
#[verifier::ext_equal]
pub enum AnswerView {
    Silence,
    Line(Seq<char>),
    Call { id: Seq<char>, name: Seq<char>, args: Seq<char> },
}

impl View for Answer {
    type V = AnswerView;

    open spec fn view(&self) -> AnswerView {
        match self {
            Answer::Silence => AnswerView::Silence,
            Answer::Line(t) => AnswerView::Line(t@),
            Answer::Call { id, name, args } => AnswerView::Call { id: id@, name: name@, args: args@ },
        }
    }
}

/// What is done about a message, by a server of some version.
pub open spec fn answer_of(m: MessageView, version: Seq<char>) -> AnswerView {
    match m {
        MessageView::Malformed(words) => AnswerView::Line(trouble_json("null"@, -32700, "parse error: "@ + words)),
        MessageView::Notification => AnswerView::Silence,
        MessageView::Initialize { id, protocol } => AnswerView::Line(
            reply_json(id, welcome_json(protocol_for(protocol), version)),
        ),
        MessageView::Ping { id } => AnswerView::Line(reply_json(id, "{}"@)),
        MessageView::ListTools { id } => AnswerView::Line(
            reply_json(id, object_text(seq![field_text("tools"@, tools_json())])),
        ),
        MessageView::CallTool { id, name, args } => AnswerView::Call { id, name, args },
        MessageView::ListResources { id } => AnswerView::Line(reply_json(id, "{\"resources\":[]}"@)),
        MessageView::ListPrompts { id } => AnswerView::Line(reply_json(id, "{\"prompts\":[]}"@)),
        MessageView::Unknown { id, method } => AnswerView::Line(
            trouble_json(id, -32601, "method not found: "@ + method),
        ),
    }
}

/// What is done about a message.
pub fn answer(m: Message, version: &str) -> (r: Answer)
    ensures
        r@ == answer_of(m@, version@),
{
    match m {
        Message::Malformed(words) => Answer::Line(
            trouble_text("null", -32700, crate::text::cat("parse error: ", words.as_str()).as_str()),
        ),
        Message::Notification => Answer::Silence,
        Message::Initialize { id, protocol } => {
            let spoken = choose_protocol(protocol.as_str());
            let result = welcome_text(spoken.as_str(), version);
            Answer::Line(reply_text(id.as_str(), result.as_str()))
        },
        Message::Ping { id } => Answer::Line(reply_text(id.as_str(), "{}")),
        Message::ListTools { id } => {
            let mut f = no_fields();
            push_field(&mut f, "tools", tools().as_str());
            assert(f.deep_view() =~= seq![field_text("tools"@, tools_json())]);
            Answer::Line(reply_text(id.as_str(), make_object(&f).as_str()))
        },
        Message::CallTool { id, name, args } => Answer::Call { id, name, args },
        Message::ListResources { id } => Answer::Line(reply_text(id.as_str(), "{\"resources\":[]}")),
        Message::ListPrompts { id } => Answer::Line(reply_text(id.as_str(), "{\"prompts\":[]}")),
        Message::Unknown { id, method } => Answer::Line(
            trouble_text(id.as_str(), -32601, method_not_found(method.as_str()).as_str()),
        ),
    }
}

/// A text as the content of a result.
pub open spec fn content_json(text: Seq<char>) -> Seq<char> {
    list_text(
        seq![object_text(seq![field_text("type"@, json_text_of("text"@)), field_text("text"@, json_text_of(text))])],
    )
}

fn content_text(text: &str) -> (r: String)
    ensures
        r@ == content_json(text@),
{
    let mut f = no_fields();
    push_text(&mut f, "type", "text");
    push_text(&mut f, "text", text);
    assert(f.deep_view() =~= seq![
        field_text("type"@, json_text_of("text"@)),
        field_text("text"@, json_text_of(text@)),
    ]);
    let o = make_object(&f);
    let mut l = no_fields();
    let ghost ov = o@;
    l.push(o);
    assert(l.deep_view() =~= seq![ov]);
    make_list(&l)
}

/// A value as a text to read.
pub open spec fn shown_json(value: Seq<char>) -> Seq<char> {
    match json_pretty_of(value) {
        Some(t) => t,
        None => Seq::empty(),
    }
}

/// The result of a tool call: what the tool gave, spelled out and as a text to read, or what went
/// wrong.
pub open spec fn tool_result_json(given: Result<Seq<char>, ErrorView>) -> Seq<char> {
    match given {
        Ok(value) => object_text(
            seq![
                field_text("content"@, content_json(shown_json(value))),
                field_text("structuredContent"@, value),
                field_text("isError"@, "false"@),
            ],
        ),
        Err(e) => object_text(
            seq![field_text("content"@, content_json(failure_of(e))), field_text("isError"@, "true"@)],
        ),
    }
}

fn tool_result(given: &Result<String, Error>) -> (r: String)
    ensures
        r@ == tool_result_json(outcome(*given)),
{
    let mut f = no_fields();
    match given {
        Ok(value) => {
            let readable = match json_pretty(value.as_str()) {
                Some(t) => t,
                None => String::new(),
            };
            assert(readable@ =~= shown_json(value@));
            push_field(&mut f, "content", content_text(readable.as_str()).as_str());
            push_field(&mut f, "structuredContent", value.as_str());
            push_field(&mut f, "isError", "false");
            assert(f.deep_view() =~= seq![
                field_text("content"@, content_json(shown_json(value@))),
                field_text("structuredContent"@, value@),
                field_text("isError"@, "false"@),
            ]);
            make_object(&f)
        },
        Err(e) => {
            push_field(&mut f, "content", content_text(failure_text(e).as_str()).as_str());
            push_field(&mut f, "isError", "true");
            assert(f.deep_view() =~= seq![
                field_text("content"@, content_json(failure_of(e@))),
                field_text("isError"@, "true"@),
            ]);
            make_object(&f)
        },
    }
}

/// The line that answers a tool call.
pub fn call_reply(id: &str, given: &Result<String, Error>) -> (r: String)
    ensures
        r@ == reply_json(id@, tool_result_json(outcome(*given))),
{
    reply_text(id, tool_result(given).as_str())
}

} // verus!
