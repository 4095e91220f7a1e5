//! Remote mode: what is asked of a `uai serve` instance, and what its answers mean.

use vstd::prelude::*;
use vstd::string::*;

use crate::db::text_view;
use crate::error::{error_from, invalid, Error, ErrorView, UaiError};
use crate::exporter::{all_written, count_all, file_of, no_export};
use crate::model::{
    ApiError, ApiErrorView, Asset, AssetView, ExportResult, ExportResultView, SearchQuery, SearchQueryView,
    WrittenFile,
};
use crate::number::{decimal, decimal_usize, numeral};
use crate::outside::{quoted, quoted_of};
use crate::seqs::map_all;
use crate::service::{ExportDest, ExportDestView};
use crate::text::{cat, cat3, cut_back, starts, starts_with, trim, trim_back, trimmed, Sep};

verus! {

/// The base URL without white space around it and slashes at its end.
pub open spec fn base_of(base: Seq<char>) -> Seq<char> {
    trim_back(trim(base), Sep::Is('/'))
}

/// The base URL of a server.
pub fn check_base(base: &str) -> (r: Result<String, Error>)
    ensures
        starts(base_of(base@), "http://"@) || starts(base_of(base@), "https://"@) ==> (r matches Ok(b) && b@
            == base_of(base@)),
        !starts(base_of(base@), "http://"@) && !starts(base_of(base@), "https://"@) ==> (r matches Err(e) && e@
            == invalid(
            "server URL must start with http:// or https:// (got "@ + quoted_of(base_of(base@)) + ")"@,
        )),
{
    let b = cut_back(trimmed(base).as_str(), Sep::Is('/'));
    if starts_with(b.as_str(), "http://") || starts_with(b.as_str(), "https://") {
        Ok(b)
    } else {
        let q = quoted(b.as_str());
        Err(
            Error::User(
                UaiError::Invalid(
                    cat3("server URL must start with http:// or https:// (got ", q.as_str(), ")"),
                ),
            ),
        )
    }
}

/// The URL of a path on a server.
pub fn url(base: &str, path: &str) -> (r: String)
    ensures
        r@ == base@ + path@,
{
    cat(base, path)
}

// ----- queries -------------------------------------------------------------------------------

/// The parameters that say something.
pub open spec fn telling(pairs: Seq<(Seq<char>, Seq<char>)>) -> Seq<(Seq<char>, Seq<char>)>
    decreases pairs.len(),
{
    if pairs.len() == 0 {
        pairs
    } else if pairs.last().1.len() == 0 {
        telling(pairs.drop_last())
    } else {
        telling(pairs.drop_last()).push(pairs.last())
    }
}

pub open spec fn or_empty(o: Option<Seq<char>>) -> Seq<char> {
    match o {
        Some(s) => s,
        None => Seq::empty(),
    }
}

pub open spec fn limit_text(limit: Option<usize>) -> Seq<char> {
    match limit {
        Some(n) => numeral(n as nat),
        None => Seq::empty(),
    }
}

fn push_param(out: &mut Vec<(String, String)>, key: &str, value: &str, Ghost(pairs): Ghost<Seq<(Seq<char>, Seq<char>)>>)
    requires
        old(out).deep_view() == telling(pairs),
    ensures
        final(out).deep_view() == telling(pairs.push((key@, value@))),
{
    let ghost o0 = out.deep_view();
    assert(pairs.push((key@, value@)).drop_last() =~= pairs);
    if !value.is_empty() {
        out.push((key.to_string(), value.to_string()));
        assert(out.deep_view() =~= o0.push((key@, value@)));
    }
}

fn push_option(out: &mut Vec<(String, String)>, key: &str, value: Option<&str>, Ghost(pairs): Ghost<Seq<(Seq<char>, Seq<char>)>>)
    requires
        old(out).deep_view() == telling(pairs),
    ensures
        final(out).deep_view() == telling(pairs.push((key@, or_empty(text_view(value))))),
{
    match value {
        Some(v) => push_param(out, key, v, Ghost(pairs)),
        None => {
            proof {
                reveal_strlit("");
                assert(""@ =~= Seq::<char>::empty());
            }
            push_param(out, key, "", Ghost(pairs))
        },
    }
}

fn no_params() -> (r: Vec<(String, String)>)
    ensures
        r.deep_view() == telling(Seq::empty()),
{
    let r: Vec<(String, String)> = Vec::new();
    assert(r.deep_view() =~= Seq::<(Seq<char>, Seq<char>)>::empty());
    r
}

fn text_of_option(o: &Option<String>) -> (r: Option<&str>)
    ensures
        text_view(r) == o.deep_view(),
{
    match o {
        Some(s) => Some(s.as_str()),
        None => None,
    }
}

fn limit_param(limit: Option<usize>) -> (r: String)
    ensures
        r@ == limit_text(limit),
{
    match limit {
        Some(n) => decimal_usize(n),
        None => {
            let e = String::new();
            assert(e@ =~= Seq::<char>::empty());
            e
        },
    }
}

/// The parameters of a search.
pub open spec fn search_params(q: SearchQueryView) -> Seq<(Seq<char>, Seq<char>)> {
    telling(
        seq![
            ("q"@, q.query),
            ("kind"@, or_empty(q.kind)),
            ("package"@, or_empty(q.package)),
            ("publisher"@, or_empty(q.publisher)),
            ("ext"@, or_empty(q.ext)),
            (
                "folders"@,
                if q.include_folders {
                    "1"@
                } else {
                    Seq::empty()
                },
            ),
            ("limit"@, numeral(q.limit as nat)),
            (
                "offset"@,
                if q.offset > 0 {
                    numeral(q.offset as nat)
                } else {
                    Seq::empty()
                },
            ),
        ],
    )
}

pub fn search_query(q: &SearchQuery) -> (r: Vec<(String, String)>)
    ensures
        r.deep_view() == search_params(q@),
{
    let mut out = no_params();
    let ghost none: Seq<char> = Seq::empty();
    let ghost p0 = Seq::<(Seq<char>, Seq<char>)>::empty();
    let ghost p1 = p0.push(("q"@, q@.query));
    let ghost p2 = p1.push(("kind"@, or_empty(q@.kind)));
    let ghost p3 = p2.push(("package"@, or_empty(q@.package)));
    let ghost p4 = p3.push(("publisher"@, or_empty(q@.publisher)));
    let ghost p5 = p4.push(("ext"@, or_empty(q@.ext)));
    let ghost folders = if q@.include_folders { "1"@ } else { none };
    let ghost p6 = p5.push(("folders"@, folders));
    let ghost p7 = p6.push(("limit"@, numeral(q@.limit as nat)));
    let ghost offset = if q@.offset > 0 { numeral(q@.offset as nat) } else { none };
    let ghost p8 = p7.push(("offset"@, offset));
    push_param(&mut out, "q", q.query.as_str(), Ghost(p0));
    push_option(&mut out, "kind", text_of_option(&q.kind), Ghost(p1));
    push_option(&mut out, "package", text_of_option(&q.package), Ghost(p2));
    push_option(&mut out, "publisher", text_of_option(&q.publisher), Ghost(p3));
    push_option(&mut out, "ext", text_of_option(&q.ext), Ghost(p4));
    let f: Option<&str> = if q.include_folders {
        Some("1")
    } else {
        None
    };
    push_option(&mut out, "folders", f, Ghost(p5));
    push_param(&mut out, "limit", decimal_usize(q.limit).as_str(), Ghost(p6));
    let o: Option<usize> = if q.offset > 0 {
        Some(q.offset)
    } else {
        None
    };
    push_param(&mut out, "offset", limit_param(o).as_str(), Ghost(p7));
    proof {
        assert(p8 =~= seq![
            ("q"@, q@.query),
            ("kind"@, or_empty(q@.kind)),
            ("package"@, or_empty(q@.package)),
            ("publisher"@, or_empty(q@.publisher)),
            ("ext"@, or_empty(q@.ext)),
            ("folders"@, folders),
            ("limit"@, numeral(q@.limit as nat)),
            ("offset"@, offset),
        ]);
    }
    out
}

/// The parameters of a listing.
pub open spec fn ls_params(
    package: Seq<char>,
    prefix: Option<Seq<char>>,
    kind: Option<Seq<char>>,
    limit: Option<usize>,
) -> Seq<(Seq<char>, Seq<char>)> {
    telling(
        seq![
            ("package"@, package),
            ("prefix"@, or_empty(prefix)),
            ("kind"@, or_empty(kind)),
            ("limit"@, limit_text(limit)),
        ],
    )
}

pub fn ls_query(package: &str, prefix: Option<&str>, kind: Option<&str>, limit: Option<usize>) -> (r: Vec<(String, String)>)
    ensures
        r.deep_view() == ls_params(package@, text_view(prefix), text_view(kind), limit),
{
    let mut out = no_params();
    let ghost p0 = Seq::<(Seq<char>, Seq<char>)>::empty();
    let ghost p1 = p0.push(("package"@, package@));
    let ghost p2 = p1.push(("prefix"@, or_empty(text_view(prefix))));
    let ghost p3 = p2.push(("kind"@, or_empty(text_view(kind))));
    let ghost p4 = p3.push(("limit"@, limit_text(limit)));
    push_param(&mut out, "package", package, Ghost(p0));
    push_option(&mut out, "prefix", prefix, Ghost(p1));
    push_option(&mut out, "kind", kind, Ghost(p2));
    push_param(&mut out, "limit", limit_param(limit).as_str(), Ghost(p3));
    proof {
        assert(p4 =~= seq![
            ("package"@, package@),
            ("prefix"@, or_empty(text_view(prefix))),
            ("kind"@, or_empty(text_view(kind))),
            ("limit"@, limit_text(limit)),
        ]);
    }
    out
}

/// The parameters of a question about one asset: package, identifier, and one more.
pub open spec fn ident_params(package: Option<Seq<char>>, ident: Seq<char>, key: Seq<char>, value: Seq<char>) -> Seq<
    (Seq<char>, Seq<char>),
> {
    telling(seq![("package"@, or_empty(package)), ("ident"@, ident), (key, value)])
}

/// The parameters of a question about one asset; `value` is left out where it is empty.
pub fn ident_query(package: Option<&str>, ident: &str, key: &str, value: &str) -> (r: Vec<(String, String)>)
    ensures
        r.deep_view() == ident_params(text_view(package), ident@, key@, value@),
{
    let mut out = no_params();
    let ghost p0 = Seq::<(Seq<char>, Seq<char>)>::empty();
    let ghost p1 = p0.push(("package"@, or_empty(text_view(package))));
    let ghost p2 = p1.push(("ident"@, ident@));
    let ghost p3 = p2.push((key@, value@));
    push_option(&mut out, "package", package, Ghost(p0));
    push_param(&mut out, "ident", ident, Ghost(p1));
    push_param(&mut out, key, value, Ghost(p2));
    assert(p3 =~= seq![("package"@, or_empty(text_view(package))), ("ident"@, ident@), (key@, value@)]);
    out
}

/// The parameters of the question who refers to an asset.
pub fn rdeps_query(package: Option<&str>, ident: &str, limit: Option<usize>) -> (r: Vec<(String, String)>)
    ensures
        r.deep_view() == ident_params(text_view(package), ident@, "limit"@, limit_text(limit)),
{
    ident_query(package, ident, "limit", limit_param(limit).as_str())
}

/// The parameters of the question for the text of an asset.
pub fn text_query(package: Option<&str>, ident: &str, max_bytes: usize) -> (r: Vec<(String, String)>)
    ensures
        r.deep_view() == ident_params(text_view(package), ident@, "max_bytes"@, numeral(max_bytes as nat)),
{
    ident_query(package, ident, "max_bytes", decimal_usize(max_bytes).as_str())
}

// ----- answers -------------------------------------------------------------------------------

/// What an answer without a proper error payload is taken for.
pub open spec fn bare_api(status: u16, text: Seq<char>) -> ApiErrorView {
    ApiErrorView {
        error: "server returned HTTP "@ + numeral(status as nat) + ": "@ + trim(text),
        candidates: Seq::empty(),
        package_candidates: Seq::empty(),
    }
}

/// Whether an answer is a success; if not, the error it stands for. `api` is the error payload that
/// `text` spells, if it does.
pub fn check_answer(status: u16, text: &str, api: Option<ApiError>) -> (r: Result<(), Error>)
    ensures
        200 <= status < 300 ==> r is Ok,
        !(200 <= status < 300) ==> (r matches Err(e) && e@ == ErrorView::User(
            error_from(
                status,
                match api.deep_view() {
                    Some(a) => a,
                    None => bare_api(status, text@),
                },
            ),
        )),
{
    if 200 <= status && status < 300 {
        return Ok(());
    }
    let a = match api {
        Some(a) => a,
        None => {
            let mut m = cat3("server returned HTTP ", decimal(status as u64).as_str(), ": ");
            m.append(trimmed(text).as_str());
            let a = ApiError { error: m, candidates: Vec::new(), package_candidates: Vec::new() };
            assert(a@ =~= bare_api(status, text@));
            a
        },
    };
    Err(Error::User(UaiError::from_api(status, a)))
}

// ----- exports -------------------------------------------------------------------------------

pub open spec fn dest_path_of(dest: ExportDestView) -> Seq<char> {
    match dest {
        ExportDestView::Project(p) => p,
        ExportDestView::Dir(p) => p,
        ExportDestView::UnityPackage(p) => p,
    }
}

/// What a remote export would come to: everything is written.
pub fn rehearse_remote(assets: &Vec<Asset>, dest: &ExportDest) -> (r: ExportResult)
    ensures
        r@ == all_written(
            assets.deep_view(),
            (ExportResultView { output: dest_path_of(dest@), dry_run: true, ..no_export() }),
        ),
{
    let mut res = ExportResult::default();
    res.dry_run = true;
    res.output = match dest {
        ExportDest::Project(p) => p.clone(),
        ExportDest::Dir(p) => p.clone(),
        ExportDest::UnityPackage(p) => p.clone(),
    };
    count_all(assets, &mut res);
    res
}

/// What came of a package that was downloaded: as many bytes, and every planned asset.
pub fn downloaded(assets: &Vec<Asset>, out_file: &str, bytes: u64) -> (r: ExportResult)
    ensures
        r@ == (ExportResultView {
            output: out_file@,
            bytes_written: bytes as i64,
            written: assets.deep_view().map_values(|a: AssetView| file_of(a)),
            ..no_export()
        }),
{
    let note = |a: &Asset| -> (w: WrittenFile)
        ensures
            w@ == file_of(a@),
        { WrittenFile { guid: a.guid.clone(), path: a.path.clone(), bytes: a.size } };
    let written = map_all(assets, note, Ghost(|a: AssetView| file_of(a)));
    let mut res = ExportResult::default();
    res.output = out_file.to_string();
    res.bytes_written = bytes as i64;
    res.written = written;
    res
}

} // verus!
