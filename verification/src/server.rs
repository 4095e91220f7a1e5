//! The HTTP API: what a request asks for, and how an answer is labelled.

use vstd::prelude::*;
use vstd::string::*;

use crate::config::Config;
use crate::db::text_view;
use crate::error::{invalid, not_found, Error, ErrorView, UaiError};
use crate::model::{Asset, AssetView, SearchQuery, SearchQueryView, Stats, StatsView};
use crate::number::{decimal_i64, decimal_usize, numeral, signed_numeral};
use crate::seqs::{lemma_filter_none, lemma_filter_step};
use crate::text::{
    cat, cat3, chars_of, contains_text, find_last, lower, occurs, same_text, text_between, to_lower,
    trim, trimmed,
};

verus! {

/// Raw assets served for in-browser preview are capped at this size.
pub const RAW_MAX_BYTES: usize = 268_435_456;

// ----- parameters ----------------------------------------------------------------------------

/// The parameters of a search request.
#[derive(Debug)]
pub struct SearchParams {
    pub q: String,
    pub kind: Option<String>,
    pub package: Option<String>,
    pub publisher: Option<String>,
    pub ext: Option<String>,
    pub folders: Option<String>,
    pub limit: Option<usize>,
    pub offset: Option<usize>,
}

/// What a [`SearchParams`] holds.
#[verifier::ext_equal]
pub struct SearchParamsView {
    pub q: Seq<char>,
    pub kind: Option<Seq<char>>,
    pub package: Option<Seq<char>>,
    pub publisher: Option<Seq<char>>,
    pub ext: Option<Seq<char>>,
    pub folders: Option<Seq<char>>,
    pub limit: Option<usize>,
    pub offset: Option<usize>,
}

impl View for SearchParams {
    type V = SearchParamsView;

    open spec fn view(&self) -> SearchParamsView {
        SearchParamsView {
            q: self.q@,
            kind: self.kind.deep_view(),
            package: self.package.deep_view(),
            publisher: self.publisher.deep_view(),
            ext: self.ext.deep_view(),
            folders: self.folders.deep_view(),
            limit: self.limit,
            offset: self.offset,
        }
    }
}

impl DeepView for SearchParams {
    type V = SearchParamsView;

    open spec fn deep_view(&self) -> SearchParamsView {
        self.view()
    }
}

impl Clone for SearchParams {
    fn clone(&self) -> (r: Self)
        ensures
            r@ == self@,
    {
        let r = SearchParams {
            q: self.q.clone(),
            kind: self.kind.clone(),
            package: self.package.clone(),
            publisher: self.publisher.clone(),
            ext: self.ext.clone(),
            folders: self.folders.clone(),
            limit: self.limit,
            offset: self.offset,
        };
        assert(r.kind.deep_view() == self.kind.deep_view());
        assert(r.package.deep_view() == self.package.deep_view());
        assert(r.publisher.deep_view() == self.publisher.deep_view());
        assert(r.ext.deep_view() == self.ext.deep_view());
        assert(r.folders.deep_view() == self.folders.deep_view());
        r
    }
}

impl Default for SearchParams {
    fn default() -> (r: Self)
        ensures
            r@ == (SearchParamsView {
                q: Seq::empty(),
                kind: None,
                package: None,
                publisher: None,
                ext: None,
                folders: None,
                limit: None,
                offset: None,
            }),
    {
        let r = SearchParams {
            q: String::new(),
            kind: None,
            package: None,
            publisher: None,
            ext: None,
            folders: None,
            limit: None,
            offset: None,
        };
        r
    }
}

/// A parameter that is not blank.
pub open spec fn not_blank(p: Option<Seq<char>>) -> Option<Seq<char>> {
    match p {
        Some(s) => if trim(s).len() == 0 {
            None
        } else {
            Some(s)
        },
        None => None,
    }
}

pub fn pkg_opt(p: &Option<String>) -> (r: Option<&str>)
    ensures
        text_view(r) == not_blank(p.deep_view()),
{
    match p {
        Some(s) => if trimmed(s.as_str()).as_str().is_empty() {
            None
        } else {
            Some(s.as_str())
        },
        None => None,
    }
}

/// A parameter that is not empty.
pub open spec fn not_empty(p: Option<Seq<char>>) -> Option<Seq<char>> {
    match p {
        Some(s) => if s.len() == 0 {
            None
        } else {
            Some(s)
        },
        None => None,
    }
}

fn keep_filled(p: Option<String>) -> (r: Option<String>)
    ensures
        r.deep_view() == not_empty(p.deep_view()),
{
    match p {
        Some(s) => if s.as_str().is_empty() {
            None
        } else {
            Some(s)
        },
        None => None,
    }
}

/// Whether a parameter switches something on.
pub open spec fn is_on(v: Option<Seq<char>>) -> bool {
    v == Some("1"@) || v == Some("true"@)
}

pub fn flag(v: &Option<String>) -> (r: bool)
    ensures
        r == is_on(v.deep_view()),
{
    match v {
        Some(s) => same_text(s.as_str(), "1") || same_text(s.as_str(), "true"),
        None => false,
    }
}

/// How many hits a search gives: 50 where nothing is said, between 1 and 1000.
pub open spec fn search_size(limit: Option<usize>) -> usize {
    match limit {
        None => 50,
        Some(n) => if n < 1 {
            1
        } else if n > 1000 {
            1000
        } else {
            n
        },
    }
}

/// The search that a request asks for.
pub open spec fn query_of(p: SearchParamsView) -> SearchQueryView {
    SearchQueryView {
        query: p.q,
        kind: not_empty(p.kind),
        package: not_empty(p.package),
        publisher: not_empty(p.publisher),
        ext: not_empty(p.ext),
        include_folders: is_on(p.folders),
        limit: search_size(p.limit),
        offset: match p.offset {
            Some(n) => n,
            None => 0,
        },
    }
}

impl SearchParams {
    /// The search that a request asks for.
    pub fn into_query(self) -> (r: SearchQuery)
        ensures
            r@ == query_of(self@),
    {
        let include_folders = flag(&self.folders);
        let limit: usize = match self.limit {
            None => 50,
            Some(n) => if n < 1 {
                1
            } else if n > 1000 {
                1000
            } else {
                n
            },
        };
        let offset: usize = match self.offset {
            Some(n) => n,
            None => 0,
        };
        SearchQuery {
            query: self.q,
            kind: keep_filled(self.kind),
            package: keep_filled(self.package),
            publisher: keep_filled(self.publisher),
            ext: keep_filled(self.ext),
            include_folders,
            limit,
            offset,
        }
    }
}

/// How much text is given: 2 000 000 bytes where nothing is said, 64 MiB at most.
pub fn text_limit(max_bytes: Option<usize>) -> (r: usize)
    ensures
        r == (match max_bytes {
            None => 2_000_000,
            Some(n) => if n < 67_108_864 {
                n
            } else {
                67_108_864
            },
        }),
{
    match max_bytes {
        None => 2_000_000,
        Some(n) => if n < 67_108_864 {
            n
        } else {
            67_108_864
        },
    }
}

/// How many referrers are given: 200 where nothing is said.
pub fn rdeps_limit(limit: Option<usize>) -> (r: usize)
    ensures
        r == (match limit {
            None => 200,
            Some(n) => n,
        }),
{
    match limit {
        None => 200,
        Some(n) => n,
    }
}

/// The identifier of the asset with an id.
pub fn id_ident(id: i64) -> (r: String)
    ensures
        r@ == "#"@ + signed_numeral(id as int),
{
    cat("#", decimal_i64(id).as_str())
}

/// An identifier with the package in front of it, where one is given and none is in it.
pub open spec fn full_ident(ident: Seq<char>, package: Option<Seq<char>>) -> Seq<char> {
    match not_blank(package) {
        Some(p) => if occurs(ident, "::"@) {
            ident
        } else {
            p + "::"@ + ident
        },
        None => ident,
    }
}

pub fn raw_ident(ident: String, package: &Option<String>) -> (r: String)
    ensures
        r@ == full_ident(ident@, package.deep_view()),
{
    match pkg_opt(package) {
        Some(p) => if contains_text(ident.as_str(), "::") {
            ident
        } else {
            cat3(p, "::", ident.as_str())
        },
        None => ident,
    }
}

// ----- answers -------------------------------------------------------------------------------

/// The media type of a file, by its extension.
pub open spec fn mime_of(ext: Seq<char>) -> Seq<char> {
    let e = lower(ext);
    if e == "png"@ {
        "image/png"@
    } else if e == "jpg"@ || e == "jpeg"@ {
        "image/jpeg"@
    } else if e == "gif"@ {
        "image/gif"@
    } else if e == "webp"@ {
        "image/webp"@
    } else if e == "bmp"@ {
        "image/bmp"@
    } else if e == "svg"@ {
        "image/svg+xml"@
    } else if e == "wav"@ {
        "audio/wav"@
    } else if e == "mp3"@ {
        "audio/mpeg"@
    } else if e == "ogg"@ {
        "audio/ogg"@
    } else if e == "flac"@ {
        "audio/flac"@
    } else if e == "aif"@ || e == "aiff"@ {
        "audio/aiff"@
    } else if e == "mp4"@ {
        "video/mp4"@
    } else if e == "webm"@ {
        "video/webm"@
    } else if e == "mov"@ {
        "video/quicktime"@
    } else if e == "json"@ {
        "application/json"@
    } else if is_source(e) {
        "text/plain; charset=utf-8"@
    } else {
        "application/octet-stream"@
    }
}

/// The extensions of files that are shown as text.
pub open spec fn is_source(e: Seq<char>) -> bool {
    e == "txt"@ || e == "md"@ || e == "cs"@ || e == "shader"@ || e == "hlsl"@ || e == "cginc"@ || e == "prefab"@ || e
        == "mat"@ || e == "asset"@ || e == "unity"@ || e == "anim"@ || e == "controller"@
}

pub fn mime_for_ext(ext: &str) -> (r: &'static str)
    ensures
        r@ == mime_of(ext@),
{
    let e = to_lower(ext);
    let e = e.as_str();
    if same_text(e, "png") {
        "image/png"
    } else if same_text(e, "jpg") || same_text(e, "jpeg") {
        "image/jpeg"
    } else if same_text(e, "gif") {
        "image/gif"
    } else if same_text(e, "webp") {
        "image/webp"
    } else if same_text(e, "bmp") {
        "image/bmp"
    } else if same_text(e, "svg") {
        "image/svg+xml"
    } else if same_text(e, "wav") {
        "audio/wav"
    } else if same_text(e, "mp3") {
        "audio/mpeg"
    } else if same_text(e, "ogg") {
        "audio/ogg"
    } else if same_text(e, "flac") {
        "audio/flac"
    } else if same_text(e, "aif") || same_text(e, "aiff") {
        "audio/aiff"
    } else if same_text(e, "mp4") {
        "video/mp4"
    } else if same_text(e, "webm") {
        "video/webm"
    } else if same_text(e, "mov") {
        "video/quicktime"
    } else if same_text(e, "json") {
        "application/json"
    } else if same_text(e, "txt")
        || same_text(e, "md")
        || same_text(e, "cs")
        || same_text(e, "shader")
        || same_text(e, "hlsl")
        || same_text(e, "cginc")
        || same_text(e, "prefab")
        || same_text(e, "mat")
        || same_text(e, "asset")
        || same_text(e, "unity")
        || same_text(e, "anim")
        || same_text(e, "controller") {
        "text/plain; charset=utf-8"
    } else {
        "application/octet-stream"
    }
}

/// A text without certain characters.
pub open spec fn without(s: Seq<char>, bad: Seq<char>) -> Seq<char> {
    s.filter(|c: char| !bad.contains(c))
}

fn strip_chars(s: &str, bad: &Vec<char>) -> (r: String)
    ensures
        r@ == without(s@, bad@),
{
    let v = chars_of(s);
    let ghost p = |c: char| !bad@.contains(c);
    let mut r = String::new();
    let mut i: usize = 0;
    proof {
        lemma_filter_none(v@, p);
        assert(r@ =~= v@.take(0).filter(p));
    }
    while i < v.len()
        invariant
            i <= v@.len(),
            p == (|c: char| !bad@.contains(c)),
            r@ == v@.take(i as int).filter(p),
        decreases v@.len() - i,
    {
        proof {
            lemma_filter_step(v@, p, i as int);
        }
        let mut k: usize = 0;
        let mut drop = false;
        while k < bad.len()
            invariant
                k <= bad@.len(),
                i < v@.len(),
                drop == bad@.take(k as int).contains(v@[i as int]),
            decreases bad@.len() - k,
        {
            proof {
                let t = bad@.take(k + 1);
                assert(t =~= bad@.take(k as int).push(bad@[k as int]));
                if bad@.take(k as int).contains(v@[i as int]) {
                    let m = choose|m: int| 0 <= m < k && bad@.take(k as int)[m] == v@[i as int];
                    assert(t[m] == v@[i as int]);
                }
                if t.contains(v@[i as int]) {
                    let m = choose|m: int| 0 <= m < t.len() && t[m] == v@[i as int];
                    if m < k {
                        assert(bad@.take(k as int)[m] == v@[i as int]);
                    }
                }
                assert(t[k as int] == bad@[k as int]);
            }
            if bad[k] == v[i] {
                drop = true;
            }
            k += 1;
        }
        assert(bad@.take(bad@.len() as int) =~= bad@);
        if !drop {
            r.push(v[i]);
        }
        i += 1;
    }
    assert(v@.take(v@.len() as int) =~= v@);
    r
}

/// How a raw asset is presented: in place, under its name without quotes.
pub fn raw_disposition(name: &str) -> (r: String)
    ensures
        r@ == "inline; filename=\""@ + without(name@, seq!['"']) + "\""@,
{
    let mut bad: Vec<char> = Vec::new();
    bad.push('"');
    assert(bad@ =~= seq!['"']);
    cat3("inline; filename=\"", strip_chars(name, &bad).as_str(), "\"")
}

/// A file name without its last extension.
pub open spec fn stem_of(name: Seq<char>) -> Seq<char> {
    if name.contains('.') {
        name.take(last_at(name, '.'))
    } else {
        name
    }
}

/// Where a character stands last.
pub open spec fn last_at(s: Seq<char>, c: char) -> int {
    choose|i: int| 0 <= i < s.len() && s[i] == c && forall|j: int| i < j < s.len() ==> s[j] != c
}

fn stem(name: &str) -> (r: String)
    ensures
        r@ == stem_of(name@),
{
    let v = chars_of(name);
    match find_last(&v, '.') {
        Some(i) => {
            proof {
                let k = last_at(v@, '.');
                assert(v@[i as int] == '.');
                assert(0 <= k < v@.len() && v@[k] == '.' && forall|j: int| k < j < v@.len() ==> v@[j] != '.');
                assert(k == i);
                assert(v@.subrange(0, i as int) =~= v@.take(i as int));
            }
            text_between(&v, 0, i)
        },
        None => name.to_string(),
    }
}

/// The name of an exported package: that of the first asset, and how many more there are.
pub open spec fn export_name_of(roots: Seq<AssetView>) -> Seq<char> {
    let base = if roots.len() > 0 {
        stem_of(roots[0].name)
    } else {
        "export"@
    };
    if roots.len() > 1 {
        base + "+"@ + numeral((roots.len() - 1) as nat) + ".unitypackage"@
    } else {
        base + ".unitypackage"@
    }
}

pub fn export_name(roots: &Vec<Asset>) -> (r: String)
    ensures
        r@ == export_name_of(roots.deep_view()),
{
    let n: usize = roots.len();
    let base = if n > 0 {
        assert(roots.deep_view()[0] == roots@[0]@);
        stem(roots[0].name.as_str())
    } else {
        "export".to_string()
    };
    if n > 1 {
        let mut s = cat3(base.as_str(), "+", decimal_usize(n - 1).as_str());
        s.append(".unitypackage");
        s
    } else {
        cat(base.as_str(), ".unitypackage")
    }
}

/// How an exported package is presented: as a file to save, its name without characters that do not
/// fit in a header.
pub fn export_disposition(name: &str) -> (r: String)
    ensures
        r@ == "attachment; filename=\""@ + without(name@, seq!['"', '\\', '\r', '\n']) + "\""@,
{
    let mut bad: Vec<char> = Vec::new();
    bad.push('"');
    bad.push('\\');
    bad.push('\r');
    bad.push('\n');
    assert(bad@ =~= seq!['"', '\\', '\r', '\n']);
    cat3("attachment; filename=\"", strip_chars(name, &bad).as_str(), "\"")
}

/// Why there is no preview.
pub open spec fn no_preview_of(a: AssetView) -> ErrorView {
    not_found(
        if a.has_preview {
            "preview of "@ + a.path
                + " is not in the thumbnail store yet (run `uai index`, or request it with ?extract=1)"@
        } else {
            a.path + " has no preview"@
        },
    )
}

pub fn no_preview(asset: &Asset) -> (r: Error)
    ensures
        r@ == no_preview_of(asset@),
{
    let m = if asset.has_preview {
        cat3(
            "preview of ",
            asset.path.as_str(),
            " is not in the thumbnail store yet (run `uai index`, or request it with ?extract=1)",
        )
    } else {
        cat(asset.path.as_str(), " has no preview")
    };
    Error::User(UaiError::NotFound(m))
}

/// The bytes of a raw asset, from what was read of its package; they must be all of it.
pub fn raw_bytes(asset: &Asset, read: Option<(Vec<u8>, bool)>) -> (r: Result<Vec<u8>, Error>)
    ensures
        match read {
            None => r matches Err(e) && e@ == not_found(
                "asset not found in package (index stale? run `uai index`)"@,
            ),
            Some((bytes, truncated)) => if truncated {
                r matches Err(e) && e@ == invalid(asset@.path + " is larger than the preview limit"@)
            } else {
                r == Ok::<Vec<u8>, Error>(bytes)
            },
        },
{
    match read {
        None => Err(
            Error::User(
                UaiError::NotFound("asset not found in package (index stale? run `uai index`)".to_string()),
            ),
        ),
        Some((bytes, truncated)) => if truncated {
            Err(Error::User(UaiError::Invalid(cat(asset.path.as_str(), " is larger than the preview limit"))))
        } else {
            Ok(bytes)
        },
    }
}

// ----- serving -------------------------------------------------------------------------------

/// That the server can run: it needs the local index.
pub fn check_serve(cfg: &Config) -> (r: Result<(), Error>)
    ensures
        cfg@.server is None ==> r is Ok,
        cfg@.server is Some ==> (r matches Err(e) && e@ == ErrorView::Other(
            "`uai serve` needs the local index; drop --server (or use --local)"@,
        )),
{
    match &cfg.server {
        None => Ok(()),
        Some(_) => Err(
            Error::Other("`uai serve` needs the local index; drop --server (or use --local)".to_string()),
        ),
    }
}

/// What the server says when it is up.
pub open spec fn banner_of(version: Seq<char>, s: StatsView, url: Seq<char>, library: Seq<char>, mounted: bool) -> Seq<char> {
    "uai "@ + version + " serving "@ + signed_numeral(s.packages as int) + " packages / "@ + signed_numeral(
        s.assets as int,
    ) + " assets / "@ + signed_numeral(s.previews as int) + " previews at "@ + url + "  (library "@ + library + ": "@
        + (if mounted {
        "mounted"@
    } else {
        "NOT mounted, exports/previews of unindexed thumbnails will fail"@
    }) + ")"@
}

pub fn banner(version: &str, s: &Stats, url: &str, library: &str, mounted: bool) -> (r: String)
    ensures
        r@ == banner_of(version@, s@, url@, library@, mounted),
{
    let state: &str = if mounted {
        "mounted"
    } else {
        "NOT mounted, exports/previews of unindexed thumbnails will fail"
    };
    let mut t = cat3("uai ", version, " serving ");
    t.append(decimal_i64(s.packages).as_str());
    t.append(" packages / ");
    t.append(decimal_i64(s.assets).as_str());
    t.append(" assets / ");
    t.append(decimal_i64(s.previews).as_str());
    t.append(" previews at ");
    t.append(url);
    t.append("  (library ");
    t.append(library);
    t.append(": ");
    t.append(state);
    t.append(")");
    t
}

} // verus!
