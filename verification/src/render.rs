//! The lines that the command line prints.

use vstd::prelude::*;
use vstd::string::*;

use crate::config::{joined_path, Config, ConfigView};
use crate::db::size_sum;
use crate::error::{Error, ErrorView};
use crate::groups::{distinct, distinct_ids};
use crate::human::{human_bytes, human_text};
use crate::model::{
    clone_assets, clone_text, shown_category, Asset, AssetInfo, AssetInfoView, AssetView, CacheEntry,
    CacheEntryView, ClosureAsset, ClosureAssetView, ClosureOut, ClosureOutView, Conflict, ConflictView,
    ExportOut, ExportOutView, IndexReport, IndexReportView, KindCount, KindCountView, Package,
    PackageListing, PackageListingView, PackageRef, PackageRefView, PackageView, RefInfo, RefInfoView, Stats,
    StatsView, Unresolved, UnresolvedView, WrittenFile, WrittenFileView,
};
use crate::number::{decimal, decimal_i64, decimal_usize, numeral, signed_numeral};
use crate::seqs::{find, lemma_filter_none, lemma_filter_step, lemma_first_index, limited, map_all, take_limited};
use crate::sorted::{ascending_of, TextMap, TextSet};
use crate::text::{
    after_last, cat, cat3, filled, glue, join, pieces, same_text, split, split_filled, text_after_last, Sep,
};

verus! {

// ----- columns -------------------------------------------------------------------------------

pub open spec fn spaces(n: nat) -> Seq<char> {
    Seq::new(n, |i: int| ' ')
}

/// A text at the left of a column.
pub open spec fn left(s: Seq<char>, width: nat) -> Seq<char> {
    if s.len() < width {
        s + spaces((width - s.len()) as nat)
    } else {
        s
    }
}

/// A text at the right of a column.
pub open spec fn right(s: Seq<char>, width: nat) -> Seq<char> {
    if s.len() < width {
        spaces((width - s.len()) as nat) + s
    } else {
        s
    }
}

fn blank(n: usize) -> (r: String)
    ensures
        r@ == spaces(n as nat),
{
    let mut r = String::new();
    let mut i: usize = 0;
    assert(r@ =~= spaces(0));
    while i < n
        invariant
            i <= n,
            r@ == spaces(i as nat),
        decreases n - i,
    {
        r.push(' ');
        assert(r@ =~= spaces((i + 1) as nat));
        i += 1;
    }
    r
}

pub fn align_left(s: &str, width: usize) -> (r: String)
    ensures
        r@ == left(s@, width as nat),
{
    let n: usize = s.unicode_len();
    if n < width {
        cat(s, blank(width - n).as_str())
    } else {
        s.to_string()
    }
}

pub fn align_right(s: &str, width: usize) -> (r: String)
    ensures
        r@ == right(s@, width as nat),
{
    let n: usize = s.unicode_len();
    if n < width {
        cat(blank(width - n).as_str(), s)
    } else {
        s.to_string()
    }
}

fn no_lines() -> (r: Vec<String>)
    ensures
        r.deep_view() == Seq::<Seq<char>>::empty(),
{
    let r: Vec<String> = Vec::new();
    assert(r.deep_view() =~= Seq::<Seq<char>>::empty());
    r
}

fn put(out: &mut Vec<String>, line: String)
    ensures
        final(out).deep_view() == old(out).deep_view().push(line@),
{
    let ghost o0 = out.deep_view();
    let ghost lv = line@;
    out.push(line);
    assert(out.deep_view() =~= o0.push(lv));
}

fn put_all(out: &mut Vec<String>, lines: Vec<String>)
    ensures
        final(out).deep_view() == old(out).deep_view() + lines.deep_view(),
{
    let ghost o0 = out.deep_view();
    let ghost lv = lines.deep_view();
    let mut lines = lines;
    out.append(&mut lines);
    assert(out.deep_view() =~= o0 + lv);
}

pub open spec fn text_or(o: Option<Seq<char>>, default: Seq<char>) -> Seq<char> {
    match o {
        Some(s) => s,
        None => default,
    }
}

fn or_text<'a>(o: &'a Option<String>, default: &'a str) -> (r: &'a str)
    ensures
        r@ == text_or(o.deep_view(), default@),
{
    match o {
        Some(s) => s.as_str(),
        None => default,
    }
}

// ----- search --------------------------------------------------------------------------------

/// A hit of a search.
#[verifier::opaque]
pub open spec fn search_line_of(a: AssetView) -> Seq<char> {
    a.guid + "  "@ + left(a.kind, 9) + " "@ + right(human_text(a.size as int), 8) + "  ["@ + a.package + "]  "@ + a.path
}

fn search_line(a: &Asset) -> (r: String)
    ensures
        r@ == search_line_of(a@),
{
    proof {
        reveal(search_line_of);
    }
    let mut s = cat(a.guid.as_str(), "  ");
    s.append(align_left(a.kind.as_str(), 9).as_str());
    s.append(" ");
    s.append(align_right(human_bytes(a.size).as_str(), 8).as_str());
    s.append("  [");
    s.append(a.package.as_str());
    s.append("]  ");
    s.append(a.path.as_str());
    s
}

/// The hits of a search.
pub open spec fn hit_lines_of(s: Seq<AssetView>) -> Seq<Seq<char>> {
    s.map_values(|x: AssetView| search_line_of(x))
}

fn hit_lines(v: &Vec<Asset>) -> (r: Vec<String>)
    ensures
        r.deep_view() == hit_lines_of(v.deep_view()),
{
    map_all(v, search_line, Ghost(|x: AssetView| search_line_of(x)))
}

/// What a search prints: its hits and how many there are.
pub open spec fn search_lines_of(rows: Seq<AssetView>, limit: nat) -> Seq<Seq<char>> {
    if rows.len() == 0 {
        seq!["no matches"@]
    } else {
        hit_lines_of(rows).push(
            "-- "@ + numeral(rows.len()) + " result(s)"@ + (if rows.len() >= limit {
                " (limit reached)"@
            } else {
                ""@
            }),
        )
    }
}

pub fn search_lines(rows: &Vec<Asset>, limit: usize) -> (r: Vec<String>)
    ensures
        r.deep_view() == search_lines_of(rows.deep_view(), limit as nat),
{
    let n: usize = rows.len();
    if n == 0 {
        let mut out = no_lines();
        put(&mut out, "no matches".to_string());
        assert(out.deep_view() =~= seq!["no matches"@]);
        return out;
    }
    let mut out = hit_lines(rows);
    let more: &str = if n >= limit {
        " (limit reached)"
    } else {
        ""
    };
    let mut last = cat3("-- ", decimal_usize(n).as_str(), " result(s)");
    last.append(more);
    put(&mut out, last);
    out
}

// ----- packages ------------------------------------------------------------------------------

/// The last part of a path.
pub open spec fn file_name_of(path: Seq<char>) -> Seq<char> {
    let parts = filled(pieces(path, Sep::Is('/'))).filter(|p: Seq<char>| p != "."@);
    if parts.len() == 0 || parts.last() == ".."@ {
        Seq::empty()
    } else {
        parts.last()
    }
}

fn file_name(path: &str) -> (r: String)
    ensures
        r@ == file_name_of(path@),
{
    let parts = split_filled(path, Sep::Is('/'));
    let ghost s = parts.deep_view();
    let ghost p = |p: Seq<char>| p != "."@;
    let mut last: Option<String> = None;
    let mut i: usize = 0;
    proof {
        lemma_filter_none(s, p);
    }
    while i < parts.len()
        invariant
            i <= parts@.len(),
            s == parts.deep_view(),
            p == (|p: Seq<char>| p != "."@),
            match last.deep_view() {
                Some(t) => s.take(i as int).filter(p).len() > 0 && s.take(i as int).filter(p).last() == t,
                None => s.take(i as int).filter(p).len() == 0,
            },
        decreases parts@.len() - i,
    {
        proof {
            lemma_filter_step(s, p, i as int);
            assert(s[i as int] == parts@[i as int]@);
        }
        if !same_text(parts[i].as_str(), ".") {
            last = Some(parts[i].clone());
        }
        i += 1;
    }
    assert(s.take(s.len() as int) =~= s);
    match last {
        Some(t) => {
            if same_text(t.as_str(), "..") {
                let e = String::new();
                assert(e@ =~= Seq::<char>::empty());
                e
            } else {
                t
            }
        },
        None => {
            let e = String::new();
            assert(e@ =~= Seq::<char>::empty());
            e
        },
    }
}

/// What is remarkable about a package: a status other than ok, a local copy, and its root where
/// there are several.
pub open spec fn package_flags_of(p: PackageView, several_roots: bool) -> Seq<char> {
    (if p.status != "ok"@ {
        "  ["@ + p.status + "]"@
    } else {
        ""@
    }) + (if p.cached {
        "  [cached]"@
    } else {
        ""@
    }) + (if several_roots {
        "  @"@ + file_name_of(p.root)
    } else {
        ""@
    })
}

fn package_flags(p: &Package, several_roots: bool) -> (r: String)
    ensures
        r@ == package_flags_of(p@, several_roots),
{
    let mut s = if !same_text(p.status.as_str(), "ok") {
        cat3("  [", p.status.as_str(), "]")
    } else {
        "".to_string()
    };
    s.append(
        if p.cached {
            "  [cached]"
        } else {
            ""
        },
    );
    if several_roots {
        s.append(cat("  @", file_name(p.root.as_str()).as_str()).as_str());
    } else {
        s.append("");
    }
    s
}

/// A package in the list of packages.
#[verifier::opaque]
pub open spec fn package_line_of(p: PackageView, several_roots: bool) -> Seq<char> {
    right(signed_numeral(p.id as int), 3) + "  "@ + right(signed_numeral(p.entry_count as int), 7)
        + "  "@ + right(human_text(p.total_bytes as int), 9) + "  "@
        + right(human_text(p.size as int), 9) + "  "@ + right(text_or(p.version, ""@), 9) + "  "@
        + right(text_or(p.unity_version, ""@), 11) + "  "@ + p.publisher + " / "@ + p.name + "  ["@
        + shown_category(p) + "]"@ + package_flags_of(p, several_roots)
}

fn package_line(p: &Package, several_roots: bool) -> (r: String)
    ensures
        r@ == package_line_of(p@, several_roots),
{
    proof {
        reveal(package_line_of);
    }
    let mut s = cat(align_right(decimal_i64(p.id).as_str(), 3).as_str(), "  ");
    s.append(align_right(decimal_i64(p.entry_count).as_str(), 7).as_str());
    s.append("  ");
    s.append(align_right(human_bytes(p.total_bytes).as_str(), 9).as_str());
    s.append("  ");
    s.append(align_right(human_bytes(p.size).as_str(), 9).as_str());
    s.append("  ");
    s.append(align_right(or_text(&p.version, ""), 9).as_str());
    s.append("  ");
    s.append(align_right(or_text(&p.unity_version, ""), 11).as_str());
    s.append("  ");
    s.append(p.publisher.as_str());
    s.append(" / ");
    s.append(p.name.as_str());
    s.append("  [");
    s.append(p.display_category());
    s.append("]");
    s.append(package_flags(p, several_roots).as_str());
    s
}

/// Whether some packages come from more than one root.
pub open spec fn many_roots(s: Seq<PackageView>) -> bool {
    exists|i: int, j: int| 0 <= i < s.len() && 0 <= j < s.len() && (#[trigger] s[i]).root != (#[trigger] s[j]).root
}

fn has_many_roots(v: &Vec<Package>) -> (r: bool)
    ensures
        r == many_roots(v.deep_view()),
{
    let ghost s = v.deep_view();
    let mut i: usize = 0;
    while i < v.len()
        invariant
            i <= v@.len(),
            s == v.deep_view(),
            forall|k: int| 0 <= k < i ==> (#[trigger] s[k]).root == s[0].root,
        decreases v@.len() - i,
    {
        assert(s[i as int] == v@[i as int]@);
        assert(s[0] == v@[0]@);
        if !same_text(v[i].root.as_str(), v[0].root.as_str()) {
            assert(s[i as int].root != s[0].root);
            return true;
        }
        i += 1;
    }
    false
}

/// What the list of packages prints.
pub open spec fn package_lines_of(s: Seq<PackageView>) -> Seq<Seq<char>> {
    let many = many_roots(s);
    seq![" id   assets   unpacked    package    version        unity  publisher / name  [category]"@]
        + s.map_values(|p: PackageView| package_line_of(p, many))
}

pub fn package_lines(v: &Vec<Package>) -> (r: Vec<String>)
    ensures
        r.deep_view() == package_lines_of(v.deep_view()),
{
    let many = has_many_roots(v);
    let mut out = no_lines();
    put(&mut out, " id   assets   unpacked    package    version        unity  publisher / name  [category]".to_string());
    let line = |p: &Package| -> (t: String)
        ensures
            t@ == package_line_of(p@, many),
        { package_line(p, many) };
    put_all(&mut out, map_all(v, line, Ghost(|p: PackageView| package_line_of(p, many))));
    out
}

// ----- listings ------------------------------------------------------------------------------

/// A package above its listing.
#[verifier::opaque]
pub open spec fn listing_head_of(p: PackageView) -> Seq<char> {
    "["@ + signed_numeral(p.id as int) + "] "@ + p.publisher + " / "@ + p.name + "  ("@
        + signed_numeral(p.entry_count as int) + " assets, "@ + human_text(p.total_bytes as int) + ")"@
}

fn listing_head(p: &Package) -> (r: String)
    ensures
        r@ == listing_head_of(p@),
{
    proof {
        reveal(listing_head_of);
    }
    let mut s = cat("[", decimal_i64(p.id).as_str());
    s.append("] ");
    s.append(p.publisher.as_str());
    s.append(" / ");
    s.append(p.name.as_str());
    s.append("  (");
    s.append(decimal_i64(p.entry_count).as_str());
    s.append(" assets, ");
    s.append(human_bytes(p.total_bytes).as_str());
    s.append(")");
    s
}

/// The assets of a kind.
#[verifier::opaque]
pub open spec fn kind_line_of(k: KindCountView) -> Seq<char> {
    "   "@ + left(k.kind, 10) + " "@ + right(signed_numeral(k.n as int), 6) + "  "@ + human_text(k.bytes as int)
}

fn kind_line(k: &KindCount) -> (r: String)
    ensures
        r@ == kind_line_of(k@),
{
    proof {
        reveal(kind_line_of);
    }
    let mut s = cat("   ", align_left(k.kind.as_str(), 10).as_str());
    s.append(" ");
    s.append(align_right(decimal_i64(k.n).as_str(), 6).as_str());
    s.append("  ");
    s.append(human_bytes(k.bytes).as_str());
    s
}

/// The kinds of a package.
pub open spec fn kind_lines_of(s: Seq<KindCountView>) -> Seq<Seq<char>> {
    s.map_values(|x: KindCountView| kind_line_of(x))
}

fn kind_lines(v: &Vec<KindCount>) -> (r: Vec<String>)
    ensures
        r.deep_view() == kind_lines_of(v.deep_view()),
{
    map_all(v, kind_line, Ghost(|x: KindCountView| kind_line_of(x)))
}

/// An asset in a listing.
#[verifier::opaque]
pub open spec fn listed_line_of(a: AssetView) -> Seq<char> {
    a.guid + "  "@ + left(a.kind, 9) + " "@ + right(human_text(a.size as int), 8) + "  "@ + a.path
}

fn listed_line(a: &Asset) -> (r: String)
    ensures
        r@ == listed_line_of(a@),
{
    proof {
        reveal(listed_line_of);
    }
    let mut s = cat(a.guid.as_str(), "  ");
    s.append(align_left(a.kind.as_str(), 9).as_str());
    s.append(" ");
    s.append(align_right(human_bytes(a.size).as_str(), 8).as_str());
    s.append("  ");
    s.append(a.path.as_str());
    s
}

/// Assets in a listing.
pub open spec fn listed_lines_of(s: Seq<AssetView>) -> Seq<Seq<char>> {
    s.map_values(|x: AssetView| listed_line_of(x))
}

fn listed_lines(v: &Vec<Asset>) -> (r: Vec<String>)
    ensures
        r.deep_view() == listed_lines_of(v.deep_view()),
{
    map_all(v, listed_line, Ghost(|x: AssetView| listed_line_of(x)))
}

/// A path in a tree: its parts, and what stands behind its name.
#[derive(Debug)]
pub struct Branch {
    pub parts: Vec<String>,
    /// The size of a file; a folder has none.
    pub size: Option<String>,
}

/// What a [`Branch`] holds.
#[verifier::ext_equal]
pub struct BranchView {
    pub parts: Seq<Seq<char>>,
    pub size: Option<Seq<char>>,
}

impl View for Branch {
    type V = BranchView;

    open spec fn view(&self) -> BranchView {
        BranchView {
            parts: self.parts.deep_view(),
            size: self.size.deep_view(),
        }
    }
}

impl DeepView for Branch {
    type V = BranchView;

    open spec fn deep_view(&self) -> BranchView {
        self.view()
    }
}

impl Clone for Branch {
    fn clone(&self) -> (r: Self)
        ensures
            r@ == self@,
    {
        let r = Branch {
            parts: self.parts.clone(),
            size: self.size.clone(),
        };
        assert(r.parts.deep_view() =~= self.parts.deep_view());
        assert(r.size.deep_view() == self.size.deep_view());
        r
    }
}

pub open spec fn pad_of(indent: nat) -> Seq<char> {
    spaces(2 * indent)
}

fn pad(indent: usize) -> (r: String)
    ensures
        r@ == pad_of(indent as nat),
{
    let b = blank(indent);
    assert(spaces(indent as nat) + spaces(indent as nat) =~= spaces(2 * indent as nat));
    cat(b.as_str(), b.as_str())
}

pub open spec fn branch_of(a: AssetView) -> BranchView {
    BranchView {
        parts: pieces(a.path, Sep::Is('/')),
        size: if a.is_folder {
            None
        } else {
            Some(human_text(a.size as int))
        },
    }
}

pub open spec fn branches_of(s: Seq<AssetView>) -> Seq<BranchView> {
    s.map_values(|a: AssetView| branch_of(a))
}

/// How many parts the longest path has.
pub open spec fn deepest(s: Seq<BranchView>) -> nat
    decreases s.len(),
{
    if s.len() == 0 {
        0
    } else {
        let front = deepest(s.drop_last());
        if s.last().parts.len() > front {
            s.last().parts.len()
        } else {
            front
        }
    }
}

/// The directories at the top of a tree.
pub open spec fn dirs_in(s: Seq<BranchView>) -> Set<Seq<char>> {
    Set::new(|d: Seq<char>| exists|i: int| 0 <= i < s.len() && (#[trigger] s[i]).parts.len() >= 2 && s[i].parts[0] == d)
}

/// The tree within a directory.
pub open spec fn below(s: Seq<BranchView>, dir: Seq<char>) -> Seq<BranchView>
    decreases s.len(),
{
    if s.len() == 0 {
        Seq::empty()
    } else {
        let front = below(s.drop_last(), dir);
        let b = s.last();
        if b.parts.len() >= 2 && b.parts[0] == dir {
            front.push(BranchView { parts: b.parts.drop_first(), size: b.size })
        } else {
            front
        }
    }
}

/// The files at the top of a tree, with their sizes.
pub open spec fn files_in(s: Seq<BranchView>) -> Map<Seq<char>, Seq<char>>
    decreases s.len(),
{
    if s.len() == 0 {
        Map::empty()
    } else {
        let front = files_in(s.drop_last());
        let b = s.last();
        if b.parts.len() == 1 && b.size is Some {
            front.insert(b.parts[0], b.size->0)
        } else {
            front
        }
    }
}

/// The files of a directory, by name.
pub open spec fn file_lines_of(files: Map<Seq<char>, Seq<char>>, names: Seq<Seq<char>>, indent: nat) -> Seq<Seq<char>>
    decreases names.len(),
{
    if names.len() == 0 {
        Seq::empty()
    } else {
        file_lines_of(files, names.drop_last(), indent).push(
            pad_of(indent) + names.last() + "  ("@ + files[names.last()] + ")"@,
        )
    }
}

/// A tree: its directories by name, each with what is in it, and then its files by name. It is
/// followed `levels` levels down.
pub open spec fn tree_lines_of(s: Seq<BranchView>, indent: nat, levels: nat) -> Seq<Seq<char>>
    decreases levels, 1int, 0nat,
{
    if levels == 0 {
        Seq::empty()
    } else {
        dir_lines_of(s, ascending_of(dirs_in(s)), indent, levels) + file_lines_of(
            files_in(s),
            ascending_of(files_in(s).dom()),
            indent,
        )
    }
}

pub open spec fn dir_lines_of(s: Seq<BranchView>, dirs: Seq<Seq<char>>, indent: nat, levels: nat) -> Seq<Seq<char>>
    decreases levels, 0int, dirs.len(),
{
    if dirs.len() == 0 || levels == 0 {
        Seq::empty()
    } else {
        let d = dirs.last();
        dir_lines_of(s, dirs.drop_last(), indent, levels).push(pad_of(indent) + d + "/"@) + tree_lines_of(
            below(s, d),
            indent + 1,
            (levels - 1) as nat,
        )
    }
}

fn make_branches(v: &Vec<Asset>) -> (r: Vec<Branch>)
    ensures
        r.deep_view() == branches_of(v.deep_view()),
{
    let ghost s = v.deep_view();
    let mut out: Vec<Branch> = Vec::new();
    let mut i: usize = 0;
    assert(out.deep_view() =~= branches_of(s.take(0)));
    while i < v.len()
        invariant
            i <= v@.len(),
            s == v.deep_view(),
            out.deep_view() == branches_of(s.take(i as int)),
        decreases v@.len() - i,
    {
        let ghost o0 = out.deep_view();
        let a = &v[i];
        let size: Option<String> = if a.is_folder {
            None
        } else {
            Some(human_bytes(a.size))
        };
        let b = Branch { parts: split(a.path.as_str(), Sep::Is('/')), size };
        let ghost bv = b@;
        out.push(b);
        proof {
            assert(bv == branch_of(s[i as int]));
            assert(out.deep_view() =~= o0.push(bv));
            assert(out.deep_view() =~= branches_of(s.take(i + 1)));
        }
        i += 1;
    }
    assert(s.take(s.len() as int) =~= s);
    out
}

fn find_deepest(v: &Vec<Branch>) -> (r: usize)
    ensures
        r == deepest(v.deep_view()),
{
    let ghost s = v.deep_view();
    let mut n: usize = 0;
    let mut i: usize = 0;
    assert(s.take(0) =~= Seq::<BranchView>::empty());
    while i < v.len()
        invariant
            i <= v@.len(),
            s == v.deep_view(),
            n == deepest(s.take(i as int)),
        decreases v@.len() - i,
    {
        proof {
            assert(s.take(i + 1).drop_last() =~= s.take(i as int));
            assert(s.take(i + 1).last() == v@[i as int]@);
        }
        if v[i].parts.len() > n {
            n = v[i].parts.len();
        }
        i += 1;
    }
    assert(s.take(s.len() as int) =~= s);
    n
}

fn find_dirs(v: &Vec<Branch>) -> (r: TextSet)
    ensures
        r@ == dirs_in(v.deep_view()),
{
    let ghost s = v.deep_view();
    let mut out = TextSet::new();
    let mut i: usize = 0;
    while i < v.len()
        invariant
            i <= v@.len(),
            s == v.deep_view(),
            forall|d: Seq<char>| #[trigger]
                out@.contains(d) <==> exists|k: int|
                    0 <= k < i && (#[trigger] s[k]).parts.len() >= 2 && s[k].parts[0] == d,
        decreases v@.len() - i,
    {
        let ghost o0 = out@;
        let b = &v[i];
        assert(s[i as int] == b@);
        if b.parts.len() >= 2 {
            assert(b@.parts[0] == b.parts@[0]@);
            out.insert(b.parts[0].clone());
        }
        proof {
            assert forall|d: Seq<char>| #[trigger] out@.contains(d) <==> exists|k: int|
                0 <= k < i + 1 && (#[trigger] s[k]).parts.len() >= 2 && s[k].parts[0] == d by {
                if o0.contains(d) {
                    let k = choose|k: int| 0 <= k < i && (#[trigger] s[k]).parts.len() >= 2 && s[k].parts[0] == d;
                    assert(s[k].parts.len() >= 2 && s[k].parts[0] == d);
                }
                if b@.parts.len() >= 2 && b@.parts[0] == d {
                    assert(s[i as int].parts[0] == d);
                }
                if exists|k: int| 0 <= k < i + 1 && (#[trigger] s[k]).parts.len() >= 2 && s[k].parts[0] == d {
                    let k = choose|k: int| 0 <= k < i + 1 && (#[trigger] s[k]).parts.len() >= 2 && s[k].parts[0] == d;
                    if k < i {
                        assert(o0.contains(d));
                    }
                }
            }
        }
        i += 1;
    }
    assert(out@ =~= dirs_in(s));
    out
}

fn rest_of(parts: &Vec<String>) -> (r: Vec<String>)
    requires
        parts@.len() > 0,
    ensures
        r.deep_view() == parts.deep_view().drop_first(),
{
    let mut r = parts.clone();
    assert(r.deep_view() =~= parts.deep_view());
    let first = r.remove(0);
    assert(r.deep_view() =~= parts.deep_view().drop_first());
    r
}

fn find_below(v: &Vec<Branch>, dir: &str) -> (r: Vec<Branch>)
    ensures
        r.deep_view() == below(v.deep_view(), dir@),
{
    let ghost s = v.deep_view();
    let mut out: Vec<Branch> = Vec::new();
    let mut i: usize = 0;
    assert(s.take(0) =~= Seq::<BranchView>::empty());
    assert(out.deep_view() =~= Seq::<BranchView>::empty());
    while i < v.len()
        invariant
            i <= v@.len(),
            s == v.deep_view(),
            out.deep_view() == below(s.take(i as int), dir@),
        decreases v@.len() - i,
    {
        let b = &v[i];
        proof {
            assert(s.take(i + 1).drop_last() =~= s.take(i as int));
            assert(s.take(i + 1).last() == b@);
        }
        if b.parts.len() >= 2 {
            assert(b@.parts[0] == b.parts@[0]@);
            if same_text(b.parts[0].as_str(), dir) {
                let ghost o0 = out.deep_view();
                let x = Branch { parts: rest_of(&b.parts), size: clone_text(&b.size) };
                let ghost xv = x@;
                out.push(x);
                assert(out.deep_view() =~= o0.push(xv));
            }
        }
        i += 1;
    }
    assert(s.take(s.len() as int) =~= s);
    out
}

fn find_files(v: &Vec<Branch>) -> (r: TextMap<String>)
    ensures
        r.deep_view() == files_in(v.deep_view()),
{
    let ghost s = v.deep_view();
    let mut out: TextMap<String> = TextMap::new();
    let mut i: usize = 0;
    assert(s.take(0) =~= Seq::<BranchView>::empty());
    assert(out.deep_view() =~= Map::<Seq<char>, Seq<char>>::empty());
    while i < v.len()
        invariant
            i <= v@.len(),
            s == v.deep_view(),
            out.deep_view() == files_in(s.take(i as int)),
        decreases v@.len() - i,
    {
        let b = &v[i];
        proof {
            assert(s.take(i + 1).drop_last() =~= s.take(i as int));
            assert(s.take(i + 1).last() == b@);
        }
        if b.parts.len() == 1 {
            assert(b@.parts[0] == b.parts@[0]@);
            match &b.size {
                Some(size) => {
                    let ghost o0 = out.deep_view();
                    out.insert(b.parts[0].clone(), size.clone());
                    assert(out.deep_view() =~= o0.insert(b@.parts[0], size@));
                },
                None => {},
            }
        }
        i += 1;
    }
    assert(s.take(s.len() as int) =~= s);
    out
}

fn file_lines(files: &TextMap<String>, indent: usize) -> (r: Vec<String>)
    ensures
        r.deep_view() == file_lines_of(files.deep_view(), ascending_of(files.deep_view().dom()), indent as nat),
{
    let keys = files.keys();
    let ghost ks = keys.deep_view();
    let ghost fv = files.deep_view();
    let n: usize = files.len();
    let mut out = no_lines();
    let mut i: usize = 0;
    proof {
        assert(fv.dom() =~= files@.dom());
        assert(ks.take(0) =~= Seq::<Seq<char>>::empty());
    }
    while i < n
        invariant
            i <= n,
            n == ks.len(),
            ks == keys.deep_view(),
            ks == files.order(),
            fv == files.deep_view(),
            out.deep_view() == file_lines_of(fv, ks.take(i as int), indent as nat),
        decreases n - i,
    {
        let size = files.value_at(i);
        let mut line = cat(pad(indent).as_str(), keys[i].as_str());
        line.append("  (");
        line.append(size.as_str());
        line.append(")");
        proof {
            assert(ks.take(i + 1).drop_last() =~= ks.take(i as int));
            assert(ks.take(i + 1).last() == keys@[i as int]@);
            assert(fv[keys@[i as int]@] == size@);
        }
        put(&mut out, line);
        i += 1;
    }
    assert(ks.take(ks.len() as int) =~= ks);
    out
}

fn tree_lines(v: &Vec<Branch>, indent: usize, levels: usize) -> (r: Vec<String>)
    requires
        indent + levels <= usize::MAX,
    ensures
        r.deep_view() == tree_lines_of(v.deep_view(), indent as nat, levels as nat),
    decreases levels,
{
    if levels == 0 {
        return no_lines();
    }
    let ghost s = v.deep_view();
    let dirs = find_dirs(v).to_vec();
    let ghost ds = dirs.deep_view();
    let mut out = no_lines();
    let mut i: usize = 0;
    assert(ds.take(0) =~= Seq::<Seq<char>>::empty());
    while i < dirs.len()
        invariant
            i <= dirs@.len(),
            ds == dirs.deep_view(),
            s == v.deep_view(),
            levels > 0,
            indent + levels <= usize::MAX,
            out.deep_view() == dir_lines_of(s, ds.take(i as int), indent as nat, levels as nat),
        decreases dirs@.len() - i,
    {
        let d = dirs[i].as_str();
        proof {
            assert(ds.take(i + 1).drop_last() =~= ds.take(i as int));
            assert(ds.take(i + 1).last() == d@);
        }
        let mut line = cat(pad(indent).as_str(), d);
        line.append("/");
        put(&mut out, line);
        let inner = find_below(v, d);
        put_all(&mut out, tree_lines(&inner, indent + 1, levels - 1));
        i += 1;
    }
    assert(ds.take(ds.len() as int) =~= ds);
    put_all(&mut out, file_lines(&find_files(v), indent));
    out
}

/// The assets that a listing shows.
pub open spec fn shown_assets(s: Seq<AssetView>, folders: bool) -> Seq<AssetView> {
    s.filter(|a: AssetView| folders || !a.is_folder)
}

fn keep_shown(v: &Vec<Asset>, folders: bool) -> (r: Vec<Asset>)
    ensures
        r.deep_view() == shown_assets(v.deep_view(), folders),
{
    let ghost s = v.deep_view();
    let ghost p = |a: AssetView| folders || !a.is_folder;
    let mut out: Vec<Asset> = Vec::new();
    let mut i: usize = 0;
    proof {
        lemma_filter_none(s, p);
        assert(out.deep_view() =~= s.take(0).filter(p));
    }
    while i < v.len()
        invariant
            i <= v@.len(),
            s == v.deep_view(),
            p == (|a: AssetView| folders || !a.is_folder),
            out.deep_view() == s.take(i as int).filter(p),
        decreases v@.len() - i,
    {
        proof {
            lemma_filter_step(s, p, i as int);
            assert(s[i as int] == v@[i as int]@);
        }
        if folders || !v[i].is_folder {
            let ghost o0 = out.deep_view();
            out.push(v[i].clone());
            assert(out.deep_view() =~= o0.push(v@[i as int]@));
        }
        i += 1;
    }
    assert(s.take(s.len() as int) =~= s);
    out
}

/// What a listing prints: the package, its kinds, and its assets as a tree or one by one.
pub open spec fn listing_lines_of(l: PackageListingView, tree: bool, folders: bool) -> Seq<Seq<char>> {
    seq![listing_head_of(l.package)] + kind_lines_of(l.kinds) + (if tree {
        tree_lines_of(branches_of(l.assets), 0, deepest(branches_of(l.assets)))
    } else {
        listed_lines_of(shown_assets(l.assets, folders))
    })
}

pub fn listing_lines(l: &PackageListing, tree: bool, folders: bool) -> (r: Vec<String>)
    ensures
        r.deep_view() == listing_lines_of(l@, tree, folders),
{
    let mut out = no_lines();
    put(&mut out, listing_head(&l.package));
    assert(out.deep_view() =~= seq![listing_head_of(l@.package)]);
    put_all(&mut out, kind_lines(&l.kinds));
    if tree {
        let b = make_branches(&l.assets);
        let n = find_deepest(&b);
        put_all(&mut out, tree_lines(&b, 0, n));
    } else {
        put_all(&mut out, listed_lines(&keep_shown(&l.assets, folders)));
    }
    out
}

// ----- one asset -----------------------------------------------------------------------------

/// An asset that uses another.
#[verifier::opaque]
pub open spec fn user_line_of(a: AssetView) -> Seq<char> {
    "   "@ + a.guid + "  "@ + left(a.kind, 9) + " ["@ + a.package + "] "@ + a.path
}

fn user_line(a: &Asset) -> (r: String)
    ensures
        r@ == user_line_of(a@),
{
    proof {
        reveal(user_line_of);
    }
    let mut s = cat("   ", a.guid.as_str());
    s.append("  ");
    s.append(align_left(a.kind.as_str(), 9).as_str());
    s.append(" [");
    s.append(a.package.as_str());
    s.append("] ");
    s.append(a.path.as_str());
    s
}

/// Assets that use another.
pub open spec fn user_lines_of(s: Seq<AssetView>) -> Seq<Seq<char>> {
    s.map_values(|x: AssetView| user_line_of(x))
}

fn user_lines(v: &Vec<Asset>) -> (r: Vec<String>)
    ensures
        r.deep_view() == user_lines_of(v.deep_view()),
{
    map_all(v, user_line, Ghost(|x: AssetView| user_line_of(x)))
}

/// A direct dependency.
pub open spec fn ref_line_of(r: RefInfoView) -> Seq<char> {
    match r.asset {
        Some(c) => "   "@ + r.guid + "  "@ + left(c.kind, 9) + " ["@ + c.package + "] "@ + c.path,
        None => "   "@ + r.guid + "  (unresolved) "@ + text_or(r.label, ""@),
    }
}

fn ref_line(r: &RefInfo) -> (t: String)
    ensures
        t@ == ref_line_of(r@),
{
    let mut s = cat("   ", r.guid.as_str());
    match &r.asset {
        Some(c) => {
            s.append("  ");
            s.append(align_left(c.kind.as_str(), 9).as_str());
            s.append(" [");
            s.append(c.package.as_str());
            s.append("] ");
            s.append(c.path.as_str());
        },
        None => {
            s.append("  (unresolved) ");
            s.append(or_text(&r.label, ""));
        },
    }
    s
}

/// Direct dependencies.
pub open spec fn ref_lines_of(s: Seq<RefInfoView>) -> Seq<Seq<char>> {
    s.map_values(|x: RefInfoView| ref_line_of(x))
}

fn ref_lines(v: &Vec<RefInfo>) -> (r: Vec<String>)
    ensures
        r.deep_view() == ref_lines_of(v.deep_view()),
{
    map_all(v, ref_line, Ghost(|x: RefInfoView| ref_line_of(x)))
}

/// A line of details: a name and a value.
pub open spec fn detail_of(name: Seq<char>, value: Seq<char>) -> Seq<char> {
    left(name, 12) + " "@ + value
}

fn put_detail(out: &mut Vec<String>, name: &str, value: &str)
    ensures
        final(out).deep_view() == old(out).deep_view().push(detail_of(name@, value@)),
{
    let line = cat3(align_left(name, 12).as_str(), " ", value);
    put(out, line);
}

pub open spec fn yes_no(b: bool) -> Seq<char> {
    if b {
        "yes"@
    } else {
        "no"@
    }
}

fn yes_or_no(b: bool) -> (r: &'static str)
    ensures
        r@ == yes_no(b),
{
    if b {
        "yes"
    } else {
        "no"
    }
}

/// The details of an asset.
pub open spec fn asset_details_of(a: AssetView) -> Seq<Seq<char>> {
    seq![
        detail_of("guid"@, a.guid),
        detail_of("path"@, a.path),
        detail_of("kind"@, a.kind),
        detail_of("ext"@, a.ext),
        detail_of("importer"@, text_or(a.importer, ""@)),
        detail_of("main_class"@, text_or(a.main_class, ""@)),
        detail_of("package"@, a.package),
        detail_of("publisher"@, a.publisher),
        detail_of(
            "size"@,
            human_text(a.size as int) + "   preview: "@ + yes_no(a.has_preview) + "   text: "@ + yes_no(a.is_text),
        ),
    ]
}

fn asset_details(a: &Asset) -> (r: Vec<String>)
    ensures
        r.deep_view() == asset_details_of(a@),
{
    let mut out = no_lines();
    put_detail(&mut out, "guid", a.guid.as_str());
    put_detail(&mut out, "path", a.path.as_str());
    put_detail(&mut out, "kind", a.kind.as_str());
    put_detail(&mut out, "ext", a.ext.as_str());
    put_detail(&mut out, "importer", or_text(&a.importer, ""));
    put_detail(&mut out, "main_class", or_text(&a.main_class, ""));
    put_detail(&mut out, "package", a.package.as_str());
    put_detail(&mut out, "publisher", a.publisher.as_str());
    let mut size = cat3(human_bytes(a.size).as_str(), "   preview: ", yes_or_no(a.has_preview));
    size.append("   text: ");
    size.append(yes_or_no(a.is_text));
    put_detail(&mut out, "size", size.as_str());
    assert(out.deep_view() =~= asset_details_of(a@));
    out
}

pub open spec fn package_names_of(s: Seq<AssetView>) -> Seq<Seq<char>> {
    s.map_values(|a: AssetView| a.package)
}

fn package_names(v: &Vec<Asset>) -> (r: Vec<String>)
    ensures
        r.deep_view() == package_names_of(v.deep_view()),
{
    let ghost s = v.deep_view();
    let mut out = no_lines();
    let mut i: usize = 0;
    assert(out.deep_view() =~= package_names_of(s.take(0)));
    while i < v.len()
        invariant
            i <= v@.len(),
            s == v.deep_view(),
            out.deep_view() == package_names_of(s.take(i as int)),
        decreases v@.len() - i,
    {
        let ghost o0 = out.deep_view();
        put(&mut out, v[i].package.clone());
        assert(out.deep_view() =~= package_names_of(s.take(i + 1)));
        i += 1;
    }
    assert(s.take(s.len() as int) =~= s);
    out
}

/// The first dependencies of an asset, and how many more there are.
pub open spec fn refs_shown_of(refs: Seq<RefInfoView>) -> Seq<Seq<char>> {
    ref_lines_of(limited(refs, Some(50))) + (if refs.len() > 50 {
        seq!["   ... "@ + numeral((refs.len() - 50) as nat) + " more"@]
    } else {
        Seq::empty()
    })
}

fn refs_shown(refs: &Vec<RefInfo>) -> (r: Vec<String>)
    ensures
        r.deep_view() == refs_shown_of(refs.deep_view()),
{
    let first = refs.clone();
    assert(first.deep_view() =~= refs.deep_view());
    let mut out = ref_lines(&take_limited(first, Some(50)));
    let n: usize = refs.len();
    if n > 50 {
        put(&mut out, cat3("   ... ", decimal_usize(n - 50).as_str(), " more"));
    }
    assert(out.deep_view() =~= refs_shown_of(refs.deep_view()));
    out
}

/// What the details of an asset print.
pub open spec fn info_lines_of(info: AssetInfoView) -> Seq<Seq<char>> {
    let labels = if info.asset.labels.len() > 0 {
        seq![detail_of("labels"@, glue(info.asset.labels, ", "@))]
    } else {
        Seq::empty()
    };
    let namesakes = if info.same_guid_in.len() > 0 {
        seq![detail_of("also in"@, glue(package_names_of(info.same_guid_in), ", "@))]
    } else {
        Seq::empty()
    };
    let more = if info.referrers.len() > 20 {
        " (showing 20)"@
    } else {
        ""@
    };
    (asset_details_of(info.asset) + labels + namesakes).push(
        detail_of("direct deps"@, numeral(info.refs.len())),
    ) + refs_shown_of(info.refs).push(detail_of("used by"@, numeral(info.referrers.len()) + more)) + user_lines_of(
        limited(info.referrers, Some(20)),
    )
}

pub fn info_lines(info: &AssetInfo) -> (r: Vec<String>)
    ensures
        r.deep_view() == info_lines_of(info@),
{
    let mut out = asset_details(&info.asset);
    let ghost d = out.deep_view();
    let ghost labels = if info@.asset.labels.len() > 0 {
        seq![detail_of("labels"@, glue(info@.asset.labels, ", "@))]
    } else {
        Seq::empty()
    };
    let ghost namesakes = if info@.same_guid_in.len() > 0 {
        seq![detail_of("also in"@, glue(package_names_of(info@.same_guid_in), ", "@))]
    } else {
        Seq::empty()
    };
    if info.asset.labels.len() > 0 {
        put_detail(&mut out, "labels", join(&info.asset.labels, ", ").as_str());
    }
    assert(out.deep_view() =~= d + labels);
    if info.same_guid_in.len() > 0 {
        put_detail(&mut out, "also in", join(&package_names(&info.same_guid_in), ", ").as_str());
    }
    assert(out.deep_view() =~= d + labels + namesakes);
    put_detail(&mut out, "direct deps", decimal_usize(info.refs.len()).as_str());
    let ghost head = out.deep_view();
    let mut tail = refs_shown(&info.refs);
    let n: usize = info.referrers.len();
    let more: &str = if n > 20 {
        " (showing 20)"
    } else {
        ""
    };
    put_detail(&mut tail, "used by", cat(decimal_usize(n).as_str(), more).as_str());
    put_all(&mut out, tail);
    put_all(&mut out, user_lines(&take_limited(clone_assets(&info.referrers), Some(20))));
    out
}

// ----- users ---------------------------------------------------------------------------------

/// An asset that refers to another.
#[verifier::opaque]
pub open spec fn rdeps_line_of(a: AssetView) -> Seq<char> {
    "  "@ + a.guid + "  "@ + left(a.kind, 9) + " ["@ + a.package + "] "@ + a.path
}

fn rdeps_line(a: &Asset) -> (r: String)
    ensures
        r@ == rdeps_line_of(a@),
{
    proof {
        reveal(rdeps_line_of);
    }
    let mut s = cat("  ", a.guid.as_str());
    s.append("  ");
    s.append(align_left(a.kind.as_str(), 9).as_str());
    s.append(" [");
    s.append(a.package.as_str());
    s.append("] ");
    s.append(a.path.as_str());
    s
}

/// Assets that refer to another.
pub open spec fn referrer_lines_of(s: Seq<AssetView>) -> Seq<Seq<char>> {
    s.map_values(|x: AssetView| rdeps_line_of(x))
}

fn referrer_lines(v: &Vec<Asset>) -> (r: Vec<String>)
    ensures
        r.deep_view() == referrer_lines_of(v.deep_view()),
{
    map_all(v, rdeps_line, Ghost(|x: AssetView| rdeps_line_of(x)))
}

/// What the users of an asset print.
pub open spec fn rdeps_lines_of(rows: Seq<AssetView>, path: Seq<char>) -> Seq<Seq<char>> {
    seq![numeral(rows.len()) + " asset(s) reference "@ + path] + referrer_lines_of(rows)
}

pub fn rdeps_lines(rows: &Vec<Asset>, path: &str) -> (r: Vec<String>)
    ensures
        r.deep_view() == rdeps_lines_of(rows.deep_view(), path@),
{
    let mut out = no_lines();
    put(&mut out, cat3(decimal_usize(rows.len()).as_str(), " asset(s) reference ", path));
    assert(out.deep_view() =~= seq![numeral(rows@.len()) + " asset(s) reference "@ + path@]);
    put_all(&mut out, referrer_lines(rows));
    out
}

// ----- dependencies --------------------------------------------------------------------------

/// What the tree of dependencies is read from.
pub struct Tree {
    pub nodes: Map<Seq<char>, ClosureAssetView>,
    pub skipped: Map<Seq<char>, AssetView>,
    pub unresolved: Map<Seq<char>, UnresolvedView>,
    pub edges: Map<Seq<char>, Seq<Seq<char>>>,
}

pub open spec fn nodes_by_guid(s: Seq<ClosureAssetView>) -> Map<Seq<char>, ClosureAssetView>
    decreases s.len(),
{
    if s.len() == 0 {
        Map::empty()
    } else {
        nodes_by_guid(s.drop_last()).insert(s.last().asset.guid, s.last())
    }
}

pub open spec fn assets_by_guid(s: Seq<AssetView>) -> Map<Seq<char>, AssetView>
    decreases s.len(),
{
    if s.len() == 0 {
        Map::empty()
    } else {
        assets_by_guid(s.drop_last()).insert(s.last().guid, s.last())
    }
}

pub open spec fn unresolved_by_guid(s: Seq<UnresolvedView>) -> Map<Seq<char>, UnresolvedView>
    decreases s.len(),
{
    if s.len() == 0 {
        Map::empty()
    } else {
        unresolved_by_guid(s.drop_last()).insert(s.last().guid, s.last())
    }
}

pub open spec fn tree_of(cl: ClosureOutView) -> Tree {
    Tree {
        nodes: nodes_by_guid(cl.assets),
        skipped: assets_by_guid(cl.skipped_scripts),
        unresolved: unresolved_by_guid(cl.unresolved),
        edges: cl.edges,
    }
}

/// How far the tree is still followed.
pub open spec fn levels_left(depth: nat, indent: nat) -> nat {
    if indent < depth {
        (depth - indent) as nat
    } else {
        0
    }
}

pub open spec fn label_or(t: Tree, guid: Seq<char>) -> Seq<char> {
    if t.unresolved.contains_key(guid) {
        text_or(t.unresolved[guid].label, "unresolved"@)
    } else {
        "unresolved"@
    }
}

/// A node of the tree: its line, and the lines below it unless it was shown before or is too deep;
/// with what has been shown after it.
pub open spec fn node_lines(t: Tree, guid: Seq<char>, indent: nat, depth: nat, shown: Set<Seq<char>>) -> (
    Seq<Seq<char>>,
    Set<Seq<char>>,
)
    decreases levels_left(depth, indent), 1int, 0nat,
{
    if !t.nodes.contains_key(guid) {
        (seq![pad_of(indent) + "?? "@ + guid + "  ("@ + label_or(t, guid) + ")"@], shown)
    } else {
        let a = t.nodes[guid].asset;
        let again = shown.contains(guid);
        let line = pad_of(indent) + left(a.kind, 9) + " "@ + a.path + (if again {
            " (see above)"@
        } else {
            ""@
        });
        if again || indent >= depth {
            (seq![line], shown)
        } else {
            let children = if t.edges.contains_key(guid) {
                t.edges[guid]
            } else {
                Seq::empty()
            };
            let (below, after) = child_lines(t, children, children.len(), indent, depth, shown.insert(guid));
            (seq![line] + below, after)
        }
    }
}

/// The first `n` children of a node.
pub open spec fn child_lines(
    t: Tree,
    children: Seq<Seq<char>>,
    n: nat,
    indent: nat,
    depth: nat,
    shown: Set<Seq<char>>,
) -> (Seq<Seq<char>>, Set<Seq<char>>)
    decreases levels_left(depth, indent), 0int, n,
{
    if n == 0 || indent >= depth {
        (Seq::empty(), shown)
    } else {
        let (front, seen) = child_lines(t, children, (n - 1) as nat, indent, depth, shown);
        let c = children[n - 1];
        if t.skipped.contains_key(c) {
            (front.push(pad_of(indent + 1) + "script    "@ + t.skipped[c].path + " (skipped)"@), seen)
        } else {
            let (lines, after) = node_lines(t, c, indent + 1, depth, seen);
            (front + lines, after)
        }
    }
}

/// The first `n` roots with what is below them.
pub open spec fn root_lines(t: Tree, roots: Seq<Seq<char>>, n: nat, depth: nat) -> (Seq<Seq<char>>, Set<Seq<char>>)
    decreases n,
{
    if n == 0 {
        (Seq::empty(), Set::empty())
    } else {
        let (front, seen) = root_lines(t, roots, (n - 1) as nat, depth);
        let (lines, after) = node_lines(t, roots[n - 1], 0, depth, seen);
        (front + lines, after)
    }
}

/// What the tree of dependencies is read from.
struct TreeIndex {
    nodes: TextMap<ClosureAsset>,
    skipped: TextMap<Asset>,
    unresolved: TextMap<Unresolved>,
}

fn index_nodes(v: &Vec<ClosureAsset>) -> (r: TextMap<ClosureAsset>)
    ensures
        r.deep_view() == nodes_by_guid(v.deep_view()),
{
    let ghost s = v.deep_view();
    let mut out: TextMap<ClosureAsset> = TextMap::new();
    let mut i: usize = 0;
    assert(s.take(0) =~= Seq::<ClosureAssetView>::empty());
    assert(out.deep_view() =~= Map::<Seq<char>, ClosureAssetView>::empty());
    while i < v.len()
        invariant
            i <= v@.len(),
            s == v.deep_view(),
            out.deep_view() == nodes_by_guid(s.take(i as int)),
        decreases v@.len() - i,
    {
        let ghost o0 = out.deep_view();
        let x = v[i].clone();
        let ghost xv = x@;
        out.insert(v[i].asset.guid.clone(), x);
        proof {
            assert(s.take(i + 1).drop_last() =~= s.take(i as int));
            assert(s.take(i + 1).last() == v@[i as int]@);
            assert(out.deep_view() =~= o0.insert(xv.asset.guid, xv));
        }
        i += 1;
    }
    assert(s.take(s.len() as int) =~= s);
    out
}

fn index_assets(v: &Vec<Asset>) -> (r: TextMap<Asset>)
    ensures
        r.deep_view() == assets_by_guid(v.deep_view()),
{
    let ghost s = v.deep_view();
    let mut out: TextMap<Asset> = TextMap::new();
    let mut i: usize = 0;
    assert(s.take(0) =~= Seq::<AssetView>::empty());
    assert(out.deep_view() =~= Map::<Seq<char>, AssetView>::empty());
    while i < v.len()
        invariant
            i <= v@.len(),
            s == v.deep_view(),
            out.deep_view() == assets_by_guid(s.take(i as int)),
        decreases v@.len() - i,
    {
        let ghost o0 = out.deep_view();
        let x = v[i].clone();
        let ghost xv = x@;
        out.insert(v[i].guid.clone(), x);
        proof {
            assert(s.take(i + 1).drop_last() =~= s.take(i as int));
            assert(s.take(i + 1).last() == v@[i as int]@);
            assert(out.deep_view() =~= o0.insert(xv.guid, xv));
        }
        i += 1;
    }
    assert(s.take(s.len() as int) =~= s);
    out
}

fn index_unresolved(v: &Vec<Unresolved>) -> (r: TextMap<Unresolved>)
    ensures
        r.deep_view() == unresolved_by_guid(v.deep_view()),
{
    let ghost s = v.deep_view();
    let mut out: TextMap<Unresolved> = TextMap::new();
    let mut i: usize = 0;
    assert(s.take(0) =~= Seq::<UnresolvedView>::empty());
    assert(out.deep_view() =~= Map::<Seq<char>, UnresolvedView>::empty());
    while i < v.len()
        invariant
            i <= v@.len(),
            s == v.deep_view(),
            out.deep_view() == unresolved_by_guid(s.take(i as int)),
        decreases v@.len() - i,
    {
        let ghost o0 = out.deep_view();
        let x = v[i].clone();
        let ghost xv = x@;
        out.insert(v[i].guid.clone(), x);
        proof {
            assert(s.take(i + 1).drop_last() =~= s.take(i as int));
            assert(s.take(i + 1).last() == v@[i as int]@);
            assert(out.deep_view() =~= o0.insert(xv.guid, xv));
        }
        i += 1;
    }
    assert(s.take(s.len() as int) =~= s);
    out
}

impl TreeIndex {
    spec fn reads(&self, t: Tree) -> bool {
        &&& self.nodes.deep_view() == t.nodes
        &&& self.skipped.deep_view() == t.skipped
        &&& self.unresolved.deep_view() == t.unresolved
    }
}

fn unresolved_line(ix: &TreeIndex, guid: &str, indent: usize, Ghost(t): Ghost<Tree>) -> (r: String)
    requires
        ix.reads(t),
    ensures
        r@ == pad_of(indent as nat) + "?? "@ + guid@ + "  ("@ + label_or(t, guid@) + ")"@,
{
    assert(t.unresolved.dom() =~= ix.unresolved@.dom());
    let label: &str = match ix.unresolved.get(guid) {
        Some(u) => or_text(&u.label, "unresolved"),
        None => "unresolved",
    };
    let mut s = cat3(pad(indent).as_str(), "?? ", guid);
    s.append("  (");
    s.append(label);
    s.append(")");
    s
}

fn walk(
    ix: &TreeIndex,
    edges: &TextMap<Vec<String>>,
    guid: &str,
    indent: usize,
    depth: usize,
    shown: &mut TextSet,
    out: &mut Vec<String>,
    Ghost(t): Ghost<Tree>,
)
    requires
        ix.reads(t),
        edges.deep_view() == t.edges,
        indent <= depth,
    ensures
        ({
            let (lines, after) = node_lines(t, guid@, indent as nat, depth as nat, old(shown)@);
            &&& final(out).deep_view() == old(out).deep_view() + lines
            &&& final(shown)@ == after
        }),
    decreases depth - indent,
{
    let ghost o0 = out.deep_view();
    let ghost s0 = shown@;
    assert(t.nodes.dom() =~= ix.nodes@.dom());
    match ix.nodes.get(guid) {
        None => {
            let line = unresolved_line(ix, guid, indent, Ghost(t));
            let ghost lv = line@;
            put(out, line);
            assert(o0.push(lv) =~= o0 + seq![lv]);
        },
        Some(node) => {
            let again = shown.contains(guid);
            let mut line = cat3(
                pad(indent).as_str(),
                align_left(node.asset.kind.as_str(), 9).as_str(),
                " ",
            );
            line.append(node.asset.path.as_str());
            line.append(
                if again {
                    " (see above)"
                } else {
                    ""
                },
            );
            let ghost lv = line@;
            put(out, line);
            assert(o0.push(lv) =~= o0 + seq![lv]);
            if again || indent >= depth {
                return;
            }
            shown.insert(guid.to_string());
            let ghost s1 = s0.insert(guid@);
            proof {
                assert(t.edges.dom() =~= edges@.dom());
                assert(shown@ == s1);
            }
            match edges.get(guid) {
                None => {
                    assert(o0 + (seq![lv] + Seq::<Seq<char>>::empty()) =~= o0 + seq![lv]);
                },
                Some(children) => {
                    let ghost cs = children.deep_view();
                    assert(t.edges[guid@] == cs);
                    let ghost base = o0 + seq![lv];
                    let mut k: usize = 0;
                    assert(out.deep_view() =~= base + child_lines(t, cs, 0, indent as nat, depth as nat, s1).0);
                    while k < children.len()
                        invariant
                            k <= children@.len(),
                            cs == children.deep_view(),
                            ix.reads(t),
                            edges.deep_view() == t.edges,
                            indent < depth,
                            ({
                                let (lines, seen) = child_lines(t, cs, k as nat, indent as nat, depth as nat, s1);
                                &&& out.deep_view() == base + lines
                                &&& shown@ == seen
                            }),
                        decreases children@.len() - k,
                    {
                        let c = children[k].as_str();
                        let ghost front = child_lines(t, cs, k as nat, indent as nat, depth as nat, s1);
                        proof {
                            assert(cs[k as int] == c@);
                            assert(t.skipped.dom() =~= ix.skipped@.dom());
                        }
                        match ix.skipped.get(c) {
                            Some(s) => {
                                let mut line = cat3(pad(indent + 1).as_str(), "script    ", s.path.as_str());
                                line.append(" (skipped)");
                                let ghost kv = line@;
                                put(out, line);
                                assert(out.deep_view() =~= base + front.0.push(kv));
                            },
                            None => {
                                walk(ix, edges, c, indent + 1, depth, shown, out, Ghost(t));
                                proof {
                                    let sub = node_lines(t, c@, (indent + 1) as nat, depth as nat, front.1);
                                    assert(out.deep_view() =~= base + (front.0 + sub.0));
                                }
                            },
                        }
                        k += 1;
                    }
                    proof {
                        let all = child_lines(t, cs, cs.len(), indent as nat, depth as nat, s1);
                        assert(base + all.0 =~= o0 + (seq![lv] + all.0));
                    }
                },
            }
        },
    }
}

/// What the tree of dependencies prints: every root with what is below it, and an empty line.
pub open spec fn dep_tree_lines_of(cl: ClosureOutView, depth: nat) -> Seq<Seq<char>> {
    root_lines(tree_of(cl), cl.roots, cl.roots.len(), depth).0.push(""@)
}

pub fn dep_tree_lines(cl: &ClosureOut, depth: usize) -> (r: Vec<String>)
    ensures
        r.deep_view() == dep_tree_lines_of(cl@, depth as nat),
{
    let ghost t = tree_of(cl@);
    let ghost roots = cl@.roots;
    let ix = TreeIndex {
        nodes: index_nodes(&cl.assets),
        skipped: index_assets(&cl.skipped_scripts),
        unresolved: index_unresolved(&cl.unresolved),
    };
    let mut shown = TextSet::new();
    let mut out = no_lines();
    let mut i: usize = 0;
    assert(shown@ =~= Set::<Seq<char>>::empty());
    while i < cl.roots.len()
        invariant
            i <= cl.roots@.len(),
            t == tree_of(cl@),
            roots == cl@.roots,
            ix.reads(t),
            ({
                let (lines, seen) = root_lines(t, roots, i as nat, depth as nat);
                &&& out.deep_view() == lines
                &&& shown@ == seen
            }),
        decreases cl.roots@.len() - i,
    {
        assert(roots[i as int] == cl.roots@[i as int]@);
        walk(&ix, &cl.edges, cl.roots[i].as_str(), 0, depth, &mut shown, &mut out, Ghost(t));
        i += 1;
    }
    put(&mut out, "".to_string());
    out
}

pub open spec fn depth_tag_of(depth: u32) -> Seq<char> {
    if depth == 0 {
        "root"@
    } else {
        "d"@ + numeral(depth as nat)
    }
}

fn depth_tag(depth: u32) -> (r: String)
    ensures
        r@ == depth_tag_of(depth),
{
    if depth == 0 {
        "root".to_string()
    } else {
        cat("d", decimal(depth as u64).as_str())
    }
}

/// A node of the closure.
#[verifier::opaque]
pub open spec fn closure_line_of(n: ClosureAssetView) -> Seq<char> {
    "  "@ + n.asset.guid + "  "@ + left(depth_tag_of(n.depth), 4) + " "@ + left(n.asset.kind, 9) + " "@
        + right(human_text(n.asset.size as int), 8) + "  "@ + n.asset.path
}

fn closure_line(n: &ClosureAsset) -> (r: String)
    ensures
        r@ == closure_line_of(n@),
{
    proof {
        reveal(closure_line_of);
    }
    let mut s = cat("  ", n.asset.guid.as_str());
    s.append("  ");
    s.append(align_left(depth_tag(n.depth).as_str(), 4).as_str());
    s.append(" ");
    s.append(align_left(n.asset.kind.as_str(), 9).as_str());
    s.append(" ");
    s.append(align_right(human_bytes(n.asset.size).as_str(), 8).as_str());
    s.append("  ");
    s.append(n.asset.path.as_str());
    s
}

/// Nodes of the closure.
pub open spec fn closure_lines_of(s: Seq<ClosureAssetView>) -> Seq<Seq<char>> {
    s.map_values(|x: ClosureAssetView| closure_line_of(x))
}

fn closure_lines(v: &Vec<ClosureAsset>) -> (r: Vec<String>)
    ensures
        r.deep_view() == closure_lines_of(v.deep_view()),
{
    map_all(v, closure_line, Ghost(|x: ClosureAssetView| closure_line_of(x)))
}

/// A script that is left out.
#[verifier::opaque]
pub open spec fn skipped_line_of(a: AssetView) -> Seq<char> {
    "  "@ + a.guid + "  ["@ + a.package + "] "@ + a.path
}

fn skipped_line(a: &Asset) -> (r: String)
    ensures
        r@ == skipped_line_of(a@),
{
    proof {
        reveal(skipped_line_of);
    }
    let mut s = cat("  ", a.guid.as_str());
    s.append("  [");
    s.append(a.package.as_str());
    s.append("] ");
    s.append(a.path.as_str());
    s
}

/// Scripts that are left out.
pub open spec fn skipped_lines_of(s: Seq<AssetView>) -> Seq<Seq<char>> {
    s.map_values(|x: AssetView| skipped_line_of(x))
}

fn skipped_lines(v: &Vec<Asset>) -> (r: Vec<String>)
    ensures
        r.deep_view() == skipped_lines_of(v.deep_view()),
{
    map_all(v, skipped_line, Ghost(|x: AssetView| skipped_line_of(x)))
}

/// The nodes of a package.
pub open spec fn nodes_in(s: Seq<ClosureAssetView>, pid: i64) -> Seq<ClosureAssetView> {
    s.filter(|n: ClosureAssetView| n.asset.package_id == pid)
}

fn keep_nodes(v: &Vec<ClosureAsset>, pid: i64) -> (r: Vec<ClosureAsset>)
    ensures
        r.deep_view() == nodes_in(v.deep_view(), pid),
{
    let ghost s = v.deep_view();
    let ghost p = |n: ClosureAssetView| n.asset.package_id == pid;
    let mut out: Vec<ClosureAsset> = Vec::new();
    let mut i: usize = 0;
    proof {
        lemma_filter_none(s, p);
        assert(out.deep_view() =~= s.take(0).filter(p));
    }
    while i < v.len()
        invariant
            i <= v@.len(),
            s == v.deep_view(),
            p == (|n: ClosureAssetView| n.asset.package_id == pid),
            out.deep_view() == s.take(i as int).filter(p),
        decreases v@.len() - i,
    {
        proof {
            lemma_filter_step(s, p, i as int);
            assert(s[i as int] == v@[i as int]@);
        }
        if v[i].asset.package_id == pid {
            let ghost o0 = out.deep_view();
            out.push(v[i].clone());
            assert(out.deep_view() =~= o0.push(v@[i as int]@));
        }
        i += 1;
    }
    assert(s.take(s.len() as int) =~= s);
    out
}

pub open spec fn node_sizes(s: Seq<ClosureAssetView>) -> Seq<i64> {
    s.map_values(|n: ClosureAssetView| n.asset.size)
}

fn add_node_sizes(v: &Vec<ClosureAsset>) -> (r: i64)
    ensures
        r == size_sum(node_sizes(v.deep_view())),
{
    let ghost z = node_sizes(v.deep_view());
    let mut total: i64 = 0;
    let mut i: usize = 0;
    assert(z.take(0) =~= Seq::<i64>::empty());
    while i < v.len()
        invariant
            i <= v@.len(),
            z == node_sizes(v.deep_view()),
            z.len() == v@.len(),
            total == size_sum(z.take(i as int)),
        decreases v@.len() - i,
    {
        proof {
            assert(z[i as int] == v@[i as int]@.asset.size);
            assert(z.take(i + 1).drop_last() =~= z.take(i as int));
            assert(z.take(i + 1).last() == z[i as int]);
        }
        total = total.wrapping_add(v[i].asset.size);
        i += 1;
    }
    assert(z.take(z.len() as int) =~= z);
    total
}

pub open spec fn name_in(packages: Seq<PackageRefView>, pid: i64) -> Seq<char> {
    match find(packages, |p: PackageRefView| p.id == pid) {
        Some(p) => p.name,
        None => "?"@,
    }
}

fn find_name(packages: &Vec<PackageRef>, pid: i64) -> (r: String)
    ensures
        r@ == name_in(packages.deep_view(), pid),
{
    let ghost s = packages.deep_view();
    let ghost p = |p: PackageRefView| p.id == pid;
    let mut i: usize = 0;
    while i < packages.len()
        invariant
            i <= packages@.len(),
            s == packages.deep_view(),
            p == (|p: PackageRefView| p.id == pid),
            forall|k: int| 0 <= k < i ==> !p(#[trigger] s[k]),
        decreases packages@.len() - i,
    {
        assert(s[i as int] == packages@[i as int]@);
        if packages[i].id == pid {
            proof {
                lemma_first_index(s, p, i as int);
            }
            return packages[i].name.clone();
        }
        i += 1;
    }
    proof {
        lemma_first_index(s, p, s.len() as int);
    }
    "?".to_string()
}

/// The nodes of a package under its name.
pub open spec fn package_part_of(cl: ClosureOutView, pid: i64) -> Seq<Seq<char>> {
    let nodes = nodes_in(cl.assets, pid);
    let publisher = if nodes.len() > 0 {
        nodes[0].asset.publisher
    } else {
        ""@
    };
    seq![
        ""@,
        "["@ + signed_numeral(pid as int) + "] "@ + publisher + " / "@ + name_in(cl.packages, pid) + "  ("@ + numeral(
            nodes.len(),
        ) + " assets, "@ + human_text(size_sum(node_sizes(nodes)) as int) + ")"@,
    ] + closure_lines_of(nodes)
}

fn package_part(cl: &ClosureOut, pid: i64) -> (r: Vec<String>)
    ensures
        r.deep_view() == package_part_of(cl@, pid),
{
    let nodes = keep_nodes(&cl.assets, pid);
    let ghost ns = nodes.deep_view();
    let mut head = cat3("[", decimal_i64(pid).as_str(), "] ");
    if nodes.len() > 0 {
        assert(ns[0] == nodes@[0]@);
        head.append(nodes[0].asset.publisher.as_str());
    } else {
        head.append("");
    }
    head.append(" / ");
    head.append(find_name(&cl.packages, pid).as_str());
    head.append("  (");
    head.append(decimal_usize(nodes.len()).as_str());
    head.append(" assets, ");
    head.append(human_bytes(add_node_sizes(&nodes)).as_str());
    head.append(")");
    let ghost hv = head@;
    let mut out = no_lines();
    put(&mut out, "".to_string());
    put(&mut out, head);
    assert(out.deep_view() =~= seq![""@, hv]);
    put_all(&mut out, closure_lines(&nodes));
    out
}

/// The nodes of the first packages.
pub open spec fn package_parts_of(cl: ClosureOutView, ids: Seq<i64>) -> Seq<Seq<char>>
    decreases ids.len(),
{
    if ids.len() == 0 {
        Seq::empty()
    } else {
        package_parts_of(cl, ids.drop_last()) + package_part_of(cl, ids.last())
    }
}

pub open spec fn node_packages(s: Seq<ClosureAssetView>) -> Seq<i64> {
    distinct(s.map_values(|n: ClosureAssetView| n.asset.package_id))
}

fn package_parts(cl: &ClosureOut) -> (r: Vec<String>)
    ensures
        r.deep_view() == package_parts_of(cl@, node_packages(cl@.assets)),
{
    let ghost s = cl@.assets;
    let mut keys: Vec<i64> = Vec::new();
    let mut i: usize = 0;
    while i < cl.assets.len()
        invariant
            i <= cl.assets@.len(),
            s == cl.assets.deep_view(),
            keys@.len() == i,
            forall|k: int| 0 <= k < i ==> keys@[k] == (#[trigger] s[k]).asset.package_id,
        decreases cl.assets@.len() - i,
    {
        assert(s[i as int] == cl.assets@[i as int]@);
        keys.push(cl.assets[i].asset.package_id);
        i += 1;
    }
    assert(keys@ =~= s.map_values(|n: ClosureAssetView| n.asset.package_id));
    let ids = distinct_ids(&keys);
    let mut out = no_lines();
    let mut k: usize = 0;
    assert(ids@.take(0) =~= Seq::<i64>::empty());
    while k < ids.len()
        invariant
            k <= ids@.len(),
            out.deep_view() == package_parts_of(cl@, ids@.take(k as int)),
        decreases ids@.len() - k,
    {
        proof {
            assert(ids@.take(k + 1).drop_last() =~= ids@.take(k as int));
            assert(ids@.take(k + 1).last() == ids@[k as int]);
        }
        put_all(&mut out, package_part(cl, ids[k]));
        k += 1;
    }
    assert(ids@.take(ids@.len() as int) =~= ids@);
    out
}

/// The first that refers to an unresolved guid: the name of its file where it is in the closure.
pub open spec fn first_referrer_of(assets: Seq<ClosureAssetView>, u: UnresolvedView) -> Seq<char> {
    let first = if u.referrers.len() > 0 {
        u.referrers[0]
    } else {
        ""@
    };
    match find(assets, |a: ClosureAssetView| a.asset.guid == first) {
        Some(a) => after_last(a.asset.path, '/'),
        None => first,
    }
}

fn first_referrer(assets: &Vec<ClosureAsset>, u: &Unresolved) -> (r: String)
    ensures
        r@ == first_referrer_of(assets.deep_view(), u@),
{
    let first: &str = if u.referrers.len() > 0 {
        assert(u@.referrers[0] == u.referrers@[0]@);
        u.referrers[0].as_str()
    } else {
        ""
    };
    let ghost s = assets.deep_view();
    let ghost p = |a: ClosureAssetView| a.asset.guid == first@;
    let mut i: usize = 0;
    while i < assets.len()
        invariant
            i <= assets@.len(),
            s == assets.deep_view(),
            p == (|a: ClosureAssetView| a.asset.guid == first@),
            first@ == (if u@.referrers.len() > 0 {
                u@.referrers[0]
            } else {
                ""@
            }),
            forall|k: int| 0 <= k < i ==> !p(#[trigger] s[k]),
        decreases assets@.len() - i,
    {
        assert(s[i as int] == assets@[i as int]@);
        if same_text(assets[i].asset.guid.as_str(), first) {
            proof {
                lemma_first_index(s, p, i as int);
            }
            return text_after_last(assets[i].asset.path.as_str(), '/');
        }
        i += 1;
    }
    proof {
        lemma_first_index(s, p, s.len() as int);
    }
    first.to_string()
}

/// An unresolved guid.
pub open spec fn missing_line_of(assets: Seq<ClosureAssetView>, u: UnresolvedView) -> Seq<char> {
    "  "@ + u.guid + "  "@ + text_or(u.label, "?"@) + "   (referenced by "@ + first_referrer_of(assets, u) + (
    if u.referrers.len() > 1 {
        " +"@ + numeral((u.referrers.len() - 1) as nat)
    } else {
        ""@
    }) + ")"@
}

fn missing_line(assets: &Vec<ClosureAsset>, u: &Unresolved) -> (r: String)
    ensures
        r@ == missing_line_of(assets.deep_view(), u@),
{
    let mut s = cat3("  ", u.guid.as_str(), "  ");
    s.append(or_text(&u.label, "?"));
    s.append("   (referenced by ");
    s.append(first_referrer(assets, u).as_str());
    let n: usize = u.referrers.len();
    if n > 1 {
        s.append(cat(" +", decimal_usize(n - 1).as_str()).as_str());
    } else {
        s.append("");
    }
    s.append(")");
    s
}

pub open spec fn missing_lines_of(assets: Seq<ClosureAssetView>, s: Seq<UnresolvedView>) -> Seq<Seq<char>> {
    s.map_values(|u: UnresolvedView| missing_line_of(assets, u))
}

fn missing_lines(assets: &Vec<ClosureAsset>, v: &Vec<Unresolved>) -> (r: Vec<String>)
    ensures
        r.deep_view() == missing_lines_of(assets.deep_view(), v.deep_view()),
{
    let ghost s = v.deep_view();
    let ghost az = assets.deep_view();
    let mut out = no_lines();
    let mut i: usize = 0;
    assert(out.deep_view() =~= missing_lines_of(az, s.take(0)));
    while i < v.len()
        invariant
            i <= v@.len(),
            s == v.deep_view(),
            az == assets.deep_view(),
            out.deep_view() == missing_lines_of(az, s.take(i as int)),
        decreases v@.len() - i,
    {
        let line = missing_line(assets, &v[i]);
        let ghost lv = line@;
        put(&mut out, line);
        proof {
            assert(lv == missing_line_of(az, s[i as int]));
            assert(out.deep_view() =~= missing_lines_of(az, s.take(i + 1)));
        }
        i += 1;
    }
    assert(s.take(s.len() as int) =~= s);
    out
}

pub open spec fn deps_head_of(cl: ClosureOutView) -> Seq<char> {
    numeral(cl.assets.len()) + " asset(s) in closure, "@ + human_text(cl.total_bytes as int) + " total, "@ + numeral(
        cl.unresolved.len(),
    ) + " unresolved, "@ + numeral(cl.skipped_scripts.len()) + " scripts skipped"@
}

fn deps_head(cl: &ClosureOut) -> (r: String)
    ensures
        r@ == deps_head_of(cl@),
{
    let mut s = cat(decimal_usize(cl.assets.len()).as_str(), " asset(s) in closure, ");
    s.append(human_bytes(cl.total_bytes).as_str());
    s.append(" total, ");
    s.append(decimal_usize(cl.unresolved.len()).as_str());
    s.append(" unresolved, ");
    s.append(decimal_usize(cl.skipped_scripts.len()).as_str());
    s.append(" scripts skipped");
    s
}

/// What a dependency closure prints: how large it is, the tree where it is asked for, the nodes by
/// package, the scripts left out, and the guids that no package holds.
pub open spec fn deps_lines_of(cl: ClosureOutView, tree: bool, depth: Option<u32>) -> Seq<Seq<char>> {
    let levels = match depth {
        Some(d) => d as nat,
        None => 6,
    };
    let top = if tree {
        dep_tree_lines_of(cl, levels)
    } else {
        Seq::empty()
    };
    let skipped = if cl.skipped_scripts.len() > 0 {
        seq![""@, "scripts skipped (--no-scripts):"@] + skipped_lines_of(cl.skipped_scripts)
    } else {
        Seq::empty()
    };
    let unresolved = if cl.unresolved.len() > 0 {
        seq![
            ""@,
            "unresolved guids (not in library; Unity built-ins / UPM packages / packages you do not have):"@,
        ] + missing_lines_of(cl.assets, cl.unresolved)
    } else {
        Seq::empty()
    };
    seq![deps_head_of(cl)] + top + package_parts_of(cl, node_packages(cl.assets)) + skipped + unresolved
}

pub fn deps_lines(cl: &ClosureOut, tree: bool, depth: Option<u32>) -> (r: Vec<String>)
    ensures
        r.deep_view() == deps_lines_of(cl@, tree, depth),
{
    let levels: usize = match depth {
        Some(d) => d as usize,
        None => 6,
    };
    let mut out = no_lines();
    put(&mut out, deps_head(cl));
    let ghost none = Seq::<Seq<char>>::empty();
    let ghost h = seq![deps_head_of(cl@)];
    assert(out.deep_view() =~= h);
    let ghost top = if tree {
        dep_tree_lines_of(cl@, levels as nat)
    } else {
        none
    };
    if tree {
        put_all(&mut out, dep_tree_lines(cl, levels));
    }
    assert(out.deep_view() =~= h + top);
    put_all(&mut out, package_parts(cl));
    let ghost mid = out.deep_view();
    let ghost skipped = if cl@.skipped_scripts.len() > 0 {
        seq![""@, "scripts skipped (--no-scripts):"@] + skipped_lines_of(cl@.skipped_scripts)
    } else {
        none
    };
    if cl.skipped_scripts.len() > 0 {
        put(&mut out, "".to_string());
        put(&mut out, "scripts skipped (--no-scripts):".to_string());
        put_all(&mut out, skipped_lines(&cl.skipped_scripts));
    }
    assert(out.deep_view() =~= mid + skipped);
    let ghost late = out.deep_view();
    let ghost unresolved = if cl@.unresolved.len() > 0 {
        seq![
            ""@,
            "unresolved guids (not in library; Unity built-ins / UPM packages / packages you do not have):"@,
        ] + missing_lines_of(cl@.assets, cl@.unresolved)
    } else {
        none
    };
    if cl.unresolved.len() > 0 {
        put(&mut out, "".to_string());
        put(
            &mut out,
            "unresolved guids (not in library; Unity built-ins / UPM packages / packages you do not have):".to_string(),
        );
        put_all(&mut out, missing_lines(&cl.assets, &cl.unresolved));
    }
    assert(out.deep_view() =~= late + unresolved);
    out
}

// ----- exports -------------------------------------------------------------------------------

/// A file that was written.
#[verifier::opaque]
pub open spec fn file_line_of(w: WrittenFileView) -> Seq<char> {
    "  + "@ + w.path
}

fn file_line(w: &WrittenFile) -> (r: String)
    ensures
        r@ == file_line_of(w@),
{
    proof {
        reveal(file_line_of);
    }
    let mut s = cat("  + ", w.path.as_str());
    s
}

/// Files that were written.
pub open spec fn written_lines_of(s: Seq<WrittenFileView>) -> Seq<Seq<char>> {
    s.map_values(|x: WrittenFileView| file_line_of(x))
}

fn written_lines(v: &Vec<WrittenFile>) -> (r: Vec<String>)
    ensures
        r.deep_view() == written_lines_of(v.deep_view()),
{
    map_all(v, file_line, Ghost(|x: WrittenFileView| file_line_of(x)))
}

/// A guid that the project has at another path.
#[verifier::opaque]
pub open spec fn conflict_line_of(c: ConflictView) -> Seq<char> {
    "  "@ + c.guid + "  "@ + c.path + "  ->  already at "@ + c.existing_path
}

fn conflict_line(c: &Conflict) -> (r: String)
    ensures
        r@ == conflict_line_of(c@),
{
    proof {
        reveal(conflict_line_of);
    }
    let mut s = cat("  ", c.guid.as_str());
    s.append("  ");
    s.append(c.path.as_str());
    s.append("  ->  already at ");
    s.append(c.existing_path.as_str());
    s
}

/// Guids that the project has at another path.
pub open spec fn conflict_lines_of(s: Seq<ConflictView>) -> Seq<Seq<char>> {
    s.map_values(|x: ConflictView| conflict_line_of(x))
}

fn conflict_lines(v: &Vec<Conflict>) -> (r: Vec<String>)
    ensures
        r.deep_view() == conflict_lines_of(v.deep_view()),
{
    map_all(v, conflict_line, Ghost(|x: ConflictView| conflict_line_of(x)))
}

/// An unresolved reference.
#[verifier::opaque]
pub open spec fn open_line_of(u: UnresolvedView) -> Seq<char> {
    "  "@ + u.guid + "  "@ + text_or(u.label, "?"@)
}

fn open_line(u: &Unresolved) -> (r: String)
    ensures
        r@ == open_line_of(u@),
{
    proof {
        reveal(open_line_of);
    }
    let mut s = cat("  ", u.guid.as_str());
    s.append("  ");
    s.append(or_text(&u.label, "?"));
    s
}

/// Unresolved references.
pub open spec fn open_lines_of(s: Seq<UnresolvedView>) -> Seq<Seq<char>> {
    s.map_values(|x: UnresolvedView| open_line_of(x))
}

fn open_lines(v: &Vec<Unresolved>) -> (r: Vec<String>)
    ensures
        r.deep_view() == open_lines_of(v.deep_view()),
{
    map_all(v, open_line, Ghost(|x: UnresolvedView| open_line_of(x)))
}

pub open spec fn note_lines_of(s: Seq<Seq<char>>) -> Seq<Seq<char>> {
    s.map_values(|w: Seq<char>| "note: "@ + w)
}

fn note_lines(v: &Vec<String>) -> (r: Vec<String>)
    ensures
        r.deep_view() == note_lines_of(v.deep_view()),
{
    let ghost s = v.deep_view();
    let mut out = no_lines();
    let mut i: usize = 0;
    assert(out.deep_view() =~= note_lines_of(s.take(0)));
    while i < v.len()
        invariant
            i <= v@.len(),
            s == v.deep_view(),
            out.deep_view() == note_lines_of(s.take(i as int)),
        decreases v@.len() - i,
    {
        put(&mut out, cat("note: ", v[i].as_str()));
        assert(out.deep_view() =~= note_lines_of(s.take(i + 1)));
        i += 1;
    }
    assert(s.take(s.len() as int) =~= s);
    out
}

/// How much was written, and how long it took.
pub open spec fn export_head_of(o: ExportOutView, dry_run: bool, seconds: Seq<char>) -> Seq<char> {
    (if dry_run {
        "would write"@
    } else {
        "wrote"@
    }) + " "@ + numeral(o.result.written.len()) + " file(s) ("@ + human_text(o.result.bytes_written as int) + ") to "@
        + o.result.output + " in "@ + seconds + "s"@
}

fn export_head(o: &ExportOut, dry_run: bool, seconds: &str) -> (r: String)
    ensures
        r@ == export_head_of(o@, dry_run, seconds@),
{
    let verb: &str = if dry_run {
        "would write"
    } else {
        "wrote"
    };
    let mut s = cat3(verb, " ", decimal_usize(o.result.written.len()).as_str());
    s.append(" file(s) (");
    s.append(human_bytes(o.result.bytes_written).as_str());
    s.append(") to ");
    s.append(o.result.output.as_str());
    s.append(" in ");
    s.append(seconds);
    s.append("s");
    s
}

/// The files that were written: all of them, or the first 40 and how many more there are.
pub open spec fn written_part_of(s: Seq<WrittenFileView>, verbose: bool) -> Seq<Seq<char>> {
    if verbose || s.len() <= 40 {
        written_lines_of(s)
    } else {
        written_lines_of(s.take(40)).push("  ... "@ + numeral((s.len() - 40) as nat) + " more (use -v)"@)
    }
}

fn written_part(v: &Vec<WrittenFile>, verbose: bool) -> (r: Vec<String>)
    ensures
        r.deep_view() == written_part_of(v.deep_view(), verbose),
{
    let n: usize = v.len();
    if verbose || n <= 40 {
        return written_lines(v);
    }
    let first = v.clone();
    assert(first.deep_view() =~= v.deep_view());
    let mut out = written_lines(&take_limited(first, Some(40)));
    put(&mut out, cat3("  ... ", decimal_usize(n - 40).as_str(), " more (use -v)"));
    out
}

/// The references that no package resolves: the first 20 and how many more there are.
pub open spec fn open_part_of(s: Seq<UnresolvedView>) -> Seq<Seq<char>> {
    if s.len() == 0 {
        Seq::empty()
    } else {
        seq!["unresolved references:"@] + open_lines_of(limited(s, Some(20))) + (if s.len() > 20 {
            seq!["  ... "@ + numeral((s.len() - 20) as nat) + " more (see `uai deps`)"@]
        } else {
            Seq::empty()
        })
    }
}

fn open_part(v: &Vec<Unresolved>) -> (r: Vec<String>)
    ensures
        r.deep_view() == open_part_of(v.deep_view()),
{
    let mut out = no_lines();
    let n: usize = v.len();
    if n == 0 {
        return out;
    }
    put(&mut out, "unresolved references:".to_string());
    assert(out.deep_view() =~= seq!["unresolved references:"@]);
    let first = v.clone();
    assert(first.deep_view() =~= v.deep_view());
    put_all(&mut out, open_lines(&take_limited(first, Some(20))));
    if n > 20 {
        put(&mut out, cat3("  ... ", decimal_usize(n - 20).as_str(), " more (see `uai deps`)"));
    }
    assert(out.deep_view() =~= open_part_of(v.deep_view()));
    out
}

/// What was left alone, what is in conflict, and what the package did not hold.
pub open spec fn trouble_part_of(o: ExportOutView) -> Seq<Seq<char>> {
    let r = o.result;
    let skipped = if r.skipped_existing.len() > 0 {
        seq![
            "skipped "@ + numeral(r.skipped_existing.len()) + " existing file(s) (use --force to overwrite)"@,
        ]
    } else {
        Seq::empty()
    };
    let conflicts = if r.conflicts.len() > 0 {
        seq![
            "CONFLICT: "@ + numeral(r.conflicts.len())
                + " guid(s) already exist in the project at a different path:"@,
        ] + conflict_lines_of(r.conflicts)
    } else {
        Seq::empty()
    };
    let missing = if r.missing_in_package.len() > 0 {
        seq![
            "WARNING: "@ + numeral(r.missing_in_package.len())
                + " planned asset(s) were not found inside the package (index stale? run `uai index`)"@,
        ]
    } else {
        Seq::empty()
    };
    skipped + conflicts + missing
}

fn trouble_part(o: &ExportOut) -> (r: Vec<String>)
    ensures
        r.deep_view() == trouble_part_of(o@),
{
    let mut out = no_lines();
    let ghost none = Seq::<Seq<char>>::empty();
    let ghost v = o@.result;
    let ns: usize = o.result.skipped_existing.len();
    if ns > 0 {
        put(
            &mut out,
            cat3("skipped ", decimal_usize(ns).as_str(), " existing file(s) (use --force to overwrite)"),
        );
    }
    let ghost skipped = if v.skipped_existing.len() > 0 {
        seq![
            "skipped "@ + numeral(v.skipped_existing.len()) + " existing file(s) (use --force to overwrite)"@,
        ]
    } else {
        none
    };
    assert(out.deep_view() =~= skipped);
    let nc: usize = o.result.conflicts.len();
    if nc > 0 {
        put(
            &mut out,
            cat3(
                "CONFLICT: ",
                decimal_usize(nc).as_str(),
                " guid(s) already exist in the project at a different path:",
            ),
        );
        put_all(&mut out, conflict_lines(&o.result.conflicts));
    }
    let ghost conflicts = if v.conflicts.len() > 0 {
        seq![
            "CONFLICT: "@ + numeral(v.conflicts.len())
                + " guid(s) already exist in the project at a different path:"@,
        ] + conflict_lines_of(v.conflicts)
    } else {
        none
    };
    assert(out.deep_view() =~= skipped + conflicts);
    let nm: usize = o.result.missing_in_package.len();
    if nm > 0 {
        put(
            &mut out,
            cat3(
                "WARNING: ",
                decimal_usize(nm).as_str(),
                " planned asset(s) were not found inside the package (index stale? run `uai index`)",
            ),
        );
    }
    assert(out.deep_view() =~= trouble_part_of(o@));
    out
}

/// What an export prints.
pub open spec fn export_lines_of(
    o: ExportOutView,
    dry_run: bool,
    quiet: bool,
    verbose: bool,
    seconds: Seq<char>,
) -> Seq<Seq<char>> {
    seq![export_head_of(o, dry_run, seconds)] + (if quiet {
        Seq::empty()
    } else {
        written_part_of(o.result.written, verbose)
    }) + trouble_part_of(o) + note_lines_of(o.plan.warnings) + (if quiet {
        Seq::empty()
    } else {
        open_part_of(o.plan.unresolved)
    })
}

/// What an export prints; `seconds` says how long it took.
pub fn export_lines(o: &ExportOut, dry_run: bool, quiet: bool, verbose: bool, seconds: &str) -> (r: Vec<String>)
    ensures
        r.deep_view() == export_lines_of(o@, dry_run, quiet, verbose, seconds@),
{
    let mut out = no_lines();
    put(&mut out, export_head(o, dry_run, seconds));
    let ghost h = seq![export_head_of(o@, dry_run, seconds@)];
    let ghost none = Seq::<Seq<char>>::empty();
    assert(out.deep_view() =~= h);
    if !quiet {
        put_all(&mut out, written_part(&o.result.written, verbose));
    }
    let ghost w = if quiet {
        none
    } else {
        written_part_of(o@.result.written, verbose)
    };
    assert(out.deep_view() =~= h + w);
    put_all(&mut out, trouble_part(o));
    put_all(&mut out, note_lines(&o.plan.warnings));
    let ghost late = out.deep_view();
    if !quiet {
        put_all(&mut out, open_part(&o.plan.unresolved));
    }
    let ghost u = if quiet {
        none
    } else {
        open_part_of(o@.plan.unresolved)
    };
    assert(out.deep_view() =~= late + u);
    out
}

// ----- cache ---------------------------------------------------------------------------------

/// A cached package.
#[verifier::opaque]
pub open spec fn cache_line_of(e: CacheEntryView) -> Seq<char> {
    "["@ + signed_numeral(e.package_id as int) + "] "@ + left(e.package, 50) + " "@
        + right(human_text(e.bytes as int), 9) + "  "@ + (if e.complete { "ok"@ } else { "partial"@ })
}

fn cache_line(e: &CacheEntry) -> (r: String)
    ensures
        r@ == cache_line_of(e@),
{
    proof {
        reveal(cache_line_of);
    }
    let mut s = cat("[", decimal_i64(e.package_id).as_str());
    s.append("] ");
    s.append(align_left(e.package.as_str(), 50).as_str());
    s.append(" ");
    s.append(align_right(human_bytes(e.bytes).as_str(), 9).as_str());
    s.append("  ");
    s.append(if e.complete { "ok" } else { "partial" });
    s
}

/// Cached packages.
pub open spec fn cached_lines_of(s: Seq<CacheEntryView>) -> Seq<Seq<char>> {
    s.map_values(|x: CacheEntryView| cache_line_of(x))
}

fn cached_lines(v: &Vec<CacheEntry>) -> (r: Vec<String>)
    ensures
        r.deep_view() == cached_lines_of(v.deep_view()),
{
    map_all(v, cache_line, Ghost(|x: CacheEntryView| cache_line_of(x)))
}

/// What the list of cached packages prints.
pub open spec fn cache_lines_of(s: Seq<CacheEntryView>) -> Seq<Seq<char>> {
    if s.len() == 0 {
        seq!["cache is empty"@]
    } else {
        cached_lines_of(s)
    }
}

pub fn cache_lines(v: &Vec<CacheEntry>) -> (r: Vec<String>)
    ensures
        r.deep_view() == cache_lines_of(v.deep_view()),
{
    if v.len() == 0 {
        let mut out = no_lines();
        put(&mut out, "cache is empty".to_string());
        assert(out.deep_view() =~= seq!["cache is empty"@]);
        out
    } else {
        cached_lines(v)
    }
}

// ----- settings and index --------------------------------------------------------------------

/// A setting.
pub open spec fn setting_of(name: Seq<char>, value: Seq<char>) -> Seq<char> {
    left(name, 16) + " "@ + value
}

fn put_setting(out: &mut Vec<String>, name: &str, value: &str)
    ensures
        final(out).deep_view() == old(out).deep_view().push(setting_of(name@, value@)),
{
    let line = cat3(align_left(name, 16).as_str(), " ", value);
    put(out, line);
}

pub open spec fn truth_text(b: bool) -> Seq<char> {
    if b {
        "true"@
    } else {
        "false"@
    }
}

fn truth_word(b: bool) -> (r: &'static str)
    ensures
        r@ == truth_text(b),
{
    if b {
        "true"
    } else {
        "false"
    }
}

/// The settings, by name: what is configured, and how large the index is or why that is not known.
pub open spec fn config_lines_of(
    cfg: ConfigView,
    mounted: bool,
    stats: Result<StatsView, Seq<char>>,
    version: Seq<char>,
) -> Seq<Seq<char>> {
    let db = joined_path(cfg.home, "index.db"@);
    let previews_db = joined_path(cfg.home, "previews.db"@);
    let cache = joined_path(cfg.home, "cache"@);
    let library = cfg.library + (if mounted {
        ""@
    } else {
        "  (not mounted)"@
    });
    let server = text_or(cfg.server, "-"@);
    match stats {
        Ok(s) => seq![
            setting_of("assets"@, signed_numeral(s.assets as int)),
            setting_of("bytes"@, signed_numeral(s.bytes as int)),
            setting_of("cache_dir"@, cache),
            setting_of("db"@, db),
            setting_of("fts"@, truth_text(s.fts)),
            setting_of("home"@, cfg.home),
            setting_of("library"@, library),
            setting_of("library_mounted"@, truth_text(mounted)),
            setting_of("packages"@, signed_numeral(s.packages as int)),
            setting_of("previews"@, signed_numeral(s.previews as int)),
            setting_of("previews_db"@, previews_db),
            setting_of("refs"@, signed_numeral(s.refs as int)),
            setting_of("server"@, server),
            setting_of("version"@, version),
        ],
        Err(e) => seq![
            setting_of("cache_dir"@, cache),
            setting_of("db"@, db),
            setting_of("home"@, cfg.home),
            setting_of("library"@, library),
            setting_of("library_mounted"@, truth_text(mounted)),
            setting_of("previews_db"@, previews_db),
            setting_of("server"@, server),
            setting_of("stats_error"@, e),
            setting_of("version"@, version),
        ],
    }
}

pub open spec fn stats_outcome(stats: Result<Stats, String>) -> Result<StatsView, Seq<char>> {
    match stats {
        Ok(s) => Ok(s@),
        Err(e) => Err(e@),
    }
}

/// What the settings print; `mounted` says whether the library is there, `stats` how large the index
/// is or why that is not known.
pub fn config_lines(cfg: &Config, mounted: bool, stats: &Result<Stats, String>, version: &str) -> (r: Vec<String>)
    ensures
        r.deep_view() == config_lines_of(cfg@, mounted, stats_outcome(*stats), version@),
{
    let db = cfg.db_path();
    let previews_db = cfg.previews_path();
    let cache = cfg.cache_dir();
    let state: &str = if mounted {
        ""
    } else {
        "  (not mounted)"
    };
    let library = cat(cfg.library.as_str(), state);
    let server = or_text(&cfg.server, "-");
    let mut out = no_lines();
    match stats {
        Ok(s) => {
            put_setting(&mut out, "assets", decimal_i64(s.assets).as_str());
            put_setting(&mut out, "bytes", decimal_i64(s.bytes).as_str());
            put_setting(&mut out, "cache_dir", cache.as_str());
            put_setting(&mut out, "db", db.as_str());
            put_setting(&mut out, "fts", truth_word(s.fts));
            put_setting(&mut out, "home", cfg.home.as_str());
            put_setting(&mut out, "library", library.as_str());
            put_setting(&mut out, "library_mounted", truth_word(mounted));
            put_setting(&mut out, "packages", decimal_i64(s.packages).as_str());
            put_setting(&mut out, "previews", decimal_i64(s.previews).as_str());
            put_setting(&mut out, "previews_db", previews_db.as_str());
            put_setting(&mut out, "refs", decimal_i64(s.refs).as_str());
            put_setting(&mut out, "server", server);
            put_setting(&mut out, "version", version);
        },
        Err(e) => {
            put_setting(&mut out, "cache_dir", cache.as_str());
            put_setting(&mut out, "db", db.as_str());
            put_setting(&mut out, "home", cfg.home.as_str());
            put_setting(&mut out, "library", library.as_str());
            put_setting(&mut out, "library_mounted", truth_word(mounted));
            put_setting(&mut out, "previews_db", previews_db.as_str());
            put_setting(&mut out, "server", server);
            put_setting(&mut out, "stats_error", e.as_str());
            put_setting(&mut out, "version", version);
        },
    }
    assert(out.deep_view() =~= config_lines_of(cfg@, mounted, stats_outcome(*stats), version@));
    out
}

/// What a run of the indexer prints at its end.
pub open spec fn report_line_of(r: IndexReportView, seconds: Seq<char>) -> Seq<char> {
    "done: "@ + numeral(r.indexed as nat) + " indexed, "@ + numeral(r.skipped as nat) + " up to date, "@ + numeral(
        r.errors as nat,
    ) + " errors, "@ + numeral(r.entries as nat) + " assets, "@ + numeral(r.previews as nat) + " previews in "@ + seconds
        + "s"@
}

/// What a run of the indexer prints at its end; `seconds` says how long it took.
pub fn report_line(r: &IndexReport, seconds: &str) -> (t: String)
    ensures
        t@ == report_line_of(r@, seconds@),
{
    let mut s = cat3("done: ", decimal_usize(r.indexed).as_str(), " indexed, ");
    s.append(decimal_usize(r.skipped).as_str());
    s.append(" up to date, ");
    s.append(decimal_usize(r.errors).as_str());
    s.append(" errors, ");
    s.append(decimal_usize(r.entries).as_str());
    s.append(" assets, ");
    s.append(decimal_usize(r.previews).as_str());
    s.append(" previews in ");
    s.append(seconds);
    s.append("s");
    s
}

/// That a command runs where the library is, and not against a server.
pub fn check_local(cfg: &Config, complaint: &str) -> (r: Result<(), Error>)
    ensures
        cfg@.server is None ==> r is Ok,
        cfg@.server is Some ==> (r matches Err(e) && e@ == ErrorView::Other(complaint@)),
{
    match &cfg.server {
        None => Ok(()),
        Some(_) => Err(Error::Other(complaint.to_string())),
    }
}

} // verus!
