//! Look through the library, decide which packages need a scan, and take the scans into the index.

use vstd::prelude::*;
use vstd::string::*;

use crate::config::Config;
use crate::db::{
    by_publisher, entry_sizes, forgotten, marked, orders_are_orders, package_ids_left, package_views,
    path_index, refusal, rescanned, size_sum, upserted, valid, Database, DbView, FoundView, PackageRowView,
    StoreError,
};
use crate::error::{outcome, Error, ErrorView};
use crate::model::{IndexReport, IndexReportView, PackageView};
use crate::number::{decimal_usize, numeral};
use crate::seqs::{
    find, first_index, lemma_filter_has, lemma_filter_none, lemma_filter_step, lemma_first_index,
    lemma_first_index_bounds,
};
use crate::sorted::{
    arranged, arranging_keeps, arranging_sorts, in_order, before, before_is_irreflexive, before_is_total,
    before_is_transitive, orders, place_of, sort_by, Place,
};
use crate::text::{
    after_last, cat, cat3, chars_of, contains_text, ends, ends_with, filled, glue, join,
    lemma_pieces_nonempty, lower, occurs, pieces, replace_char, replaced, same_text, split, split_filled,
    starts, starts_with, text_after_last, text_between, to_lower, Sep,
};
use crate::unitypackage::{Entry, EntryView, PackageHeader, PackageHeaderView};

verus! {

/// Previews are handed to the index in chunks of roughly this many bytes.
pub const PREVIEW_CHUNK_BYTES: usize = 33_554_432;

/// How to index.
#[derive(Debug)]
pub struct IndexOptions {
    pub workers: usize,
    pub force: bool,
    /// Only packages whose relative path contains this (case-insensitive).
    pub only: Option<String>,
    /// Store `preview.png` thumbnails (needed by the web UI / `uai preview` without the share).
    pub previews: bool,
}

pub open spec fn clamped(n: int, lo: int, hi: int) -> int {
    if n < lo {
        lo
    } else if n > hi {
        hi
    } else {
        n
    }
}

impl IndexOptions {
    /// The defaults on a machine with this many processors.
    pub fn for_processors(cpus: usize) -> (r: Self)
        ensures
            r.workers == clamped(cpus as int, 1, 6),
            !r.force,
            r.only is None,
            r.previews,
    {
        let workers: usize = if cpus < 1 {
            1
        } else if cpus > 6 {
            6
        } else {
            cpus
        };
        IndexOptions { workers, force: false, only: None, previews: true }
    }

    /// How many workers scan `jobs` packages.
    pub fn worker_count(&self, jobs: usize) -> (r: usize)
        ensures
            r == clamped(self.workers as int, 1, if jobs == 0 { 1 } else { jobs as int }),
    {
        let most: usize = if jobs == 0 {
            1
        } else {
            jobs
        };
        if self.workers < 1 {
            1
        } else if self.workers > most {
            most
        } else {
            self.workers
        }
    }
}

// ----- files of the library ------------------------------------------------------------------

/// Whether a file or directory is left out.
pub fn is_hidden(name: &str) -> (r: bool)
    ensures
        r == starts(name@, "."@),
{
    starts_with(name, ".")
}

/// Whether a file is a package, by its name.
pub open spec fn package_name(name: Seq<char>) -> bool {
    !starts(name, "."@) && ends(lower(name), ".unitypackage"@)
}

/// The parts of a path.
pub open spec fn path_parts(p: Seq<char>) -> Seq<Seq<char>> {
    filled(pieces(p, Sep::Is('/')))
}

/// The order of paths: part by part.
pub open spec fn parts_at_most(a: Seq<Seq<char>>, b: Seq<Seq<char>>) -> bool
    decreases a.len(),
{
    if a.len() == 0 {
        true
    } else if b.len() == 0 {
        false
    } else if a[0] == b[0] {
        parts_at_most(a.drop_first(), b.drop_first())
    } else {
        before(a[0], b[0])
    }
}

pub open spec fn by_parts() -> spec_fn(Seq<char>, Seq<char>) -> bool {
    |a: Seq<char>, b: Seq<char>| parts_at_most(path_parts(a), path_parts(b))
}

proof fn lemma_parts_total(a: Seq<Seq<char>>, b: Seq<Seq<char>>)
    ensures
        parts_at_most(a, b) || parts_at_most(b, a),
    decreases a.len(),
{
    if a.len() > 0 && b.len() > 0 {
        if a[0] == b[0] {
            lemma_parts_total(a.drop_first(), b.drop_first());
        } else {
            before_is_total(a[0], b[0]);
        }
    }
}

proof fn lemma_parts_transitive(a: Seq<Seq<char>>, b: Seq<Seq<char>>, c: Seq<Seq<char>>)
    requires
        parts_at_most(a, b),
        parts_at_most(b, c),
    ensures
        parts_at_most(a, c),
    decreases a.len(),
{
    if a.len() > 0 && b.len() > 0 && c.len() > 0 {
        if a[0] == b[0] && b[0] == c[0] {
            lemma_parts_transitive(a.drop_first(), b.drop_first(), c.drop_first());
        } else if a[0] != b[0] && b[0] != c[0] {
            before_is_transitive(a[0], b[0], c[0]);
            before_is_irreflexive(a[0]);
        }
    }
}

pub(crate) proof fn lemma_by_parts()
    ensures
        orders(by_parts()),
{
    let leq = by_parts();
    assert forall|a: Seq<char>, b: Seq<char>| #[trigger] leq(a, b) || leq(b, a) by {
        lemma_parts_total(path_parts(a), path_parts(b));
    }
    assert forall|a: Seq<char>, b: Seq<char>, c: Seq<char>| #[trigger] leq(a, b) && #[trigger] leq(
        b,
        c,
    ) implies leq(a, c) by {
        lemma_parts_transitive(path_parts(a), path_parts(b), path_parts(c));
    }
}

fn path_at_most(a: &str, b: &str) -> (r: bool)
    ensures
        r == by_parts()(a@, b@),
{
    let x = split_filled(a, Sep::Is('/'));
    let y = split_filled(b, Sep::Is('/'));
    let ghost xs = x.deep_view();
    let ghost ys = y.deep_view();
    let mut i: usize = 0;
    assert(xs.skip(0) =~= xs);
    assert(ys.skip(0) =~= ys);
    while i < x.len() && i < y.len()
        invariant
            i <= x@.len(),
            i <= y@.len(),
            xs == x.deep_view(),
            ys == y.deep_view(),
            xs == path_parts(a@),
            ys == path_parts(b@),
            parts_at_most(xs, ys) == parts_at_most(xs.skip(i as int), ys.skip(i as int)),
        decreases x@.len() - i,
    {
        proof {
            assert(xs.skip(i as int)[0] == x@[i as int]@);
            assert(ys.skip(i as int)[0] == y@[i as int]@);
            assert(xs.skip(i as int).drop_first() =~= xs.skip(i + 1));
            assert(ys.skip(i as int).drop_first() =~= ys.skip(i + 1));
            before_is_irreflexive(x@[i as int]@);
        }
        match place_of(x[i].as_str(), y[i].as_str()) {
            Place::Before => {
                return true;
            },
            Place::After => {
                proof {
                    before_is_total(x@[i as int]@, y@[i as int]@);
                    if before(x@[i as int]@, y@[i as int]@) {
                        before_is_transitive(x@[i as int]@, y@[i as int]@, x@[i as int]@);
                    }
                }
                return false;
            },
            Place::Same => {},
        }
        i += 1;
    }
    i == x.len()
}

/// The packages among some files, in the order of their paths.
pub open spec fn packages_among(paths: Seq<Seq<char>>) -> Seq<Seq<char>> {
    arranged(paths.filter(|p: Seq<char>| package_name(after_last(p, '/'))), by_parts())
}

/// The packages among the files of the library, in the order of their paths.
pub fn discover_packages(paths: &Vec<String>) -> (r: Vec<String>)
    ensures
        r.deep_view() == packages_among(paths.deep_view()),
{
    let ghost s = paths.deep_view();
    let ghost p = |p: Seq<char>| package_name(after_last(p, '/'));
    let mut out: Vec<String> = Vec::new();
    let mut i: usize = 0;
    proof {
        lemma_filter_none(s, p);
        assert(out.deep_view() =~= s.take(0).filter(p));
    }
    while i < paths.len()
        invariant
            i <= paths@.len(),
            s == paths.deep_view(),
            p == (|p: Seq<char>| package_name(after_last(p, '/'))),
            out.deep_view() == s.take(i as int).filter(p),
        decreases paths@.len() - i,
    {
        proof {
            lemma_filter_step(s, p, i as int);
            assert(s[i as int] == paths@[i as int]@);
        }
        let name = text_after_last(paths[i].as_str(), '/');
        if !is_hidden(name.as_str()) && ends_with(to_lower(name.as_str()).as_str(), ".unitypackage") {
            let ghost o0 = out.deep_view();
            out.push(paths[i].clone());
            assert(out.deep_view() =~= o0.push(paths@[i as int]@));
        }
        i += 1;
    }
    proof {
        assert(s.take(s.len() as int) =~= s);
        lemma_by_parts();
    }
    sort_by(
        out,
        &(|a: &String, b: &String| -> (c: bool)
            ensures
                c == by_parts()(a@, b@),
            { path_at_most(a.as_str(), b.as_str()) }),
        Ghost(by_parts()),
    )
}

/// A file name without `.unitypackage` at its end.
pub open spec fn bare_name(name: Seq<char>) -> Seq<char> {
    if ends(lower(name), ".unitypackage"@) {
        name.take(name.len() - ".unitypackage"@.len())
    } else {
        name
    }
}

/// `Publisher/Category/Name.unitypackage` -> (name, publisher, category). Tolerates flatter
/// layouts.
pub open spec fn rel_parts(rel: Seq<char>) -> (Seq<char>, Seq<char>, Seq<char>) {
    let parts = pieces(rel, Sep::Is('/'));
    let n = parts.len() as int;
    (
        bare_name(parts.last()),
        if n >= 2 {
            parts[0]
        } else {
            Seq::empty()
        },
        if n >= 3 {
            glue(parts.subrange(1, n - 1), "/"@)
        } else {
            Seq::empty()
        },
    )
}

pub fn split_rel_path(rel: &str) -> (r: (String, String, String))
    ensures
        (r.0@, r.1@, r.2@) == rel_parts(rel@),
{
    let parts = split(rel, Sep::Is('/'));
    let ghost ps = parts.deep_view();
    proof {
        lemma_pieces_nonempty(rel@, Sep::Is('/'));
    }
    let n: usize = parts.len();
    assert(ps.last() == parts@[n - 1]@);
    let last = parts[n - 1].clone();
    let name = if ends_with(to_lower(last.as_str()).as_str(), ".unitypackage") {
        let v = chars_of(last.as_str());
        let suffix = chars_of(".unitypackage");
        let len: usize = v.len();
        let k: usize = suffix.len();
        assert(lower(v@).len() == v@.len());
        assert(v@.subrange(0, len - k) =~= v@.take(len - k));
        text_between(&v, 0, len - k)
    } else {
        last
    };
    let publisher = if n >= 2 {
        assert(ps[0] == parts@[0]@);
        parts[0].clone()
    } else {
        let e = String::new();
        assert(e@ =~= Seq::<char>::empty());
        e
    };
    if n < 3 {
        let e = String::new();
        assert(e@ =~= Seq::<char>::empty());
        return (name, publisher, e);
    }
    let mut middle: Vec<String> = Vec::new();
    let mut i: usize = 1;
    assert(middle.deep_view() =~= ps.subrange(1, 1));
    while i < n - 1
        invariant
            3 <= n,
            1 <= i <= n - 1,
            n == parts@.len(),
            ps == parts.deep_view(),
            middle.deep_view() == ps.subrange(1, i as int),
        decreases n - i,
    {
        let ghost m0 = middle.deep_view();
        middle.push(parts[i].clone());
        proof {
            assert(middle.deep_view() =~= m0.push(parts@[i as int]@));
            assert(middle.deep_view() =~= ps.subrange(1, i + 1));
        }
        i += 1;
    }
    (name, publisher, join(&middle, "/"))
}

/// Whether a part of a path says nothing.
pub open spec fn idle(part: Seq<char>) -> bool {
    part.len() == 0 || part == "."@
}

fn is_idle(part: &str) -> (r: bool)
    ensures
        r == idle(part@),
{
    part.is_empty() || same_text(part, ".")
}

/// The parts from the first one on that says something.
pub open spec fn without_front(ps: Seq<Seq<char>>) -> Seq<Seq<char>>
    decreases ps.len(),
{
    if ps.len() > 0 && idle(ps.first()) {
        without_front(ps.drop_first())
    } else {
        ps
    }
}

/// The parts up to the last one that says something.
pub open spec fn without_back(ps: Seq<Seq<char>>) -> Seq<Seq<char>>
    decreases ps.len(),
{
    if ps.len() > 0 && idle(ps.last()) {
        without_back(ps.drop_last())
    } else {
        ps
    }
}

/// What is left of a path behind the parts of another, part by part; parts that say nothing do not
/// count.
pub open spec fn behind(ps: Seq<Seq<char>>, bs: Seq<Seq<char>>) -> Option<Seq<Seq<char>>>
    decreases bs.len(),
{
    if bs.len() == 0 {
        Some(without_front(ps))
    } else if idle(bs.first()) {
        behind(ps, bs.drop_first())
    } else {
        let qs = without_front(ps);
        if qs.len() > 0 && qs.first() == bs.first() {
            behind(qs.drop_first(), bs.drop_first())
        } else {
            None
        }
    }
}

/// The parts of a path.
pub open spec fn parts_of(p: Seq<char>) -> Seq<Seq<char>> {
    pieces(p, Sep::Is('/'))
}

pub open spec fn absolute(p: Seq<char>) -> bool {
    p.len() > 0 && p[0] == '/'
}

/// Whether a path begins at the current directory by name.
pub open spec fn dotted(p: Seq<char>) -> bool {
    parts_of(p)[0] == "."@
}

/// A path without parts at its end that say nothing.
pub open spec fn ended(p: Seq<char>) -> Seq<char> {
    let body = without_back(parts_of(p).drop_first());
    if absolute(p) && body.len() == 0 {
        "/"@
    } else {
        glue(seq![parts_of(p)[0]] + body, "/"@)
    }
}

/// A path relative to the library, with forward slashes; a path elsewhere stays whole. The two are
/// compared part by part.
pub open spec fn relative(library: Seq<char>, p: Seq<char>) -> Seq<char> {
    replaced(
        if library.len() == 0 {
            ended(p)
        } else if absolute(library) != absolute(p) || dotted(library) != dotted(p) {
            p
        } else {
            match behind(parts_of(p), parts_of(library)) {
                Some(rest) => glue(without_back(rest), "/"@),
                None => p,
            }
        },
        '\\',
        '/',
    )
}

fn find_front(ps: &Vec<String>, from: usize) -> (r: usize)
    requires
        from <= ps@.len(),
    ensures
        from <= r <= ps@.len(),
        ps.deep_view().skip(r as int) == without_front(ps.deep_view().skip(from as int)),
{
    let ghost s = ps.deep_view();
    let mut i: usize = from;
    while i < ps.len() && is_idle(ps[i].as_str())
        invariant
            from <= i <= ps@.len(),
            s == ps.deep_view(),
            without_front(s.skip(i as int)) == without_front(s.skip(from as int)),
        decreases ps@.len() - i,
    {
        assert(s.skip(i as int).first() == ps@[i as int]@);
        assert(s.skip(i as int).drop_first() =~= s.skip(i + 1));
        i += 1;
    }
    proof {
        if i < ps@.len() {
            assert(s.skip(i as int).first() == ps@[i as int]@);
        }
    }
    i
}

fn find_back(ps: &Vec<String>, from: usize) -> (r: usize)
    requires
        from <= ps@.len(),
    ensures
        from <= r <= ps@.len(),
        ps.deep_view().subrange(from as int, r as int) == without_back(ps.deep_view().skip(from as int)),
{
    let ghost s = ps.deep_view();
    let mut n: usize = ps.len();
    assert(s.subrange(from as int, n as int) =~= s.skip(from as int));
    while n > from && is_idle(ps[n - 1].as_str())
        invariant
            from <= n <= ps@.len(),
            s == ps.deep_view(),
            without_back(s.subrange(from as int, n as int)) == without_back(s.skip(from as int)),
        decreases n,
    {
        let ghost t = s.subrange(from as int, n as int);
        assert(t.last() == ps@[n - 1]@);
        assert(t.drop_last() =~= s.subrange(from as int, n - 1));
        n -= 1;
    }
    proof {
        if n > from {
            assert(s.subrange(from as int, n as int).last() == ps@[n - 1]@);
        }
    }
    n
}

fn find_behind(ps: &Vec<String>, i: usize, bs: &Vec<String>, j: usize) -> (r: Option<usize>)
    requires
        i <= ps@.len(),
        j <= bs@.len(),
    ensures
        match behind(ps.deep_view().skip(i as int), bs.deep_view().skip(j as int)) {
            Some(rest) => r matches Some(k) && k <= ps@.len() && ps.deep_view().skip(k as int) == rest,
            None => r is None,
        },
    decreases bs@.len() - j,
{
    let ghost s = ps.deep_view();
    let ghost t = bs.deep_view();
    if j == bs.len() {
        return Some(find_front(ps, i));
    }
    proof {
        assert(t.skip(j as int).first() == bs@[j as int]@);
        assert(t.skip(j as int).drop_first() =~= t.skip(j + 1));
    }
    if is_idle(bs[j].as_str()) {
        return find_behind(ps, i, bs, j + 1);
    }
    let k = find_front(ps, i);
    if k < ps.len() && same_text(ps[k].as_str(), bs[j].as_str()) {
        proof {
            assert(s.skip(k as int).first() == ps@[k as int]@);
            assert(s.skip(k as int).drop_first() =~= s.skip(k + 1));
        }
        find_behind(ps, k + 1, bs, j + 1)
    } else {
        proof {
            if k < ps@.len() {
                assert(s.skip(k as int).first() == ps@[k as int]@);
            }
        }
        None
    }
}

fn join_between(ps: &Vec<String>, from: usize, to: usize) -> (r: String)
    requires
        from <= to <= ps@.len(),
    ensures
        r@ == glue(ps.deep_view().subrange(from as int, to as int), "/"@),
{
    let ghost s = ps.deep_view();
    let mut v: Vec<String> = Vec::new();
    let mut i: usize = from;
    assert(v.deep_view() =~= s.subrange(from as int, i as int));
    while i < to
        invariant
            from <= i <= to <= ps@.len(),
            s == ps.deep_view(),
            v.deep_view() == s.subrange(from as int, i as int),
        decreases to - i,
    {
        let ghost v0 = v.deep_view();
        v.push(ps[i].clone());
        assert(v.deep_view() =~= v0.push(s[i as int]));
        assert(v.deep_view() =~= s.subrange(from as int, i + 1));
        i += 1;
    }
    join(&v, "/")
}

fn is_absolute(p: &str) -> (r: bool)
    ensures
        r == absolute(p@),
{
    let v = chars_of(p);
    v.len() > 0 && v[0] == '/'
}

fn end_path(p: &str) -> (r: String)
    ensures
        r@ == ended(p@),
{
    let ps = split(p, Sep::Is('/'));
    let ghost s = ps.deep_view();
    proof {
        lemma_pieces_nonempty(p@, Sep::Is('/'));
        assert(s.skip(1) =~= s.drop_first());
    }
    let n = find_back(&ps, 1);
    if is_absolute(p) && n == 1 {
        return "/".to_string();
    }
    assert(s.subrange(0, n as int) =~= seq![s[0]] + s.subrange(1, n as int));
    join_between(&ps, 0, n)
}

fn relative_to(library: &str, p: &str) -> (r: Option<String>)
    requires
        library@.len() > 0,
    ensures
        r.deep_view() == (if absolute(library@) != absolute(p@) || dotted(library@) != dotted(p@) {
            None
        } else {
            match behind(parts_of(p@), parts_of(library@)) {
                Some(rest) => Some(glue(without_back(rest), "/"@)),
                None => None,
            }
        }),
{
    let ps = split(p, Sep::Is('/'));
    let bs = split(library, Sep::Is('/'));
    proof {
        lemma_pieces_nonempty(p@, Sep::Is('/'));
        lemma_pieces_nonempty(library@, Sep::Is('/'));
        assert(ps.deep_view()[0] == ps@[0]@);
        assert(bs.deep_view()[0] == bs@[0]@);
        assert(ps.deep_view().skip(0) =~= ps.deep_view());
        assert(bs.deep_view().skip(0) =~= bs.deep_view());
    }
    if is_absolute(library) != is_absolute(p) || same_text(bs[0].as_str(), ".") != same_text(ps[0].as_str(), ".") {
        return None;
    }
    match find_behind(&ps, 0, &bs, 0) {
        Some(k) => {
            let n = find_back(&ps, k);
            Some(join_between(&ps, k, n))
        },
        None => None,
    }
}

pub fn rel_path(library: &str, p: &str) -> (r: String)
    ensures
        r@ == relative(library@, p@),
{
    if library.is_empty() {
        return replace_char(end_path(p).as_str(), '\\', '/');
    }
    match relative_to(library, p) {
        Some(rest) => replace_char(rest.as_str(), '\\', '/'),
        None => replace_char(p, '\\', '/'),
    }
}

/// Whether a package is among those that were asked for.
pub open spec fn asked_for(rel: Seq<char>, only: Option<Seq<char>>) -> bool {
    match only {
        Some(o) => occurs(lower(rel), lower(o)),
        None => true,
    }
}

pub fn is_asked_for(rel: &str, only: &Option<String>) -> (r: bool)
    ensures
        r == asked_for(rel@, only.deep_view()),
{
    match only {
        Some(o) => contains_text(to_lower(rel).as_str(), to_lower(o.as_str()).as_str()),
        None => true,
    }
}

/// That there is a library; `is_dir` says whether its path is a directory.
pub fn check_library(cfg: &Config, is_dir: bool) -> (r: Result<(), Error>)
    ensures
        cfg@.library.len() > 0 && is_dir ==> r is Ok,
        !(cfg@.library.len() > 0 && is_dir) ==> (r matches Err(e) && e@ == ErrorView::Other(
            "Library not found: "@ + cfg@.library
                + " (is the share mounted? set UAI_LIBRARY or `uai config --library <dir>`)"@,
        )),
{
    if cfg.library_mounted(is_dir) {
        Ok(())
    } else {
        Err(
            Error::Other(
                cat3(
                    "Library not found: ",
                    cfg.library.as_str(),
                    " (is the share mounted? set UAI_LIBRARY or `uai config --library <dir>`)",
                ),
            ),
        )
    }
}

// ----- what needs a scan ---------------------------------------------------------------------

/// A package file of the library.
#[derive(Debug)]
pub struct FoundFile {
    /// Path relative to the library.
    pub rel: String,
    pub size: u64,
    /// Modification time in seconds: the bits of an `f64`.
    pub mtime: u64,
    /// Whether the time is a second or more away from the one the index has.
    pub moved: bool,
    /// The store header; only looked at where it is needed.
    pub header: Option<PackageHeader>,
    /// Why the file could not be looked at.
    pub trouble: Option<String>,
}

/// What a [`FoundFile`] holds.
#[verifier::ext_equal]
pub struct FoundFileView {
    pub rel: Seq<char>,
    pub size: u64,
    pub mtime: u64,
    pub moved: bool,
    pub header: Option<PackageHeaderView>,
    pub trouble: Option<Seq<char>>,
}

impl View for FoundFile {
    type V = FoundFileView;

    open spec fn view(&self) -> FoundFileView {
        FoundFileView {
            rel: self.rel@,
            size: self.size,
            mtime: self.mtime,
            moved: self.moved,
            header: self.header.deep_view(),
            trouble: self.trouble.deep_view(),
        }
    }
}

impl DeepView for FoundFile {
    type V = FoundFileView;

    open spec fn deep_view(&self) -> FoundFileView {
        self.view()
    }
}

impl Clone for FoundFile {
    fn clone(&self) -> (r: Self)
        ensures
            r@ == self@,
    {
        let r = FoundFile {
            rel: self.rel.clone(),
            size: self.size,
            mtime: self.mtime,
            moved: self.moved,
            header: self.header.clone(),
            trouble: self.trouble.clone(),
        };
        assert(r.header.deep_view() == self.header.deep_view());
        assert(r.trouble.deep_view() == self.trouble.deep_view());
        r
    }
}

/// A package that is to be scanned.
#[derive(Debug)]
pub struct Job {
    pub pid: i64,
    pub rel: String,
    pub bytes: u64,
}

/// What a [`Job`] holds.
#[verifier::ext_equal]
pub struct JobView {
    pub pid: i64,
    pub rel: Seq<char>,
    pub bytes: u64,
}

impl View for Job {
    type V = JobView;

    open spec fn view(&self) -> JobView {
        JobView {
            pid: self.pid,
            rel: self.rel@,
            bytes: self.bytes,
        }
    }
}

impl DeepView for Job {
    type V = JobView;

    open spec fn deep_view(&self) -> JobView {
        self.view()
    }
}

impl Clone for Job {
    fn clone(&self) -> (r: Self)
        ensures
            r@ == self@,
    {
        let r = Job {
            pid: self.pid,
            rel: self.rel.clone(),
            bytes: self.bytes,
        };
        r
    }
}

/// What a look at the library comes to.
#[derive(Debug)]
pub struct Survey {
    /// The packages that were found.
    pub seen: Vec<String>,
    /// The packages to scan.
    pub jobs: Vec<Job>,
    /// How many are up to date.
    pub skipped: usize,
    /// How many are no longer there.
    pub removed: usize,
    pub log: Vec<String>,
}

/// What a [`Survey`] holds.
#[verifier::ext_equal]
pub struct SurveyView {
    pub seen: Seq<Seq<char>>,
    pub jobs: Seq<JobView>,
    pub skipped: usize,
    pub removed: usize,
    pub log: Seq<Seq<char>>,
}

impl View for Survey {
    type V = SurveyView;

    open spec fn view(&self) -> SurveyView {
        SurveyView {
            seen: self.seen.deep_view(),
            jobs: self.jobs.deep_view(),
            skipped: self.skipped,
            removed: self.removed,
            log: self.log.deep_view(),
        }
    }
}

impl DeepView for Survey {
    type V = SurveyView;

    open spec fn deep_view(&self) -> SurveyView {
        self.view()
    }
}

impl Clone for Survey {
    fn clone(&self) -> (r: Self)
        ensures
            r@ == self@,
    {
        let r = Survey {
            seen: self.seen.clone(),
            jobs: self.jobs.clone(),
            skipped: self.skipped,
            removed: self.removed,
            log: self.log.clone(),
        };
        assert(r.seen.deep_view() =~= self.seen.deep_view());
        assert(r.jobs.deep_view() =~= self.jobs.deep_view());
        assert(r.log.deep_view() =~= self.log.deep_view());
        r
    }
}

/// What is decided of a package before it is scanned.
#[derive(Clone, Copy)]
pub struct Judgement {
    /// The file is new or another one than the index knows.
    pub changed: bool,
    /// The store header has to be read.
    pub need_header: bool,
    /// The index has everything.
    pub up_to_date: bool,
}

/// What the index knows of a package, by its path.
pub open spec fn known(db: DbView, rel: Seq<char>) -> Option<PackageView> {
    match find(db.packages, |p: PackageRowView| p.package.rel_path == rel) {
        Some(row) => Some(row.package),
        None => None,
    }
}

/// What is decided of a package: a package is scanned again when its file changed, when the last
/// scan failed, when thumbnails are wanted that were not stored, or when all are.
pub open spec fn judgement(existing: Option<PackageView>, size: i64, moved: bool, force: bool, previews: bool) -> Judgement {
    match existing {
        None => Judgement { changed: true, need_header: true, up_to_date: false },
        Some(p) => {
            let changed = p.size != size || moved;
            Judgement {
                changed,
                need_header: force || changed || p.title is None,
                up_to_date: !force && p.status == "ok"@ && p.indexed_at is Some && !changed && (!previews
                    || p.previews_indexed),
            }
        },
    }
}

pub fn judge_package(db: &Database, rel: &str, size: u64, moved: bool, force: bool, previews: bool) -> (r: Judgement)
    ensures
        r == judgement(known(db@, rel@), size as i64, moved, force, previews),
{
    match db.package_by_rel_path(rel) {
        None => Judgement { changed: true, need_header: true, up_to_date: false },
        Some(p) => {
            let changed = p.size != size as i64 || moved;
            let ok = same_text(p.status.as_str(), "ok");
            assert(p@.title is None == p.title is None);
            Judgement {
                changed,
                need_header: force || changed || p.title.is_none(),
                up_to_date: !force && ok && p.indexed_at.is_some() && !changed && (!previews || p.previews_indexed),
            }
        },
    }
}

/// Why the index refused an update, in words.
pub open spec fn store_words(e: StoreError) -> Seq<char> {
    match e {
        StoreError::DuplicatePath => "two packages have the same path"@,
        StoreError::DuplicateGuid => "two assets of a package have the same guid"@,
        StoreError::NoPackage => "the package is not in the index"@,
        StoreError::OutOfOrder => "the rows are not in the order of their ids"@,
        StoreError::Overflow => "integer overflow"@,
    }
}

pub fn store_error(e: StoreError) -> (r: Error)
    ensures
        r@ == ErrorView::Other(store_words(e)),
{
    let words: &str = match e {
        StoreError::DuplicatePath => "two packages have the same path",
        StoreError::DuplicateGuid => "two assets of a package have the same guid",
        StoreError::NoPackage => "the package is not in the index",
        StoreError::OutOfOrder => "the rows are not in the order of their ids",
        StoreError::Overflow => "integer overflow",
    };
    Error::Other(words.to_string())
}

/// What a package file says of its package; the store header where it is needed.
pub open spec fn file_found(f: FoundFileView, need_header: bool) -> FoundView {
    FoundView {
        root: ""@,
        rel_path: f.rel,
        name: rel_parts(f.rel).0,
        publisher: rel_parts(f.rel).1,
        category: rel_parts(f.rel).2,
        size: f.size as i64,
        mtime: f.mtime,
        header: if need_header {
            f.header
        } else {
            None
        },
    }
}

/// The index after a look at a package file.
pub open spec fn registered(db: DbView, f: FoundFileView, force: bool, previews: bool) -> DbView {
    let j = judgement(known(db, f.rel), f.size as i64, f.moved, force, previews);
    DbView { packages: upserted(db.packages, file_found(f, j.need_header)), ..db }
}

/// The index and the survey after one more file.
pub open spec fn surveyed(db: DbView, st: SurveyView, f: FoundFileView, force: bool, previews: bool) -> Result<
    (DbView, SurveyView),
    ErrorView,
> {
    let seen = st.seen.push(f.rel);
    match f.trouble {
        Some(e) => Ok(
            (db, SurveyView { seen, log: st.log.push("- cannot stat "@ + f.rel + ": "@ + e), ..st }),
        ),
        None => {
            let j = judgement(known(db, f.rel), f.size as i64, f.moved, force, previews);
            let i = path_index(db.packages, ""@, f.rel);
            if i >= db.packages.len() && !package_ids_left(db) {
                Err(ErrorView::Other(store_words(StoreError::Overflow)))
            } else {
                let next = registered(db, f, force, previews);
                if j.up_to_date {
                    Ok((next, SurveyView { seen, skipped: (st.skipped + 1) as usize, ..st }))
                } else {
                    let job = JobView { pid: next.packages[i].package.id, rel: f.rel, bytes: f.size };
                    Ok((next, SurveyView { seen, jobs: st.jobs.push(job), ..st }))
                }
            }
        },
    }
}

/// The survey before any file.
pub open spec fn fresh_survey() -> SurveyView {
    SurveyView { seen: Seq::empty(), jobs: Seq::empty(), skipped: 0, removed: 0, log: Seq::empty() }
}

/// The index and the survey after the first `n` files; where one of them is refused, the index after
/// those before it, and why.
pub open spec fn surveyed_all(db: DbView, found: Seq<FoundFileView>, force: bool, previews: bool, n: nat) -> (
    DbView,
    Result<SurveyView, ErrorView>,
)
    decreases n,
{
    if n == 0 {
        (db, Ok(fresh_survey()))
    } else {
        let (d, before) = surveyed_all(db, found, force, previews, (n - 1) as nat);
        match before {
            Err(e) => (d, Err(e)),
            Ok(st) => match surveyed(d, st, found[n - 1], force, previews) {
                Err(e) => (d, Err(e)),
                Ok((d2, st2)) => (d2, Ok(st2)),
            },
        }
    }
}

proof fn lemma_survey_stops(db: DbView, found: Seq<FoundFileView>, force: bool, previews: bool, k: nat, n: nat)
    requires
        k <= n,
        surveyed_all(db, found, force, previews, k).1 is Err,
    ensures
        surveyed_all(db, found, force, previews, n) == surveyed_all(db, found, force, previews, k),
    decreases n,
{
    if k < n {
        lemma_survey_stops(db, found, force, previews, k, (n - 1) as nat);
    }
}

/// Looks at one package file.
pub fn survey_file(db: &mut Database, st: &mut Survey, f: &FoundFile, force: bool, previews: bool) -> (r: Result<(), Error>)
    requires
        old(st)@.skipped < usize::MAX,
    ensures
        match surveyed(old(db)@, old(st)@, f@, force, previews) {
            Ok((d, s)) => r is Ok && final(db)@ == d && final(st)@ == s,
            Err(e) => {
                &&& r matches Err(x) && x@ == e
                &&& final(db)@ == old(db)@
                &&& final(st)@ == (SurveyView { seen: old(st)@.seen.push(f@.rel), ..old(st)@ })
            },
        },
{
    let ghost db0 = db@;
    let ghost st0 = st@;
    st.seen.push(f.rel.clone());
    assert(st.seen.deep_view() =~= st0.seen.push(f@.rel));
    match &f.trouble {
        Some(e) => {
            let mut line = cat3("- cannot stat ", f.rel.as_str(), ": ");
            line.append(e.as_str());
            let ghost lv = line@;
            st.log.push(line);
            proof {
                assert(lv =~= "- cannot stat "@ + f@.rel + ": "@ + e@);
                assert(st.log.deep_view() =~= st0.log.push(lv));
            }
            return Ok(());
        },
        None => {},
    }
    let j = judge_package(db, f.rel.as_str(), f.size, f.moved, force, previews);
    let (name, publisher, category) = split_rel_path(f.rel.as_str());
    let header: Option<&PackageHeader> = if j.need_header {
        match &f.header {
            Some(h) => Some(h),
            None => None,
        }
    } else {
        None
    };
    let r = db.upsert_package(
        "",
        f.rel.as_str(),
        name.as_str(),
        publisher.as_str(),
        category.as_str(),
        f.size as i64,
        f.mtime,
        header,
    );
    match r {
        Err(e) => {
            return Err(store_error(e));
        },
        Ok(pid) => {
            if j.up_to_date {
                st.skipped = st.skipped + 1;
            } else {
                let job = Job { pid, rel: f.rel.clone(), bytes: f.size };
                let ghost jv = job@;
                st.jobs.push(job);
                assert(st.jobs.deep_view() =~= st0.jobs.push(jv));
            }
        },
    }
    Ok(())
}

/// The index and the log after the first `n` packages were held against what was seen.
pub open spec fn swept(db: DbView, rows: Seq<PackageView>, seen: Seq<Seq<char>>, n: nat) -> (DbView, Seq<Seq<char>>)
    decreases n,
{
    if n == 0 {
        (db, Seq::empty())
    } else {
        let (d, log) = swept(db, rows, seen, (n - 1) as nat);
        if seen.contains(rows[n - 1].rel_path) {
            (d, log)
        } else {
            (forgotten(d, rows[n - 1].id), log.push("- removed from library: "@ + rows[n - 1].rel_path))
        }
    }
}

fn is_seen(seen: &Vec<String>, rel: &str) -> (r: bool)
    ensures
        r == seen.deep_view().contains(rel@),
{
    let mut i: usize = 0;
    while i < seen.len()
        invariant
            i <= seen@.len(),
            forall|k: int| 0 <= k < i ==> seen.deep_view()[k] != rel@,
        decreases seen@.len() - i,
    {
        assert(seen.deep_view()[i as int] == seen@[i as int]@);
        if same_text(seen[i].as_str(), rel) {
            return true;
        }
        i += 1;
    }
    false
}

/// Removes the packages that were not seen; gives back what to log, one line per package.
pub fn sweep(db: &mut Database, seen: &Vec<String>) -> (r: Vec<String>)
    ensures
        ({
            let rows = arranged(package_views(old(db)@.packages), by_publisher());
            (final(db)@, r.deep_view()) == swept(old(db)@, rows, seen.deep_view(), rows.len())
        }),
{
    let ghost db0 = db@;
    let rows = db.packages();
    let ghost rv = rows.deep_view();
    let ghost sv = seen.deep_view();
    let mut log: Vec<String> = Vec::new();
    let mut i: usize = 0;
    assert(log.deep_view() =~= Seq::<Seq<char>>::empty());
    while i < rows.len()
        invariant
            i <= rows@.len(),
            rv == rows.deep_view(),
            sv == seen.deep_view(),
            (db@, log.deep_view()) == swept(db0, rv, sv, i as nat),
        decreases rows@.len() - i,
    {
        assert(rv[i as int] == rows@[i as int]@);
        if !is_seen(seen, rows[i].rel_path.as_str()) {
            let line = cat("- removed from library: ", rows[i].rel_path.as_str());
            let ghost lv = line@;
            let ghost l0 = log.deep_view();
            log.push(line);
            assert(log.deep_view() =~= l0.push(lv));
            db.delete_package(rows[i].id);
        }
        i += 1;
    }
    log
}

pub open spec fn largest_first() -> spec_fn(JobView, JobView) -> bool {
    |a: JobView, b: JobView| a.bytes >= b.bytes
}

pub open spec fn survey_line(found: nat, skipped: nat, jobs: nat, removed: nat) -> Seq<char> {
    numeral(found) + " packages found, "@ + numeral(skipped) + " up to date, "@ + numeral(jobs) + " to index, "@
        + numeral(removed) + " removed"@
}

fn make_survey_line(found: usize, skipped: usize, jobs: usize, removed: usize) -> (r: String)
    ensures
        r@ == survey_line(found as nat, skipped as nat, jobs as nat, removed as nat),
{
    let mut s = cat(decimal_usize(found).as_str(), " packages found, ");
    s.append(decimal_usize(skipped).as_str());
    s.append(" up to date, ");
    s.append(decimal_usize(jobs).as_str());
    s.append(" to index, ");
    s.append(decimal_usize(removed).as_str());
    s.append(" removed");
    s
}

/// A look at the whole library: the index after it, and what is to be scanned, largest first so
/// that the long tail does not end up serialized on one worker at the end. With `sweeping` the
/// packages that are gone leave the index.
pub open spec fn library_surveyed(
    db: DbView,
    found: Seq<FoundFileView>,
    force: bool,
    previews: bool,
    sweeping: bool,
) -> (DbView, Result<SurveyView, ErrorView>) {
    let (d, looked) = surveyed_all(db, found, force, previews, found.len());
    match looked {
        Err(e) => (d, Err(e)),
        Ok(st) => {
            let rows = arranged(package_views(d.packages), by_publisher());
            let (d2, gone) = if sweeping {
                swept(d, rows, st.seen, rows.len())
            } else {
                (d, Seq::empty())
            };
            let line = survey_line(found.len(), st.skipped as nat, st.jobs.len(), gone.len());
            (
                d2,
                Ok(
                    SurveyView {
                        jobs: arranged(st.jobs, largest_first()),
                        removed: gone.len() as usize,
                        log: (st.log + gone).push(line),
                        ..st
                    },
                ),
            )
        },
    }
}

/// Looks at the package files of the library: takes them into the index, drops the packages that
/// are gone, unless only some were asked for, and lists what is to be scanned.
pub fn survey_library(db: &mut Database, found: &Vec<FoundFile>, opts: &IndexOptions) -> (r: Result<Survey, Error>)
    ensures
        (final(db)@, outcome(r)) == library_surveyed(
            old(db)@,
            found.deep_view(),
            opts.force,
            opts.previews,
            opts.only is None,
        ),
{
    let ghost db0 = db@;
    let ghost fs = found.deep_view();
    let mut st = Survey { seen: Vec::new(), jobs: Vec::new(), skipped: 0, removed: 0, log: Vec::new() };
    let mut i: usize = 0;
    proof {
        assert(st.seen.deep_view() =~= Seq::<Seq<char>>::empty());
        assert(st.jobs.deep_view() =~= Seq::<JobView>::empty());
        assert(st.log.deep_view() =~= Seq::<Seq<char>>::empty());
    }
    while i < found.len()
        invariant
            i <= found@.len(),
            fs == found.deep_view(),
            db0 == old(db)@,
            st@.skipped <= i,
            surveyed_all(db0, fs, opts.force, opts.previews, i as nat) == (db@, Ok::<SurveyView, ErrorView>(st@)),
        decreases found@.len() - i,
    {
        assert(fs[i as int] == found@[i as int]@);
        match survey_file(db, &mut st, &found[i], opts.force, opts.previews) {
            Ok(()) => {},
            Err(e) => {
                proof {
                    lemma_survey_stops(db0, fs, opts.force, opts.previews, (i + 1) as nat, fs.len());
                }
                return Err(e);
            },
        }
        i += 1;
    }
    let ghost st1 = st@;
    let mut gone: Vec<String> = if opts.only.is_none() {
        sweep(db, &st.seen)
    } else {
        Vec::new()
    };
    let ghost gv = gone.deep_view();
    assert(opts.only is Some ==> gv =~= Seq::<Seq<char>>::empty());
    let removed: usize = gone.len();
    let line = make_survey_line(found.len(), st.skipped, st.jobs.len(), removed);
    let ghost lv = line@;
    let Survey { seen, jobs, skipped, removed: _, mut log } = st;
    log.append(&mut gone);
    log.push(line);
    assert(log.deep_view() =~= (st1.log + gv).push(lv));
    let jobs = sort_by(
        jobs,
        &(|a: &Job, b: &Job| -> (c: bool)
            ensures
                c == (a@.bytes >= b@.bytes),
            { a.bytes >= b.bytes }),
        Ghost(largest_first()),
    );
    Ok(Survey { seen, jobs, skipped, removed, log })
}

// ----- what the scans found ------------------------------------------------------------------

/// The first line of a text.
pub open spec fn first_line_of(s: Seq<char>) -> Seq<char> {
    let line = pieces(s, Sep::Is('\n'))[0];
    if pieces(s, Sep::Is('\n')).len() > 1 && line.len() > 0 && line.last() == '\r' {
        line.drop_last()
    } else {
        line
    }
}

pub fn first_line(s: &str) -> (r: String)
    ensures
        r@ == first_line_of(s@),
{
    let lines = split(s, Sep::Is('\n'));
    proof {
        lemma_pieces_nonempty(s@, Sep::Is('\n'));
        assert(lines.deep_view()[0] == lines@[0]@);
    }
    let v = chars_of(lines[0].as_str());
    let n: usize = v.len();
    if lines.len() > 1 && n > 0 && v[n - 1] == '\r' {
        assert(v@.subrange(0, n - 1) =~= v@.drop_last());
        text_between(&v, 0, n - 1)
    } else {
        lines[0].clone()
    }
}

/// How a job ended.
#[derive(Debug)]
pub enum JobEnd {
    /// The scan failed: what to log.
    Failed(String),
    /// The assets are in the index: how many, and how large they are together.
    Stored(usize, i64),
}

/// What a [`JobEnd`] holds.
#[verifier::ext_equal]
pub enum JobEndView {
    Failed(Seq<char>),
    Stored(usize, i64),
}

impl View for JobEnd {
    type V = JobEndView;

    open spec fn view(&self) -> JobEndView {
        match self {
            JobEnd::Failed(line) => JobEndView::Failed(line@),
            JobEnd::Stored(n, total) => JobEndView::Stored(*n, *total),
        }
    }
}

impl DeepView for JobEnd {
    type V = JobEndView;

    open spec fn deep_view(&self) -> JobEndView {
        self.view()
    }
}

pub open spec fn failure_line(done: nat, jobs: nat, rel: Seq<char>, error: Seq<char>) -> Seq<char> {
    "["@ + numeral(done) + "/"@ + numeral(jobs) + "] ERROR "@ + rel + ": "@ + first_line_of(error)
}

fn make_failure_line(done: usize, jobs: usize, rel: &str, error: &str) -> (r: String)
    ensures
        r@ == failure_line(done as nat, jobs as nat, rel@, error@),
{
    let mut s = cat("[", decimal_usize(done).as_str());
    s.append("/");
    s.append(decimal_usize(jobs).as_str());
    s.append("] ERROR ");
    s.append(rel);
    s.append(": ");
    s.append(first_line(error).as_str());
    s
}

/// What the scan of a package came to.
#[derive(Debug)]
pub struct Scan {
    pub job: Job,
    pub entries: Vec<Entry>,
    /// Why the scan failed, where it did.
    pub error: Option<String>,
    /// When it ended, in seconds: the bits of an `f64`.
    pub at: u64,
}

/// What a [`Scan`] holds.
#[verifier::ext_equal]
pub struct ScanView {
    pub job: JobView,
    pub entries: Seq<EntryView>,
    pub error: Option<Seq<char>>,
    pub at: u64,
}

impl View for Scan {
    type V = ScanView;

    open spec fn view(&self) -> ScanView {
        ScanView {
            job: self.job@,
            entries: self.entries.deep_view(),
            error: self.error.deep_view(),
            at: self.at,
        }
    }
}

/// A run over the packages that are to be scanned.
#[derive(Debug)]
pub struct Run {
    pub report: IndexReport,
    /// How many packages are to be scanned.
    pub jobs: usize,
    /// How many of them are finished.
    pub done: usize,
}

/// What a [`Run`] holds.
#[verifier::ext_equal]
pub struct RunView {
    pub report: IndexReportView,
    pub jobs: usize,
    pub done: usize,
}

impl View for Run {
    type V = RunView;

    open spec fn view(&self) -> RunView {
        RunView { report: self.report@, jobs: self.jobs, done: self.done }
    }
}

/// No more scans failed than are finished, and no more are finished than there are.
pub open spec fn sound_run(run: RunView) -> bool {
    run.report.errors <= run.done <= run.jobs
}

/// A run before any package is scanned.
pub open spec fn run_begun(found: usize, survey: SurveyView) -> RunView {
    RunView {
        report: IndexReportView {
            found,
            indexed: 0,
            skipped: survey.skipped,
            removed: survey.removed,
            errors: 0,
            entries: 0,
            previews: 0,
        },
        jobs: survey.jobs.len() as usize,
        done: 0,
    }
}

/// A finished scan taken into the index: its entries, or that it failed.
pub open spec fn scan_taken(db: DbView, run: RunView, s: ScanView, previews: bool) -> (
    DbView,
    RunView,
    Result<JobEndView, ErrorView>,
) {
    let done = (run.done + 1) as usize;
    match s.error {
        Some(e) => (
            marked(db, s.job.pid, "error"@, Some(e)),
            RunView {
                report: IndexReportView { errors: (run.report.errors + 1) as usize, ..run.report },
                done,
                ..run
            },
            Ok(JobEndView::Failed(failure_line(done as nat, run.jobs as nat, s.job.rel, e))),
        ),
        None => match refusal(db, s.job.pid, s.entries) {
            None => (
                rescanned(db, s.job.pid, s.entries, previews, s.at),
                RunView {
                    report: IndexReportView {
                        entries: run.report.entries.wrapping_add(s.entries.len() as usize),
                        ..run.report
                    },
                    done,
                    ..run
                },
                Ok(JobEndView::Stored(s.entries.len() as usize, size_sum(entry_sizes(s.entries)))),
            ),
            Some(e) => (db, RunView { done, ..run }, Err(ErrorView::Other(store_words(e)))),
        },
    }
}

impl Run {
    /// A run before any package is scanned.
    pub fn begin(found: usize, survey: &Survey) -> (r: Self)
        ensures
            r@ == run_begun(found, survey@),
            sound_run(r@),
    {
        let report = IndexReport {
            found,
            indexed: 0,
            skipped: survey.skipped,
            removed: survey.removed,
            errors: 0,
            entries: 0,
            previews: 0,
        };
        Run { report, jobs: survey.jobs.len(), done: 0 }
    }

    /// Counts thumbnails that were stored.
    pub fn count_previews(&mut self, n: usize)
        ensures
            final(self)@ == (RunView {
                report: IndexReportView {
                    previews: old(self)@.report.previews.wrapping_add(n),
                    ..old(self)@.report
                },
                ..old(self)@
            }),
    {
        self.report.previews = self.report.previews.wrapping_add(n);
    }

    /// Takes a finished scan into the index: its entries, or that it failed.
    pub fn take_scan(&mut self, db: &mut Database, scan: &Scan, previews: bool) -> (r: Result<JobEnd, Error>)
        requires
            sound_run(old(self)@),
            old(self)@.done < old(self)@.jobs,
        ensures
            (final(db)@, final(self)@, outcome(r)) == scan_taken(old(db)@, old(self)@, scan@, previews),
            sound_run(final(self)@),
    {
        self.done = self.done + 1;
        match &scan.error {
            Some(e) => {
                self.report.errors = self.report.errors + 1;
                db.mark_package(scan.job.pid, "error", Some(e.as_str()));
                Ok(JobEnd::Failed(make_failure_line(self.done, self.jobs, scan.job.rel.as_str(), e.as_str())))
            },
            None => match db.replace_package_assets(scan.job.pid, &scan.entries, previews, scan.at) {
                Ok((n, total)) => {
                    self.report.entries = self.report.entries.wrapping_add(n);
                    Ok(JobEnd::Stored(n, total))
                },
                Err(e) => Err(store_error(e)),
            },
        }
    }

    /// The report of a run at its end: what did not fail is indexed.
    pub fn end(self) -> (r: IndexReport)
        requires
            sound_run(self@),
        ensures
            r@ == (IndexReportView {
                indexed: (self@.jobs - self@.report.errors) as usize,
                ..self@.report
            }),
    {
        let mut report = self.report;
        report.indexed = self.jobs - report.errors;
        report
    }
}

/// Thumbnails on their way to the index.
pub struct PreviewBatch {
    pub items: Vec<(String, Vec<u8>)>,
    pub bytes: usize,
}

impl PreviewBatch {
    pub fn new() -> (r: Self)
        ensures
            r.items.deep_view() == Seq::<(Seq<char>, Seq<u8>)>::empty(),
            r.bytes == 0,
    {
        let r = PreviewBatch { items: Vec::new(), bytes: 0 };
        assert(r.items.deep_view() =~= Seq::<(Seq<char>, Seq<u8>)>::empty());
        r
    }

    /// Adds a thumbnail; gives back the batch where it is large enough to be handed on.
    pub fn push(&mut self, guid: &str, png: Vec<u8>) -> (r: Option<Vec<(String, Vec<u8>)>>)
        ensures
            ({
                let items = old(self).items.deep_view().push((guid@, png.deep_view()));
                if old(self).bytes + png@.len() >= PREVIEW_CHUNK_BYTES {
                    &&& r matches Some(v) && v.deep_view() == items
                    &&& final(self).items.deep_view() == Seq::<(Seq<char>, Seq<u8>)>::empty()
                    &&& final(self).bytes == 0
                } else {
                    &&& r is None
                    &&& final(self).items.deep_view() == items
                    &&& final(self).bytes == old(self).bytes + png@.len()
                }
            }),
    {
        let ghost i0 = self.items.deep_view();
        let ghost pv = png.deep_view();
        let bytes: usize = self.bytes.saturating_add(png.len());
        self.items.push((guid.to_string(), png));
        assert(self.items.deep_view() =~= i0.push((guid@, pv)));
        if bytes >= PREVIEW_CHUNK_BYTES {
            let mut full: Vec<(String, Vec<u8>)> = Vec::new();
            std::mem::swap(&mut full, &mut self.items);
            self.bytes = 0;
            assert(self.items.deep_view() =~= Seq::<(Seq<char>, Seq<u8>)>::empty());
            Some(full)
        } else {
            self.bytes = bytes;
            None
        }
    }
}

// ----- laws ----------------------------------------------------------------------------------

/// Indexing is incremental: a package that the index has in full, whose file has the same size and
/// time, is not scanned again, unless all are, or thumbnails are wanted that were not stored.
pub proof fn unchanged_packages_are_skipped(
    db: DbView,
    st: SurveyView,
    f: FoundFileView,
    p: PackageView,
    previews: bool,
)
    requires
        known(db, f.rel) == Some(p),
        p.root == ""@,
        p.status == "ok"@,
        p.indexed_at is Some,
        p.size == f.size as i64,
        previews ==> p.previews_indexed,
        !f.moved,
        f.trouble is None,
    ensures
        surveyed(db, st, f, false, previews) matches Ok((_, s)) && s.jobs == st.jobs && s.skipped == (st.skipped
            + 1) as usize,
{
    let q = |r: PackageRowView| r.package.rel_path == f.rel;
    let w = |r: PackageRowView| r.package.root == ""@ && r.package.rel_path == f.rel;
    lemma_first_index_bounds(db.packages, q);
    let i = first_index(db.packages, q);
    assert(w(db.packages[i]));
    assert forall|j: int| 0 <= j < i implies !w(#[trigger] db.packages[j]) by {
        assert(!q(db.packages[j]));
    }
    lemma_first_index(db.packages, w, i);
}

/// Every package of the index was found under the one library.
pub open spec fn one_root(db: DbView) -> bool {
    forall|i: int| 0 <= i < db.packages.len() ==> (#[trigger] db.packages[i]).package.root == ""@
}

/// A package that was looked at and scanned is up to date: as long as its file stays the same, the
/// next run skips it.
pub proof fn scanned_packages_are_up_to_date(
    db: DbView,
    f: FoundFileView,
    force: bool,
    previews: bool,
    es: Seq<EntryView>,
    now: u64,
    wanted: bool,
)
    requires
        one_root(db),
        wanted ==> previews,
    ensures
        ({
            let looked = registered(db, f, force, previews);
            let i = path_index(db.packages, ""@, f.rel);
            let scanned = rescanned(looked, looked.packages[i].package.id, es, previews, now);
            judgement(known(scanned, f.rel), f.size as i64, false, false, wanted).up_to_date
        }),
{
    let looked = registered(db, f, force, previews);
    let j = judgement(known(db, f.rel), f.size as i64, f.moved, force, previews);
    let fv = file_found(f, j.need_header);
    let q = |r: PackageRowView| r.package.rel_path == f.rel;
    let w = |r: PackageRowView| r.package.root == ""@ && r.package.rel_path == f.rel;
    let i = path_index(db.packages, ""@, f.rel);
    lemma_first_index_bounds(db.packages, w);
    assert(looked.packages == upserted(db.packages, fv));
    let pid = looked.packages[i].package.id;
    let scanned = rescanned(looked, pid, es, previews, now);
    assert(scanned.packages.len() == looked.packages.len());
    assert(q(looked.packages[i]));
    assert(q(scanned.packages[i]));
    assert forall|k: int| 0 <= k < i implies !q(#[trigger] scanned.packages[k]) by {
        assert(looked.packages[k] == db.packages[k]);
        assert(!w(db.packages[k]));
        assert(scanned.packages[k].package.rel_path == looked.packages[k].package.rel_path);
    }
    lemma_first_index(scanned.packages, q, i);
    assert(scanned.packages[i].package.status == "ok"@);
    assert(scanned.packages[i].package.size == f.size as i64);
}

proof fn lemma_swept(db: DbView, rows: Seq<PackageView>, seen: Seq<Seq<char>>, n: nat, r: PackageRowView)
    requires
        n <= rows.len(),
    ensures
        swept(db, rows, seen, n).0.packages.contains(r) <==> db.packages.contains(r) && forall|k: int|
            0 <= k < n ==> seen.contains((#[trigger] rows[k]).rel_path) || rows[k].id != r.package.id,
    decreases n,
{
    if n > 0 {
        lemma_swept(db, rows, seen, (n - 1) as nat, r);
        let d = swept(db, rows, seen, (n - 1) as nat).0;
        let pid = rows[n - 1].id;
        if !seen.contains(rows[n - 1].rel_path) {
            lemma_filter_has(d.packages, |x: PackageRowView| x.package.id != pid, r);
        }
    }
}

/// After a full run the index holds exactly the packages that were seen: one whose file is gone has
/// left, one whose file is there has stayed.
pub proof fn index_holds_what_was_seen(db: DbView, seen: Seq<Seq<char>>, r: PackageRowView)
    requires
        valid(db),
    ensures
        ({
            let rows = arranged(package_views(db.packages), by_publisher());
            swept(db, rows, seen, rows.len()).0.packages.contains(r) <==> db.packages.contains(r) && seen.contains(
                r.package.rel_path,
            )
        }),
{
    let views = package_views(db.packages);
    let rows = arranged(views, by_publisher());
    lemma_swept(db, rows, seen, rows.len(), r);
    orders_are_orders();
    if db.packages.contains(r) {
        let i = choose|i: int| 0 <= i < db.packages.len() && db.packages[i] == r;
        assert(views[i] == r.package);
        assert(views.contains(r.package));
        arranging_keeps(views, by_publisher(), r.package);
        let k = choose|k: int| 0 <= k < rows.len() && rows[k] == r.package;
        assert(rows[k].id == r.package.id);
        assert forall|k: int| 0 <= k < rows.len() && rows[k].id == r.package.id implies #[trigger] rows[k]
            == r.package by {
            assert(rows.contains(rows[k]));
            arranging_keeps(views, by_publisher(), rows[k]);
            let m = choose|m: int| 0 <= m < views.len() && views[m] == rows[k];
            assert(db.packages[m].package.id == db.packages[i].package.id);
        }
    }
}

/// The largest packages are scanned first, and every package that is to be scanned is.
pub proof fn largest_packages_come_first(jobs: Seq<JobView>, j: JobView)
    ensures
        in_order(arranged(jobs, largest_first()), largest_first()),
        arranged(jobs, largest_first()).contains(j) <==> jobs.contains(j),
{
    assert(orders(largest_first()));
    arranging_sorts(jobs, largest_first());
    arranging_keeps(jobs, largest_first(), j);
}

} // verus!
