//! What indexing a library promises: which files are packages, which of them are scanned, and what is
//! put down of them.

use vstd::prelude::*;

use crate::db::{
    entry_sizes, path_index, refreshed, rescanned, search_text_of, size_sum, upserted, without_package, AssetRowView, DbView, FoundView,
    PackageRowView,
};
use crate::indexer::{
    asked_for, behind, by_parts, file_found, idle, relative, without_back, without_front, judgement, known,
    library_surveyed, package_name, packages_among, rel_parts, surveyed_all, FoundFileView, JobView,
};
use crate::kinds::ext_and_kind;
use crate::model::PackageView;
use crate::search_laws::mentions;
use crate::seqs::{first_index, lemma_filter_has, lemma_first_index, lemma_first_index_bounds};
use crate::sorted::arranging_keeps;
use crate::text::{after_last, glue, lower, occurs, occurs_at, pieces, replaced, starts, Sep};
use crate::unitypackage::{main_class_of, EntryView, PackageHeaderView};

verus! {

// ----- files ---------------------------------------------------------------------------------

/// A file is a package where its name ends in `.unitypackage`, in either case, and does not begin with
/// a dot; every such file is found, and no other.
pub proof fn every_package_file_is_found(paths: Seq<Seq<char>>, p: Seq<char>)
    ensures
        packages_among(paths).contains(p) <==> paths.contains(p) && {
            let name = after_last(p, '/');
            &&& name.len() >= 13 && lower(name.skip(name.len() - 13)) == ".unitypackage"@
            &&& name[0] != '.'
        },
{
    reveal_strlit(".unitypackage");
    reveal_strlit(".");
    let q = |p: Seq<char>| package_name(after_last(p, '/'));
    crate::indexer::lemma_by_parts();
    arranging_keeps(paths.filter(q), by_parts(), p);
    lemma_filter_has(paths, q, p);
    let name = after_last(p, '/');
    let low = lower(name);
    if name.len() >= 13 {
        assert(low.subrange(low.len() - 13, low.len() as int) =~= lower(name.skip(name.len() - 13)));
    }
    if name.len() > 0 {
        assert(name.subrange(0, 1) =~= seq![name[0]]);
        assert("."@ =~= seq!['.']);
        if name[0] != '.' && starts(name, "."@) {
            assert(name.subrange(0, 1)[0] == name[0]);
        }
    }
}

proof fn lemma_glue_front(a: Seq<char>, ps: Seq<Seq<char>>, sep: Seq<char>)
    requires
        ps.len() > 0,
    ensures
        glue(seq![a] + ps, sep) == a + sep + glue(ps, sep),
    decreases ps.len(),
{
    let all = seq![a] + ps;
    if ps.len() == 1 {
        assert(all.drop_last() =~= seq![a]);
        assert(glue(seq![a], sep) == a);
        assert(all.last() == ps[0]);
    } else {
        let rest = ps.drop_last();
        lemma_glue_front(a, rest, sep);
        assert(all.drop_last() =~= seq![a] + rest);
        assert(all.last() == ps.last());
        assert(glue(all, sep) =~= a + sep + glue(ps, sep));
    }
}

/// The path of a package below the library tells its publisher, its category and its name: put
/// together again, with the end of the file name, they are the path.
pub proof fn paths_are_publisher_category_name(rel: Seq<char>)
    ensures
        ({
            let (name, publisher, category) = rel_parts(rel);
            let parts = pieces(rel, Sep::Is('/'));
            let file = parts.last();
            &&& parts.len() >= 3 ==> rel == publisher + seq!['/'] + category + seq!['/'] + file && !publisher.contains(
                '/',
            )
            &&& parts.len() == 2 ==> rel == publisher + seq!['/'] + file && category.len() == 0
            &&& parts.len() == 1 ==> rel == file && publisher.len() == 0 && category.len() == 0
            &&& !file.contains('/')
            &&& file.len() >= 13 && lower(file.skip(file.len() - 13)) == ".unitypackage"@ ==> file == name + file.skip(
                file.len() - 13,
            )
            &&& file.len() < 13 || lower(file.skip(file.len() - 13)) != ".unitypackage"@ ==> file == name
        }),
{
    reveal_strlit(".unitypackage");
    reveal_strlit("/");
    let sep = seq!['/'];
    assert("/"@ =~= sep);
    let parts = pieces(rel, Sep::Is('/'));
    let n = parts.len() as int;
    crate::text::lemma_pieces_nonempty(rel, Sep::Is('/'));
    crate::text::glue_undoes_pieces(rel, '/');
    crate::cache::lemma_no_slash_in_pieces(rel, n - 1);
    crate::cache::lemma_no_slash_in_pieces(rel, 0);
    let file = parts.last();
    let low = lower(file);
    if file.len() >= 13 {
        assert(low.subrange(low.len() - 13, low.len() as int) =~= lower(file.skip(file.len() - 13)));
        assert(file =~= file.take(file.len() - 13) + file.skip(file.len() - 13));
    }
    if n == 1 {
        assert(parts =~= seq![file]);
    } else if n == 2 {
        assert(parts =~= seq![parts[0]] + seq![file]);
        lemma_glue_front(parts[0], seq![file], sep);
    } else {
        let mid = parts.subrange(1, n - 1);
        let rest = mid.push(file);
        assert(parts =~= seq![parts[0]] + rest);
        lemma_glue_front(parts[0], rest, sep);
        assert(rest.drop_last() =~= mid);
        assert(glue(rest, sep) == glue(mid, sep) + sep + file);
        assert(rel =~= parts[0] + sep + glue(mid, sep) + sep + file);
    }
}

/// With a text given, only the packages whose path mentions it are looked at.
pub proof fn packages_are_picked_by_what_their_path_mentions(rel: Seq<char>, only: Seq<char>)
    ensures
        asked_for(rel, None),
        asked_for(rel, Some(only)) <==> mentions(rel, only),
{
    if asked_for(rel, Some(only)) {
        let i = choose|i: int| occurs_at(lower(rel), lower(only), i);
        assert(lower(rel.subrange(i, i + only.len())) =~= lower(rel).subrange(i, i + only.len()));
    }
    if mentions(rel, only) {
        let i = choose|i: int|
            0 <= i && i + only.len() <= rel.len() && lower(#[trigger] rel.subrange(i, i + only.len())) == lower(only);
        assert(lower(rel.subrange(i, i + only.len())) =~= lower(rel).subrange(i, i + only.len()));
        assert(occurs_at(lower(rel), lower(only), i));
    }
}

// ----- what is scanned -----------------------------------------------------------------------

/// A package is left as it is only where the index has it, complete and without error, its file has the
/// size and the time of then, its previews are there if they are wanted, and nothing is forced.
pub proof fn only_unchanged_packages_are_left(
    db: DbView,
    rel: Seq<char>,
    size: u64,
    moved: bool,
    force: bool,
    previews: bool,
    h: int,
)
    requires
        0 <= h < db.packages.len(),
        db.packages[h].package.rel_path == rel,
        forall|j: int| 0 <= j < h ==> (#[trigger] db.packages[j]).package.rel_path != rel,
    ensures
        judgement(known(db, rel), size as i64, moved, force, previews).up_to_date <==> {
            let p = db.packages[h].package;
            &&& !force
            &&& p.status == "ok"@
            &&& p.indexed_at is Some
            &&& p.size == size as i64
            &&& !moved
            &&& previews ==> p.previews_indexed
        },
        judgement(known(db, rel), size as i64, moved, force, previews).need_header <==> {
            let p = db.packages[h].package;
            force || p.size != size as i64 || moved || p.title is None
        },
{
    lemma_first_index(db.packages, |p: PackageRowView| p.package.rel_path == rel, h);
}

/// A package that the index does not have is scanned.
pub proof fn new_packages_are_scanned(
    db: DbView,
    rel: Seq<char>,
    size: u64,
    moved: bool,
    force: bool,
    previews: bool,
)
    requires
        forall|j: int| 0 <= j < db.packages.len() ==> (#[trigger] db.packages[j]).package.rel_path != rel,
    ensures
        !judgement(known(db, rel), size as i64, moved, force, previews).up_to_date,
        judgement(known(db, rel), size as i64, moved, force, previews).need_header,
{
    lemma_first_index(db.packages, |p: PackageRowView| p.package.rel_path == rel, db.packages.len() as int);
}

proof fn lemma_known_stays(db: DbView, f: FoundView, rel: Seq<char>)
    requires
        f.rel_path != rel,
    ensures
        known(DbView { packages: upserted(db.packages, f), ..db }, rel) == known(db, rel),
{
    let s = db.packages;
    let t = upserted(s, f);
    let p = |r: PackageRowView| r.package.rel_path == rel;
    let i = path_index(s, f.root, f.rel_path);
    lemma_first_index_bounds(s, |r: PackageRowView| r.package.root == f.root && r.package.rel_path == f.rel_path);
    lemma_first_index_bounds(s, p);
    let k = first_index(s, p);
    if k < s.len() {
        assert(t[k] == s[k]);
        assert forall|j: int| 0 <= j < k implies !p(#[trigger] t[j]) by {
            assert(!p(s[j]));
        }
        lemma_first_index(t, p, k);
    } else {
        assert forall|j: int| 0 <= j < t.len() implies !p(#[trigger] t[j]) by {
            if j < s.len() {
                assert(!p(s[j]));
            }
        }
        lemma_first_index(t, p, t.len() as int);
    }
}

/// Whether a look at some files leads to the scan of a package.
pub open spec fn has_job(jobs: Seq<JobView>, rel: Seq<char>, bytes: u64) -> bool {
    exists|j: int| 0 <= j < jobs.len() && (#[trigger] jobs[j]).rel == rel && jobs[j].bytes == bytes
}

proof fn lemma_surveyed_all(
    db: DbView,
    files: Seq<FoundFileView>,
    force: bool,
    previews: bool,
    n: nat,
    i: int,
)
    requires
        n <= files.len(),
        surveyed_all(db, files, force, previews, n).1 is Ok,
        0 <= i < files.len(),
        forall|j: int| 0 <= j < files.len() && j != i ==> (#[trigger] files[j]).rel != files[i].rel,
    ensures
        n <= i ==> known(surveyed_all(db, files, force, previews, n).0, files[i].rel) == known(db, files[i].rel),
        ({
            let st = surveyed_all(db, files, force, previews, n).1->Ok_0;
            let f = files[i];
            let j = judgement(known(db, f.rel), f.size as i64, f.moved, force, previews);
            &&& i < n ==> st.seen.contains(f.rel)
            &&& i < n && f.trouble is None && !j.up_to_date ==> has_job(st.jobs, f.rel, f.size)
        }),
    decreases n,
{
    if n > 0 {
        let m = (n - 1) as nat;
        lemma_surveyed_all(db, files, force, previews, m, i);
        let (d, before) = surveyed_all(db, files, force, previews, m);
        let st0 = before->Ok_0;
        let f = files[n - 1];
        let st = surveyed_all(db, files, force, previews, n).1->Ok_0;
        let rel = files[i].rel;
        if f.trouble is None && n - 1 != i {
            let j = judgement(known(d, f.rel), f.size as i64, f.moved, force, previews);
            lemma_known_stays(d, file_found(f, j.need_header), rel);
        }
        if st0.seen.contains(rel) {
            let k = choose|k: int| 0 <= k < st0.seen.len() && st0.seen[k] == rel;
            assert(st.seen[k] == rel);
        }
        if n - 1 == i {
            assert(st.seen[st0.seen.len() as int] == rel);
            if f.trouble is None && !judgement(known(db, rel), f.size as i64, f.moved, force, previews).up_to_date {
                let x = st.jobs[st0.jobs.len() as int];
                assert(x.rel == rel && x.bytes == f.size);
            }
        }
        if has_job(st0.jobs, rel, files[i].size) {
            let k = choose|k: int|
                0 <= k < st0.jobs.len() && (#[trigger] st0.jobs[k]).rel == rel && st0.jobs[k].bytes == files[i].size;
            assert(st.jobs[k] == st0.jobs[k]);
        }
    }
}

/// A look at the library leads to the scan of every package whose file can be read and that is not up
/// to date, and tells that each was seen.
pub proof fn what_is_not_up_to_date_is_scanned(
    db: DbView,
    files: Seq<FoundFileView>,
    force: bool,
    previews: bool,
    sweeping: bool,
    i: int,
)
    requires
        library_surveyed(db, files, force, previews, sweeping).1 is Ok,
        0 <= i < files.len(),
        forall|j: int| 0 <= j < files.len() && j != i ==> (#[trigger] files[j]).rel != files[i].rel,
    ensures
        ({
            let st = library_surveyed(db, files, force, previews, sweeping).1->Ok_0;
            let f = files[i];
            let j = judgement(known(db, f.rel), f.size as i64, f.moved, force, previews);
            &&& st.seen.contains(f.rel)
            &&& f.trouble is None && !j.up_to_date ==> has_job(st.jobs, f.rel, f.size)
            &&& f.trouble is None && force ==> has_job(st.jobs, f.rel, f.size)
        }),
{
    lemma_surveyed_all(db, files, force, previews, files.len(), i);
    let st0 = surveyed_all(db, files, force, previews, files.len()).1->Ok_0;
    let st = library_surveyed(db, files, force, previews, sweeping).1->Ok_0;
    let f = files[i];
    if has_job(st0.jobs, f.rel, f.size) {
        let k = choose|k: int|
            0 <= k < st0.jobs.len() && (#[trigger] st0.jobs[k]).rel == f.rel && st0.jobs[k].bytes == f.size;
        let x = st0.jobs[k];
        assert(st0.jobs.contains(x));
        crate::indexer::largest_packages_come_first(st0.jobs, x);
        let j = choose|j: int| 0 <= j < st.jobs.len() && st.jobs[j] == x;
        assert(st.jobs[j].rel == f.rel);
    }
}

// ----- what is put down ----------------------------------------------------------------------

/// A scan puts down a row for every entry, with all that the entry holds: its guid, path and name, the
/// extension and kind that its path tells, its importer, labels, size and marks, and its references.
/// The rows of other packages stay, and the package tells how much it holds.
pub proof fn scans_put_down_every_entry(
    db: DbView,
    pid: i64,
    es: Seq<EntryView>,
    previews: bool,
    now: u64,
    i: int,
    h: int,
)
    requires
        0 <= i < es.len(),
        0 <= h < db.packages.len(),
        db.packages[h].package.id == pid,
    ensures
        ({
            let d = rescanned(db, pid, es, previews, now);
            let kept = without_package(db.assets, pid);
            let r = d.assets[kept.len() + i];
            let e = es[i];
            let p = d.packages[h].package;
            &&& d.assets.len() == kept.len() + es.len()
            &&& forall|k: int| 0 <= k < kept.len() ==> d.assets[k] == #[trigger] kept[k]
            &&& r.package_id == pid && r.guid == e.guid && r.path == e.path && r.name == after_last(e.path, '/')
            &&& r.importer == e.importer && r.size == e.asset_size as i64 && r.is_folder == e.is_folder
            &&& r.has_preview == e.has_preview && r.is_text == e.is_text && r.scan_truncated == e.scan_truncated
            &&& r.labels == e.labels && r.refs == e.refs
            &&& (r.ext, r.kind) == ext_and_kind(e.path, e.is_folder)
            &&& r.main_class == main_class_of(e)
            &&& p.entry_count == es.len() as i64 && p.status == "ok"@ && p.error is None && p.indexed_at == Some(now)
            &&& p.previews_indexed == previews
            &&& p.name == db.packages[h].package.name && p.rel_path == db.packages[h].package.rel_path && p.id == pid
        }),
{
}

/// The bytes of a package are those of its entries: none adds nothing, and every entry adds its size.
pub proof fn packages_count_every_byte(es: Seq<EntryView>, e: EntryView)
    ensures
        es.len() == 0 ==> size_sum(entry_sizes(es)) == 0,
        size_sum(entry_sizes(es.push(e))) == size_sum(entry_sizes(es)).wrapping_add(e.asset_size as i64),
        forall|db: DbView, pid: i64, previews: bool, now: u64, h: int|
            0 <= h < db.packages.len() && (#[trigger] db.packages[h]).package.id == pid ==> (#[trigger] rescanned(
                db,
                pid,
                es,
                previews,
                now,
            )).packages[h].package.total_bytes == size_sum(entry_sizes(es)),
{
    let t = entry_sizes(es.push(e));
    assert(t.drop_last() =~= entry_sizes(es));
    assert(t.last() == e.asset_size as i64);
}

/// What the store header of a package says is taken over; what it does not say stays as it was.
pub proof fn headers_are_taken_over(r: PackageRowView, f: FoundView, h: PackageHeaderView)
    requires
        f.header == Some(h),
    ensures
        ({
            let p = refreshed(r, f).package;
            let q = r.package;
            &&& p.title == (if h.title is Some {
                h.title
            } else {
                q.title
            })
            &&& p.version == (if h.version is Some {
                h.version
            } else {
                q.version
            })
            &&& p.unity_version == (if h.unity_version is Some {
                h.unity_version
            } else {
                q.unity_version
            })
            &&& p.pubdate == (if h.pubdate is Some {
                h.pubdate
            } else {
                q.pubdate
            })
            &&& p.store_id == (if h.store_id is Some {
                h.store_id
            } else {
                q.store_id
            })
            &&& p.category_label == (if h.category is Some {
                h.category
            } else {
                q.category_label
            })
            &&& p.description == (if h.description is Some {
                h.description
            } else {
                q.description
            })
            &&& p.publisher == (if h.publisher is Some && h.publisher->0.len() > 0 {
                h.publisher->0
            } else {
                f.publisher
            })
            &&& p.id == q.id && p.status == q.status && p.indexed_at == q.indexed_at && p.entry_count == q.entry_count
            &&& p.name == f.name && p.category == f.category && p.size == f.size && p.mtime == f.mtime
            &&& refreshed(r, f).header == Some(h.json)
        }),
{
}

/// Without a store header a package keeps what is known of it from one.
pub proof fn headers_are_kept(r: PackageRowView, f: FoundView)
    requires
        f.header is None,
    ensures
        ({
            let p = refreshed(r, f).package;
            let q = r.package;
            &&& p.title == q.title && p.version == q.version && p.unity_version == q.unity_version
            &&& p.pubdate == q.pubdate && p.store_id == q.store_id && p.category_label == q.category_label
            &&& p.description == q.description && p.id == q.id && p.status == q.status
            &&& p.indexed_at == q.indexed_at && p.entry_count == q.entry_count && p.publisher == f.publisher
            &&& p.name == f.name && p.category == f.category && p.size == f.size && p.mtime == f.mtime
            &&& refreshed(r, f).header == r.header
        }),
{
}

/// A package that leaves the library leaves the index with its assets; the others keep theirs.
pub proof fn what_is_gone_leaves_with_its_assets(db: DbView, seen: Seq<Seq<char>>, rows: Seq<PackageView>, n: nat, a: AssetRowView)
    requires
        n <= rows.len(),
    ensures
        crate::indexer::swept(db, rows, seen, n).0.assets.contains(a) <==> db.assets.contains(a) && forall|k: int|
            0 <= k < n && (#[trigger] rows[k]).id == a.package_id ==> seen.contains(rows[k].rel_path),
    decreases n,
{
    if n > 0 {
        let m = (n - 1) as nat;
        what_is_gone_leaves_with_its_assets(db, seen, rows, m, a);
        let d = crate::indexer::swept(db, rows, seen, m).0;
        let pid = rows[m as int].id;
        lemma_filter_has(d.assets, |x: AssetRowView| x.package_id != pid, a);
        assert(rows[n - 1].id == pid);
    }
}

// ----- paths in the library ------------------------------------------------------------------

proof fn lemma_pieces_sum(a: Seq<char>, b: Seq<char>, c: char)
    ensures
        pieces(a.push(c) + b, Sep::Is(c)) == pieces(a, Sep::Is(c)) + pieces(b, Sep::Is(c)),
    decreases b.len(),
{
    let k = Sep::Is(c);
    let s = a.push(c) + b;
    crate::text::lemma_pieces_nonempty(b, k);
    if b.len() == 0 {
        assert(s.drop_last() =~= a);
        assert(pieces(s, k) =~= pieces(a, k) + pieces(b, k));
    } else {
        let t = b.drop_last();
        lemma_pieces_sum(a, t, c);
        crate::text::lemma_pieces_nonempty(t, k);
        assert(s.drop_last() =~= a.push(c) + t);
        assert(s.last() == b.last());
        let (x, y) = (pieces(a, k), pieces(t, k));
        assert((x + y).last() == y.last());
        assert((x + y).drop_last() =~= x + y.drop_last());
        assert(pieces(s, k) =~= x + pieces(b, k));
    }
}

proof fn lemma_behind_front(ps: Seq<Seq<char>>, bs: Seq<Seq<char>>)
    ensures
        behind(without_front(ps), bs) == behind(ps, bs),
    decreases bs.len(),
{
    lemma_front_twice(ps);
    if bs.len() > 0 && idle(bs.first()) {
        lemma_behind_front(ps, bs.drop_first());
    }
}

proof fn lemma_front_twice(ps: Seq<Seq<char>>)
    ensures
        without_front(without_front(ps)) == without_front(ps),
    decreases ps.len(),
{
    if ps.len() > 0 && idle(ps.first()) {
        lemma_front_twice(ps.drop_first());
    }
}

proof fn lemma_behind_itself(bs: Seq<Seq<char>>, rs: Seq<Seq<char>>)
    ensures
        behind(bs + rs, bs) == Some(without_front(rs)),
    decreases bs.len(),
{
    if bs.len() == 0 {
        assert(bs + rs =~= rs);
    } else {
        let cs = bs.drop_first();
        assert((bs + rs).drop_first() =~= cs + rs);
        assert((bs + rs).first() == bs.first());
        lemma_behind_itself(cs, rs);
        if idle(bs.first()) {
            assert(without_front(bs + rs) == without_front(cs + rs));
            lemma_behind_front(bs + rs, cs);
            lemma_behind_front(cs + rs, cs);
        }
    }
}

/// What lies in the library goes by its path there: the library itself and the slash behind it are left
/// out, and backslashes become slashes.
pub proof fn paths_are_relative_to_the_library(library: Seq<char>, rest: Seq<char>)
    requires
        library.len() > 0,
        !idle(pieces(rest, Sep::Is('/'))[0]),
        !idle(pieces(rest, Sep::Is('/')).last()),
    ensures
        relative(library, library + "/"@ + rest) == replaced(rest, '\\', '/'),
{
    reveal_strlit("/");
    let p = library + "/"@ + rest;
    assert(p =~= library.push('/') + rest);
    lemma_pieces_sum(library, rest, '/');
    let (bs, rs) = (pieces(library, Sep::Is('/')), pieces(rest, Sep::Is('/')));
    crate::text::lemma_pieces_nonempty(library, Sep::Is('/'));
    crate::text::lemma_pieces_nonempty(rest, Sep::Is('/'));
    lemma_behind_itself(bs, rs);
    assert(p[0] == library[0]);
    assert((bs + rs)[0] == bs[0]);
    assert(without_front(rs) == rs);
    assert(without_back(rs) == rs);
    crate::text::glue_undoes_pieces(rest, '/');
    assert(seq!['/'] =~= "/"@);
}

// ----- what is searched ----------------------------------------------------------------------

/// The full-text index has of every asset its name, its path, and all of the labels that it has; and of its
/// package the name, the title and the publisher.
pub proof fn index_entries_have_every_text(a: AssetRowView, p: PackageView, i: int)
    ensures
        ({
            let t = search_text_of(a, p);
            &&& t.name == a.name && t.path == a.path && t.publisher == p.publisher
            &&& occurs_at(t.package, p.name, 0)
            &&& p.title matches Some(title) ==> occurs_at(t.package, title, t.package.len() - title.len())
            &&& 0 <= i < a.labels.len() ==> occurs(t.labels, a.labels[i])
        }),
{
    let t = search_text_of(a, p);
    assert(t.package.subrange(0, p.name.len() as int) =~= p.name);
    if let Some(title) = p.title {
        assert(t.package.subrange(t.package.len() - title.len(), t.package.len() as int) =~= title);
    }
    if 0 <= i < a.labels.len() {
        let x = a.labels[i];
        assert(x.subrange(0, x.len() as int) =~= x);
        assert(occurs_at(x, x, 0));
        crate::remote_laws::lemma_glued(a.labels, " "@, i, x);
    }
}

} // verus!
