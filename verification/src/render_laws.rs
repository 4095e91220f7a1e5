//! What the printed output promises: nothing that was found goes unsaid.

use vstd::prelude::*;

use crate::groups::distinct_numbers_are_all_there;
use crate::human::human_text;
use crate::model::{
    AssetInfoView, AssetView, ClosureAssetView, ClosureOutView, ExportOutView, PackageListingView, PackageView,
    RefInfoView, shown_category,
};
use crate::number::{numeral, signed_numeral};
use crate::render::{
    asset_details_of, below, branch_of, branches_of, child_lines, closure_line_of, closure_lines_of,
    conflict_lines_of, dep_tree_lines_of, deps_lines_of, dir_lines_of, dirs_in, export_head_of, export_lines_of,
    file_lines_of, files_in, info_lines_of, left, listed_lines_of, listing_lines_of, node_lines, node_packages,
    nodes_in, package_flags_of, package_line_of, package_lines_of, package_part_of, package_parts_of, pad_of,
    rdeps_lines_of, refs_shown_of, right, root_lines, search_lines_of, shown_assets, text_or,
    tree_lines_of, tree_of, user_lines_of, BranchView, Tree,
};
use crate::seqs::lemma_filter_has;
use crate::sorted::{ascending_of, finite_sets_are_listed};
use crate::text::{ends, occurs, occurs_at, starts};

verus! {

proof fn lemma_says(line: Seq<char>, a: Seq<char>, x: Seq<char>, b: Seq<char>)
    requires
        line == a + x + b,
    ensures
        occurs(line, x),
{
    assert(line.subrange(a.len() as int, (a.len() + x.len()) as int) =~= x);
    assert(occurs_at(line, x, a.len() as int));
}

proof fn lemma_says_more(s: Seq<char>, t: Seq<char>, x: Seq<char>)
    requires
        occurs(s, x),
    ensures
        occurs(s + t, x),
{
    let i = choose|i: int| occurs_at(s, x, i);
    assert((s + t).subrange(i, i + x.len()) =~= s.subrange(i, i + x.len()));
    assert(occurs_at(s + t, x, i));
}

/// Whether a text stands in some line.
pub open spec fn said_in(lines: Seq<Seq<char>>, x: Seq<char>) -> bool {
    exists|k: int| 0 <= k < lines.len() && occurs(#[trigger] lines[k], x)
}

/// Whether two texts stand in one line.
pub open spec fn both_said(lines: Seq<Seq<char>>, x: Seq<char>, y: Seq<char>) -> bool {
    exists|k: int| 0 <= k < lines.len() && occurs(#[trigger] lines[k], x) && occurs(lines[k], y)
}

// ----- searches and packages -----------------------------------------------------------------

/// A search prints a line for every hit, in their order, with its guid, its kind, its package and its
/// path, and at the end how many there are and whether that is as many as were asked for.
pub proof fn searches_show_every_hit(rows: Seq<AssetView>, limit: nat, i: int)
    requires
        0 <= i < rows.len(),
    ensures
        ({
            let lines = search_lines_of(rows, limit);
            &&& lines.len() == rows.len() + 1
            &&& starts(lines[i], rows[i].guid)
            &&& occurs(lines[i], rows[i].kind)
            &&& occurs(lines[i], rows[i].package)
            &&& ends(lines[i], rows[i].path)
            &&& occurs(lines.last(), numeral(rows.len()))
            &&& rows.len() >= limit ==> ends(lines.last(), " (limit reached)"@)
            &&& rows.len() < limit ==> lines.last() == "-- "@ + numeral(rows.len()) + " result(s)"@
        }),
{
    let a = rows[i];
    let lines = search_lines_of(rows, limit);
    let line = lines[i];
    let kind = left(a.kind, 9);
    let size = right(human_text(a.size as int), 8);
    reveal(crate::render::search_line_of);
    assert(line == crate::render::search_line_of(a));
    assert(line == a.guid + "  "@ + kind + " "@ + size + "  ["@ + a.package + "]  "@ + a.path);
    assert(line.subrange(0, a.guid.len() as int) =~= a.guid);
    let rest = kind.skip(a.kind.len() as int);
    assert(kind =~= a.kind + rest);
    let after = rest + (" "@ + size + "  ["@ + a.package + "]  "@ + a.path);
    assert(line =~= (a.guid + "  "@) + a.kind + after);
    lemma_says(line, a.guid + "  "@, a.kind, after);
    assert(line =~= (a.guid + "  "@ + kind + " "@ + size + "  ["@) + a.package + ("]  "@ + a.path));
    lemma_says(line, a.guid + "  "@ + kind + " "@ + size + "  ["@, a.package, "]  "@ + a.path);
    assert(line.subrange(line.len() - a.path.len(), line.len() as int) =~= a.path);
    let tail = if rows.len() >= limit {
        " (limit reached)"@
    } else {
        ""@
    };
    let last = lines.last();
    assert(last =~= "-- "@ + numeral(rows.len()) + (" result(s)"@ + tail));
    lemma_says(last, "-- "@, numeral(rows.len()), " result(s)"@ + tail);
    assert(last.subrange(last.len() - tail.len(), last.len() as int) =~= tail);
    reveal_strlit("");
    if rows.len() < limit {
        assert(last =~= "-- "@ + numeral(rows.len()) + " result(s)"@);
    }
}

/// The list of packages has a line for every package, in their order, with its id, its publisher and its
/// name, under a heading.
pub proof fn package_lists_show_every_package(s: Seq<PackageView>, i: int)
    requires
        0 <= i < s.len(),
    ensures
        package_lines_of(s).len() == s.len() + 1,
        occurs(package_lines_of(s)[i + 1], signed_numeral(s[i].id as int)),
        occurs(package_lines_of(s)[i + 1], s[i].publisher + " / "@ + s[i].name),
{
    let p = s[i];
    let many = crate::render::many_roots(s);
    let line = package_lines_of(s)[i + 1];
    reveal(package_line_of);
    assert(line == package_line_of(p, many));
    let num = signed_numeral(p.id as int);
    let id = right(num, 3);
    let front = id.take(id.len() - num.len());
    let none = Seq::<char>::empty();
    assert(id =~= front + num + none);
    lemma_says(id, front, num, none);
    let gap = "  "@;
    let count = right(signed_numeral(p.entry_count as int), 7);
    let total = right(human_text(p.total_bytes as int), 9);
    let size = right(human_text(p.size as int), 9);
    let version = right(text_or(p.version, ""@), 9);
    let unity = right(text_or(p.unity_version, ""@), 11);
    let pre = id + gap + count + gap + total + gap + size + gap + version + gap + unity + gap;
    lemma_says_more(id, gap, num);
    lemma_says_more(id + gap, count, num);
    lemma_says_more(id + gap + count, gap, num);
    lemma_says_more(id + gap + count + gap, total, num);
    lemma_says_more(id + gap + count + gap + total, gap, num);
    lemma_says_more(id + gap + count + gap + total + gap, size, num);
    lemma_says_more(id + gap + count + gap + total + gap + size, gap, num);
    lemma_says_more(id + gap + count + gap + total + gap + size + gap, version, num);
    lemma_says_more(id + gap + count + gap + total + gap + size + gap + version, gap, num);
    lemma_says_more(id + gap + count + gap + total + gap + size + gap + version + gap, unity, num);
    lemma_says_more(id + gap + count + gap + total + gap + size + gap + version + gap + unity, gap, num);
    let named = pre + p.publisher + " / "@ + p.name;
    lemma_says_more(pre, p.publisher, num);
    lemma_says_more(pre + p.publisher, " / "@, num);
    lemma_says_more(pre + p.publisher + " / "@, p.name, num);
    let who = p.publisher + " / "@ + p.name;
    assert(named =~= pre + who + none);
    lemma_says(named, pre, who, none);
    lemma_named_line(p, many, named, num);
    lemma_named_line(p, many, named, who);
    assert(line == named + "  ["@ + shown_category(p) + "]"@ + package_flags_of(p, many));
}

proof fn lemma_named_line(p: PackageView, many: bool, named: Seq<char>, x: Seq<char>)
    requires
        occurs(named, x),
    ensures
        occurs(named + "  ["@ + shown_category(p) + "]"@ + package_flags_of(p, many), x),
{
    lemma_says_more(named, "  ["@, x);
    lemma_says_more(named + "  ["@, shown_category(p), x);
    lemma_says_more(named + "  ["@ + shown_category(p), "]"@, x);
    lemma_says_more(named + "  ["@ + shown_category(p) + "]"@, package_flags_of(p, many), x);
}

/// The users of an asset are printed one by one, in their order, with guid, package and path, under their
/// number.
pub proof fn users_are_all_shown(rows: Seq<AssetView>, path: Seq<char>, i: int)
    requires
        0 <= i < rows.len(),
    ensures
        rdeps_lines_of(rows, path).len() == rows.len() + 1,
        starts(rdeps_lines_of(rows, path)[0], numeral(rows.len())),
        ends(rdeps_lines_of(rows, path)[0], path),
        occurs(rdeps_lines_of(rows, path)[i + 1], rows[i].guid),
        occurs(rdeps_lines_of(rows, path)[i + 1], rows[i].package),
        ends(rdeps_lines_of(rows, path)[i + 1], rows[i].path),
{
    let a = rows[i];
    let lines = rdeps_lines_of(rows, path);
    let head = lines[0];
    assert(head.subrange(0, numeral(rows.len()).len() as int) =~= numeral(rows.len()));
    assert(head.subrange(head.len() - path.len(), head.len() as int) =~= path);
    let line = lines[i + 1];
    let kind = left(a.kind, 9);
    reveal(crate::render::rdeps_line_of);
    assert(line == crate::render::rdeps_line_of(a));
    assert(line == "  "@ + a.guid + "  "@ + kind + " ["@ + a.package + "] "@ + a.path);
    assert(line =~= "  "@ + a.guid + ("  "@ + kind + " ["@ + a.package + "] "@ + a.path));
    lemma_says(line, "  "@, a.guid, "  "@ + kind + " ["@ + a.package + "] "@ + a.path);
    assert(line =~= ("  "@ + a.guid + "  "@ + kind + " ["@) + a.package + ("] "@ + a.path));
    lemma_says(line, "  "@ + a.guid + "  "@ + kind + " ["@, a.package, "] "@ + a.path);
    assert(line.subrange(line.len() - a.path.len(), line.len() as int) =~= a.path);
}

// ----- listings ------------------------------------------------------------------------------

/// A listing that is no tree has a line for every asset that is shown, with its guid and its path, behind
/// the package and its kinds; folders are shown where they are asked for.
pub proof fn listings_show_every_asset(l: PackageListingView, folders: bool, i: int)
    requires
        0 <= i < l.assets.len(),
        folders || !l.assets[i].is_folder,
    ensures
        both_said(
            listing_lines_of(l, false, folders).skip(1 + l.kinds.len() as int),
            l.assets[i].guid,
            l.assets[i].path,
        ),
        folders ==> listing_lines_of(l, false, folders).len() == 1 + l.kinds.len() + l.assets.len(),
{
    let p = |a: AssetView| folders || !a.is_folder;
    let a = l.assets[i];
    let shown = shown_assets(l.assets, folders);
    assert(l.assets.contains(a));
    lemma_filter_has(l.assets, p, a);
    let k = choose|k: int| 0 <= k < shown.len() && shown[k] == a;
    let all = listing_lines_of(l, false, folders);
    let lines = all.skip(1 + l.kinds.len() as int);
    assert(lines =~= listed_lines_of(shown));
    let line = lines[k];
    let kind = left(a.kind, 9);
    let size = right(human_text(a.size as int), 8);
    reveal(crate::render::listed_line_of);
    assert(line == crate::render::listed_line_of(a));
    assert(line == a.guid + "  "@ + kind + " "@ + size + "  "@ + a.path);
    let none = Seq::<char>::empty();
    assert(line =~= none + a.guid + ("  "@ + kind + " "@ + size + "  "@ + a.path));
    lemma_says(line, none, a.guid, "  "@ + kind + " "@ + size + "  "@ + a.path);
    assert(line =~= (a.guid + "  "@ + kind + " "@ + size + "  "@) + a.path + none);
    lemma_says(line, a.guid + "  "@ + kind + " "@ + size + "  "@, a.path, none);
    if folders {
        crate::laws::lemma_filter_all(l.assets, p);
    }
}

/// A listing has the kinds of its package, one line each, with their numbers.
pub proof fn listings_show_every_kind(l: PackageListingView, tree: bool, folders: bool, i: int)
    requires
        0 <= i < l.kinds.len(),
    ensures
        listing_lines_of(l, tree, folders).len() >= 1 + l.kinds.len(),
        occurs(listing_lines_of(l, tree, folders)[i + 1], l.kinds[i].kind),
        occurs(listing_lines_of(l, tree, folders)[i + 1], signed_numeral(l.kinds[i].n as int)),
{
    let k = l.kinds[i];
    let line = listing_lines_of(l, tree, folders)[i + 1];
    let kind = left(k.kind, 10);
    let num = signed_numeral(k.n as int);
    let n = right(num, 6);
    let size = human_text(k.bytes as int);
    reveal(crate::render::kind_line_of);
    assert(line == crate::render::kind_line_of(k));
    assert(line == "   "@ + kind + " "@ + n + "  "@ + size);
    let rest = kind.skip(k.kind.len() as int);
    assert(kind =~= k.kind + rest);
    assert(line =~= "   "@ + k.kind + (rest + " "@ + n + "  "@ + size));
    lemma_says(line, "   "@, k.kind, rest + " "@ + n + "  "@ + size);
    let front = n.take(n.len() - num.len());
    assert(n =~= front + num);
    assert(line =~= ("   "@ + kind + " "@ + front) + num + ("  "@ + size));
    lemma_says(line, "   "@ + kind + " "@ + front, num, "  "@ + size);
}

proof fn lemma_dirs_finite(s: Seq<BranchView>)
    ensures
        dirs_in(s).finite(),
        files_in(s).dom().finite(),
    decreases s.len(),
{
    let all = s.map_values(|b: BranchView| b.parts[0]);
    vstd::seq_lib::seq_to_set_is_finite(all);
    assert forall|d: Seq<char>| dirs_in(s).contains(d) implies all.to_set().contains(d) by {
        let i = choose|i: int| 0 <= i < s.len() && (#[trigger] s[i]).parts.len() >= 2 && s[i].parts[0] == d;
        assert(all[i] == d);
    }
    vstd::set_lib::lemma_set_subset_finite(all.to_set(), dirs_in(s));
    if s.len() > 0 {
        lemma_dirs_finite(s.drop_last());
    }
}

proof fn lemma_files(s: Seq<BranchView>, i: int)
    requires
        0 <= i < s.len(),
        s[i].parts.len() == 1,
        s[i].size is Some,
    ensures
        files_in(s).contains_key(s[i].parts[0]),
    decreases s.len(),
{
    if i < s.len() - 1 {
        lemma_files(s.drop_last(), i);
    }
}

proof fn lemma_below(s: Seq<BranchView>, i: int) -> (k: int)
    requires
        0 <= i < s.len(),
        s[i].parts.len() >= 2,
    ensures
        0 <= k < below(s, s[i].parts[0]).len(),
        below(s, s[i].parts[0])[k].parts == s[i].parts.drop_first(),
        below(s, s[i].parts[0])[k].size == s[i].size,
    decreases s.len(),
{
    let d = s[i].parts[0];
    if i < s.len() - 1 {
        let k = lemma_below(s.drop_last(), i);
        assert(below(s, d)[k] == below(s.drop_last(), d)[k]);
        k
    } else {
        below(s, d).len() - 1
    }
}

proof fn lemma_file_line(files: Map<Seq<char>, Seq<char>>, names: Seq<Seq<char>>, indent: nat, i: int)
    requires
        0 <= i < names.len(),
    ensures
        file_lines_of(files, names, indent).len() == names.len(),
        starts(file_lines_of(files, names, indent)[i], pad_of(indent) + names[i] + "  ("@),
    decreases names.len(),
{
    lemma_file_count(files, names.drop_last(), indent);
    if i < names.len() - 1 {
        lemma_file_line(files, names.drop_last(), indent, i);
    } else {
        let line = file_lines_of(files, names, indent)[i];
        let x = pad_of(indent) + names[i] + "  ("@;
        assert(line.subrange(0, x.len() as int) =~= x);
    }
}

proof fn lemma_file_count(files: Map<Seq<char>, Seq<char>>, names: Seq<Seq<char>>, indent: nat)
    ensures
        file_lines_of(files, names, indent).len() == names.len(),
    decreases names.len(),
{
    if names.len() > 0 {
        lemma_file_count(files, names.drop_last(), indent);
    }
}

/// Whether some line begins with a text.
pub open spec fn begun(lines: Seq<Seq<char>>, x: Seq<char>) -> bool {
    exists|k: int| 0 <= k < lines.len() && starts(#[trigger] lines[k], x)
}

proof fn lemma_begun(a: Seq<Seq<char>>, b: Seq<Seq<char>>, x: Seq<char>)
    ensures
        begun(a, x) ==> begun(a + b, x),
        begun(b, x) ==> begun(a + b, x),
{
    if begun(a, x) {
        let k = choose|k: int| 0 <= k < a.len() && starts(#[trigger] a[k], x);
        assert((a + b)[k] == a[k]);
    }
    if begun(b, x) {
        let k = choose|k: int| 0 <= k < b.len() && starts(#[trigger] b[k], x);
        assert((a + b)[a.len() + k] == b[k]);
    }
}

proof fn lemma_dir_lines(s: Seq<BranchView>, dirs: Seq<Seq<char>>, indent: nat, levels: nat, d: Seq<char>, x: Seq<char>)
    requires
        levels > 0,
        dirs.contains(d),
    ensures
        begun(dir_lines_of(s, dirs, indent, levels), pad_of(indent) + d + "/"@),
        begun(tree_lines_of(below(s, d), indent + 1, (levels - 1) as nat), x) ==> begun(
            dir_lines_of(s, dirs, indent, levels),
            x,
        ),
    decreases dirs.len(),
{
    let e = dirs.last();
    let front = dir_lines_of(s, dirs.drop_last(), indent, levels);
    let head = pad_of(indent) + e + "/"@;
    let own = pad_of(indent) + d + "/"@;
    let top = front.push(head);
    let tree = tree_lines_of(below(s, e), indent + 1, (levels - 1) as nat);
    assert(dir_lines_of(s, dirs, indent, levels) == top + tree);
    lemma_begun(top, tree, own);
    lemma_begun(top, tree, x);
    if e == d {
        assert(head.subrange(0, head.len() as int) =~= head);
        assert(starts(top[front.len() as int], own));
    } else {
        let i = choose|i: int| 0 <= i < dirs.len() && dirs[i] == d;
        assert(dirs.drop_last()[i] == d);
        lemma_dir_lines(s, dirs.drop_last(), indent, levels, d, x);
        assert(top =~= front + seq![head]);
        lemma_begun(front, seq![head], own);
        lemma_begun(front, seq![head], x);
    }
}

proof fn lemma_tree(s: Seq<BranchView>, indent: nat, levels: nat, i: int, j: int)
    requires
        0 <= i < s.len(),
        0 <= j < s[i].parts.len() <= levels,
    ensures
        j < s[i].parts.len() - 1 ==> begun(
            tree_lines_of(s, indent, levels),
            pad_of((indent + j) as nat) + s[i].parts[j] + "/"@,
        ),
        j == s[i].parts.len() - 1 && s[i].size is Some ==> begun(
            tree_lines_of(s, indent, levels),
            pad_of((indent + j) as nat) + s[i].parts[j] + "  ("@,
        ),
    decreases levels,
{
    let dirs = ascending_of(dirs_in(s));
    let names = ascending_of(files_in(s).dom());
    let top = dir_lines_of(s, dirs, indent, levels);
    let files = file_lines_of(files_in(s), names, indent);
    let b = s[i];
    let x = if j < b.parts.len() - 1 {
        pad_of((indent + j) as nat) + b.parts[j] + "/"@
    } else {
        pad_of((indent + j) as nat) + b.parts[j] + "  ("@
    };
    assert(tree_lines_of(s, indent, levels) == top + files);
    lemma_begun(top, files, x);
    if b.parts.len() == 1 {
        if b.size is Some {
            lemma_tree_file(s, indent, i);
        }
    } else {
        lemma_tree_dir(s, indent, levels, i, x);
        if j > 0 {
            let k = lemma_below(s, i);
            lemma_tree(below(s, b.parts[0]), indent + 1, (levels - 1) as nat, k, j - 1);
            assert(b.parts.drop_first()[j - 1] == b.parts[j]);
        }
    }
}

proof fn lemma_tree_file(s: Seq<BranchView>, indent: nat, i: int)
    requires
        0 <= i < s.len(),
        s[i].parts.len() == 1,
        s[i].size is Some,
    ensures
        begun(
            file_lines_of(files_in(s), ascending_of(files_in(s).dom()), indent),
            pad_of(indent) + s[i].parts[0] + "  ("@,
        ),
{
    let names = ascending_of(files_in(s).dom());
    lemma_dirs_finite(s);
    finite_sets_are_listed(files_in(s).dom());
    lemma_files(s, i);
    assert(names.to_set().contains(s[i].parts[0]));
    let k = choose|k: int| 0 <= k < names.len() && names[k] == s[i].parts[0];
    lemma_file_line(files_in(s), names, indent, k);
}

proof fn lemma_tree_dir(s: Seq<BranchView>, indent: nat, levels: nat, i: int, x: Seq<char>)
    requires
        0 <= i < s.len(),
        2 <= s[i].parts.len(),
        levels > 0,
    ensures
        begun(
            dir_lines_of(s, ascending_of(dirs_in(s)), indent, levels),
            pad_of(indent) + s[i].parts[0] + "/"@,
        ),
        begun(tree_lines_of(below(s, s[i].parts[0]), indent + 1, (levels - 1) as nat), x) ==> begun(
            dir_lines_of(s, ascending_of(dirs_in(s)), indent, levels),
            x,
        ),
{
    let dirs = ascending_of(dirs_in(s));
    lemma_dirs_finite(s);
    finite_sets_are_listed(dirs_in(s));
    assert(dirs_in(s).contains(s[i].parts[0]));
    assert(dirs.to_set().contains(s[i].parts[0]));
    lemma_dir_lines(s, dirs, indent, levels, s[i].parts[0], x);
}

proof fn lemma_deepest(s: Seq<BranchView>, i: int)
    requires
        0 <= i < s.len(),
    ensures
        s[i].parts.len() <= crate::render::deepest(s),
    decreases s.len(),
{
    if i < s.len() - 1 {
        lemma_deepest(s.drop_last(), i);
    }
}

/// A listing as a tree has a line for every part of every path: two spaces further in with each part, a
/// directory with a slash behind its name, and a file with its size.
pub proof fn trees_show_every_part(l: PackageListingView, folders: bool, i: int, j: int)
    requires
        0 <= i < l.assets.len(),
        0 <= j < crate::text::pieces(l.assets[i].path, crate::text::Sep::Is('/')).len(),
    ensures
        ({
            let parts = crate::text::pieces(l.assets[i].path, crate::text::Sep::Is('/'));
            let lines = listing_lines_of(l, true, folders).skip(1 + l.kinds.len() as int);
            let pad = Seq::new((2 * j) as nat, |n: int| ' ');
            &&& j < parts.len() - 1 ==> begun(lines, pad + parts[j] + "/"@)
            &&& j == parts.len() - 1 && !l.assets[i].is_folder ==> begun(lines, pad + parts[j] + "  ("@)
        }),
{
    let s = branches_of(l.assets);
    let levels = crate::render::deepest(s);
    assert(s[i] == branch_of(l.assets[i]));
    lemma_deepest(s, i);
    lemma_tree(s, 0, levels, i, j);
    let lines = listing_lines_of(l, true, folders).skip(1 + l.kinds.len() as int);
    assert(lines =~= tree_lines_of(s, 0, levels));
    assert(pad_of(j as nat) =~= Seq::new((2 * j) as nat, |n: int| ' '));
}

// ----- closures ------------------------------------------------------------------------------

proof fn lemma_both_said(
    lines: Seq<Seq<char>>,
    a: Seq<Seq<char>>,
    b: Seq<Seq<char>>,
    c: Seq<Seq<char>>,
    x: Seq<char>,
    y: Seq<char>,
)
    requires
        lines == a + b + c,
        both_said(b, x, y),
    ensures
        both_said(lines, x, y),
{
    let k = choose|k: int| 0 <= k < b.len() && occurs(#[trigger] b[k], x) && occurs(b[k], y);
    assert(lines[a.len() + k] == b[k]);
}

proof fn lemma_closure_line(n: ClosureAssetView)
    ensures
        occurs(closure_line_of(n), n.asset.guid),
        occurs(closure_line_of(n), n.asset.path),
{
    reveal(closure_line_of);
    let tag = left(crate::render::depth_tag_of(n.depth), 4);
    let kind = left(n.asset.kind, 9);
    let size = right(human_text(n.asset.size as int), 8);
    let line = closure_line_of(n);
    let none = Seq::<char>::empty();
    assert(line == "  "@ + n.asset.guid + "  "@ + tag + " "@ + kind + " "@ + size + "  "@ + n.asset.path);
    let rest = "  "@ + tag + " "@ + kind + " "@ + size + "  "@ + n.asset.path;
    assert(line =~= "  "@ + n.asset.guid + rest);
    lemma_says(line, "  "@, n.asset.guid, rest);
    let front = "  "@ + n.asset.guid + "  "@ + tag + " "@ + kind + " "@ + size + "  "@;
    assert(line =~= front + n.asset.path + none);
    lemma_says(line, front, n.asset.path, none);
}

proof fn lemma_package_part(cl: ClosureOutView, n: ClosureAssetView)
    requires
        cl.assets.contains(n),
    ensures
        both_said(package_part_of(cl, n.asset.package_id), n.asset.guid, n.asset.path),
{
    let pid = n.asset.package_id;
    let nodes = nodes_in(cl.assets, pid);
    lemma_filter_has(cl.assets, |m: ClosureAssetView| m.asset.package_id == pid, n);
    let k = choose|k: int| 0 <= k < nodes.len() && nodes[k] == n;
    let part = package_part_of(cl, pid);
    lemma_closure_line(n);
    assert(closure_lines_of(nodes)[k] == closure_line_of(n));
    assert(part[2 + k] == closure_lines_of(nodes)[k]);
}

proof fn lemma_package_parts(cl: ClosureOutView, ids: Seq<i64>, n: ClosureAssetView)
    requires
        cl.assets.contains(n),
        ids.contains(n.asset.package_id),
    ensures
        both_said(package_parts_of(cl, ids), n.asset.guid, n.asset.path),
    decreases ids.len(),
{
    let front = package_parts_of(cl, ids.drop_last());
    let back = package_part_of(cl, ids.last());
    let none = Seq::<Seq<char>>::empty();
    let all = package_parts_of(cl, ids);
    if ids.last() == n.asset.package_id {
        lemma_package_part(cl, n);
        assert(all =~= front + back + none);
        lemma_both_said(all, front, back, none, n.asset.guid, n.asset.path);
    } else {
        let i = choose|i: int| 0 <= i < ids.len() && ids[i] == n.asset.package_id;
        assert(ids.drop_last()[i] == n.asset.package_id);
        lemma_package_parts(cl, ids.drop_last(), n);
        assert(all =~= none + front + back);
        lemma_both_said(all, none, front, back, n.asset.guid, n.asset.path);
    }
}

/// A closure is printed in full: a line for every asset with its guid and its path, under its package,
/// behind a line that says how many assets, unresolved guids and skipped scripts there are.
pub proof fn closures_show_every_asset(cl: ClosureOutView, tree: bool, depth: Option<u32>, i: int)
    requires
        0 <= i < cl.assets.len(),
    ensures
        both_said(deps_lines_of(cl, tree, depth), cl.assets[i].asset.guid, cl.assets[i].asset.path),
{
    let n = cl.assets[i];
    let keys = cl.assets.map_values(|m: ClosureAssetView| m.asset.package_id);
    let ids = node_packages(cl.assets);
    distinct_numbers_are_all_there(keys);
    assert(keys[i] == n.asset.package_id);
    assert(keys.to_set().contains(n.asset.package_id));
    assert(ids.to_set().contains(n.asset.package_id));
    assert(cl.assets.contains(n));
    lemma_package_parts(cl, ids, n);
    let levels: nat = match depth {
        Some(d) => d as nat,
        None => 6,
    };
    let top = if tree {
        dep_tree_lines_of(cl, levels)
    } else {
        Seq::empty()
    };
    let head = seq![crate::render::deps_head_of(cl)] + top;
    let parts = package_parts_of(cl, ids);
    let all = deps_lines_of(cl, tree, depth);
    let back = all.skip((head.len() + parts.len()) as int);
    assert(all =~= head + parts + back);
    lemma_both_said(all, head, parts, back, n.asset.guid, n.asset.path);
}

/// The first line of a closure says how many assets, unresolved guids and skipped scripts there are.
pub proof fn closures_say_how_much_there_is(cl: ClosureOutView, tree: bool, depth: Option<u32>)
    ensures
        deps_lines_of(cl, tree, depth).len() > 0,
        starts(deps_lines_of(cl, tree, depth)[0], numeral(cl.assets.len()) + " asset(s)"@),
        occurs(deps_lines_of(cl, tree, depth)[0], numeral(cl.unresolved.len()) + " unresolved"@),
        occurs(deps_lines_of(cl, tree, depth)[0], numeral(cl.skipped_scripts.len()) + " scripts skipped"@),
{
    let line = deps_lines_of(cl, tree, depth)[0];
    assert(line == crate::render::deps_head_of(cl));
    reveal_strlit(" asset(s) in closure, ");
    reveal_strlit(" asset(s)");
    reveal_strlit(" unresolved, ");
    reveal_strlit(" unresolved");
    let a = numeral(cl.assets.len());
    let size = human_text(cl.total_bytes as int);
    let u = numeral(cl.unresolved.len());
    let n = numeral(cl.skipped_scripts.len());
    let x = a + " asset(s)"@;
    let none = Seq::<char>::empty();
    assert(" asset(s) in closure, "@.take(9) =~= " asset(s)"@);
    assert(line.subrange(0, x.len() as int) =~= x);
    let pre = a + " asset(s) in closure, "@ + size + " total, "@;
    assert(" unresolved, "@ =~= " unresolved"@ + ", "@) by {
        reveal_strlit(", ");
    }
    assert(line =~= pre + (u + " unresolved"@) + (", "@ + n + " scripts skipped"@));
    lemma_says(line, pre, u + " unresolved"@, ", "@ + n + " scripts skipped"@);
    assert(line =~= (pre + u + " unresolved, "@) + (n + " scripts skipped"@) + none);
    lemma_says(line, pre + u + " unresolved, "@, n + " scripts skipped"@, none);
}

/// The scripts that a closure leaves out are printed, each with its guid and its path.
pub proof fn closures_show_skipped_scripts(cl: ClosureOutView, tree: bool, depth: Option<u32>, i: int)
    requires
        0 <= i < cl.skipped_scripts.len(),
    ensures
        both_said(deps_lines_of(cl, tree, depth), cl.skipped_scripts[i].guid, cl.skipped_scripts[i].path),
{
    let a = cl.skipped_scripts[i];
    let levels: nat = match depth {
        Some(d) => d as nat,
        None => 6,
    };
    let top = if tree {
        dep_tree_lines_of(cl, levels)
    } else {
        Seq::empty()
    };
    let head = seq![crate::render::deps_head_of(cl)] + top + package_parts_of(cl, node_packages(cl.assets)) + seq![
        ""@,
        "scripts skipped (--no-scripts):"@,
    ];
    let lines = crate::render::skipped_lines_of(cl.skipped_scripts);
    let all = deps_lines_of(cl, tree, depth);
    let back = all.skip((head.len() + lines.len()) as int);
    assert(all =~= head + lines + back);
    let line = lines[i];
    reveal(crate::render::skipped_line_of);
    assert(line == crate::render::skipped_line_of(a));
    let none = Seq::<char>::empty();
    assert(line == "  "@ + a.guid + "  ["@ + a.package + "] "@ + a.path);
    assert(line =~= "  "@ + a.guid + ("  ["@ + a.package + "] "@ + a.path));
    lemma_says(line, "  "@, a.guid, "  ["@ + a.package + "] "@ + a.path);
    assert(line =~= ("  "@ + a.guid + "  ["@ + a.package + "] "@) + a.path + none);
    lemma_says(line, "  "@ + a.guid + "  ["@ + a.package + "] "@, a.path, none);
    lemma_both_said(all, head, lines, back, a.guid, a.path);
}

/// The guids that no package holds are printed, each with its label where it has one.
pub proof fn closures_show_what_is_unresolved(cl: ClosureOutView, tree: bool, depth: Option<u32>, i: int)
    requires
        0 <= i < cl.unresolved.len(),
    ensures
        both_said(deps_lines_of(cl, tree, depth), cl.unresolved[i].guid, text_or(cl.unresolved[i].label, "?"@)),
{
    let u = cl.unresolved[i];
    let lines = crate::render::missing_lines_of(cl.assets, cl.unresolved);
    let all = deps_lines_of(cl, tree, depth);
    let head = all.take(all.len() - lines.len());
    let none = Seq::<Seq<char>>::empty();
    assert(all =~= head + lines + none);
    let line = lines[i];
    let label = text_or(u.label, "?"@);
    assert(line == crate::render::missing_line_of(cl.assets, u));
    let more = if u.referrers.len() > 1 {
        " +"@ + numeral((u.referrers.len() - 1) as nat)
    } else {
        ""@
    };
    let by = "   (referenced by "@ + crate::render::first_referrer_of(cl.assets, u) + more + ")"@;
    assert(line =~= "  "@ + u.guid + ("  "@ + label + by));
    lemma_says(line, "  "@, u.guid, "  "@ + label + by);
    assert(line =~= ("  "@ + u.guid + "  "@) + label + by);
    lemma_says(line, "  "@ + u.guid + "  "@, label, by);
    lemma_both_said(all, head, lines, none, u.guid, label);
}

// ----- trees of dependencies -----------------------------------------------------------------

proof fn lemma_said_more(a: Seq<Seq<char>>, b: Seq<Seq<char>>, x: Seq<char>)
    ensures
        said_in(a, x) ==> said_in(a + b, x),
        said_in(b, x) ==> said_in(a + b, x),
{
    if said_in(a, x) {
        let k = choose|k: int| 0 <= k < a.len() && occurs(#[trigger] a[k], x);
        assert((a + b)[k] == a[k]);
    }
    if said_in(b, x) {
        let k = choose|k: int| 0 <= k < b.len() && occurs(#[trigger] b[k], x);
        assert((a + b)[a.len() + k] == b[k]);
    }
}

/// What the tree says of a guid: the path of its asset, the path of a script that is left out, or the guid
/// itself where no package holds it.
pub open spec fn tree_name(t: Tree, guid: Seq<char>) -> Seq<char> {
    if t.nodes.contains_key(guid) {
        t.nodes[guid].asset.path
    } else {
        guid
    }
}

proof fn lemma_node_said(t: Tree, guid: Seq<char>, indent: nat, depth: nat, shown: Set<Seq<char>>)
    ensures
        said_in(node_lines(t, guid, indent, depth, shown).0, tree_name(t, guid)),
{
    let lines = node_lines(t, guid, indent, depth, shown).0;
    let line = lines[0];
    if !t.nodes.contains_key(guid) {
        let end = "  ("@ + crate::render::label_or(t, guid) + ")"@;
        assert(line =~= (pad_of(indent) + "?? "@) + guid + end);
        lemma_says(line, pad_of(indent) + "?? "@, guid, end);
    } else {
        let a = t.nodes[guid].asset;
        let again = if shown.contains(guid) {
            " (see above)"@
        } else {
            ""@
        };
        let front = pad_of(indent) + left(a.kind, 9) + " "@;
        assert(line =~= front + a.path + again);
        lemma_says(line, front, a.path, again);
    }
}

proof fn lemma_children_said(
    t: Tree,
    children: Seq<Seq<char>>,
    n: nat,
    indent: nat,
    depth: nat,
    shown: Set<Seq<char>>,
    j: int,
)
    requires
        indent < depth,
        0 <= j < n <= children.len(),
    ensures
        said_in(
            child_lines(t, children, n, indent, depth, shown).0,
            if t.skipped.contains_key(children[j]) {
                t.skipped[children[j]].path
            } else {
                tree_name(t, children[j])
            },
        ),
    decreases n,
{
    let x = if t.skipped.contains_key(children[j]) {
        t.skipped[children[j]].path
    } else {
        tree_name(t, children[j])
    };
    let (front, seen) = child_lines(t, children, (n - 1) as nat, indent, depth, shown);
    let c = children[n - 1];
    let all = child_lines(t, children, n, indent, depth, shown).0;
    if j < n - 1 {
        lemma_children_said(t, children, (n - 1) as nat, indent, depth, shown, j);
    }
    if t.skipped.contains_key(c) {
        let line = pad_of(indent + 1) + "script    "@ + t.skipped[c].path + " (skipped)"@;
        assert(all =~= front + seq![line]);
        lemma_said_more(front, seq![line], x);
        lemma_says(line, pad_of(indent + 1) + "script    "@, t.skipped[c].path, " (skipped)"@);
        if j == n - 1 {
            assert(occurs(seq![line][0], x));
        }
    } else {
        let lines = node_lines(t, c, indent + 1, depth, seen).0;
        lemma_node_said(t, c, indent + 1, depth, seen);
        lemma_said_more(front, lines, x);
    }
}

/// The tree of dependencies shows every asset that one of its assets refers to, right below it, unless it
/// is as deep as the tree goes or the same was shown before.
pub proof fn trees_show_every_reference(t: Tree, guid: Seq<char>, indent: nat, depth: nat, shown: Set<Seq<char>>, j: int)
    requires
        indent < depth,
        t.nodes.contains_key(guid),
        !shown.contains(guid),
        t.edges.contains_key(guid),
        0 <= j < t.edges[guid].len(),
    ensures
        said_in(
            node_lines(t, guid, indent, depth, shown).0.skip(1),
            if t.skipped.contains_key(t.edges[guid][j]) {
                t.skipped[t.edges[guid][j]].path
            } else if t.nodes.contains_key(t.edges[guid][j]) {
                t.nodes[t.edges[guid][j]].asset.path
            } else {
                t.edges[guid][j]
            },
        ),
{
    let children = t.edges[guid];
    lemma_children_said(t, children, children.len(), indent, depth, shown.insert(guid), j);
    let below = child_lines(t, children, children.len(), indent, depth, shown.insert(guid)).0;
    assert(node_lines(t, guid, indent, depth, shown).0.skip(1) =~= below);
}

proof fn lemma_roots_said(t: Tree, roots: Seq<Seq<char>>, n: nat, depth: nat, j: int)
    requires
        0 <= j < n <= roots.len(),
    ensures
        said_in(root_lines(t, roots, n, depth).0, tree_name(t, roots[j])),
    decreases n,
{
    let x = tree_name(t, roots[j]);
    let (front, seen) = root_lines(t, roots, (n - 1) as nat, depth);
    let lines = node_lines(t, roots[n - 1], 0, depth, seen).0;
    lemma_said_more(front, lines, x);
    if j < n - 1 {
        lemma_roots_said(t, roots, (n - 1) as nat, depth, j);
    } else {
        lemma_node_said(t, roots[j], 0, depth, seen);
    }
}

/// The tree of dependencies shows every root.
pub proof fn trees_show_every_root(cl: ClosureOutView, depth: nat, j: int)
    requires
        0 <= j < cl.roots.len(),
    ensures
        said_in(dep_tree_lines_of(cl, depth), tree_name(tree_of(cl), cl.roots[j])),
{
    let t = tree_of(cl);
    let x = tree_name(t, cl.roots[j]);
    let lines = root_lines(t, cl.roots, cl.roots.len(), depth).0;
    lemma_roots_said(t, cl.roots, cl.roots.len(), depth, j);
    assert(dep_tree_lines_of(cl, depth) =~= lines + seq![""@]);
    lemma_said_more(lines, seq![""@], x);
}

// ----- exports -------------------------------------------------------------------------------

/// An export says how many files it wrote and where to, and how many it left as they are; every conflict
/// with both paths; every warning; and every file that it wrote, where it is asked to.
pub proof fn exports_say_what_they_did(o: ExportOutView, dry_run: bool, quiet: bool, verbose: bool, seconds: Seq<char>)
    ensures
        ({
            let lines = export_lines_of(o, dry_run, quiet, verbose, seconds);
            let r = o.result;
            &&& lines.len() > 0
            &&& occurs(lines[0], numeral(r.written.len()) + " file(s)"@)
            &&& occurs(lines[0], r.output)
            &&& r.skipped_existing.len() > 0 ==> said_in(lines, numeral(r.skipped_existing.len()))
            &&& r.missing_in_package.len() > 0 ==> said_in(lines, numeral(r.missing_in_package.len()))
            &&& forall|i: int|
                0 <= i < r.conflicts.len() ==> both_said(
                    lines,
                    (#[trigger] r.conflicts[i]).path,
                    r.conflicts[i].existing_path,
                )
            &&& forall|i: int| 0 <= i < o.plan.warnings.len() ==> said_in(lines, #[trigger] o.plan.warnings[i])
            &&& !quiet && (verbose || r.written.len() <= 40) ==> forall|i: int|
                0 <= i < r.written.len() ==> said_in(lines, (#[trigger] r.written[i]).path)
        }),
{
    let lines = export_lines_of(o, dry_run, quiet, verbose, seconds);
    let r = o.result;
    lemma_export_head(o, dry_run, seconds);
    let head = seq![export_head_of(o, dry_run, seconds)];
    let written = if quiet {
        Seq::empty()
    } else {
        crate::render::written_part_of(r.written, verbose)
    };
    let trouble = crate::render::trouble_part_of(o);
    let notes = crate::render::note_lines_of(o.plan.warnings);
    let open = if quiet {
        Seq::empty()
    } else {
        crate::render::open_part_of(o.plan.unresolved)
    };
    assert(lines == head + written + trouble + notes + open);
    assert(lines[0] == head[0]);
    let after = notes + open;
    assert(lines =~= (head + written) + trouble + after);
    if r.skipped_existing.len() > 0 {
        let x = numeral(r.skipped_existing.len());
        lemma_trouble_numbers(o);
        lemma_both_said(lines, head + written, trouble, after, x, x);
    }
    if r.missing_in_package.len() > 0 {
        let x = numeral(r.missing_in_package.len());
        lemma_trouble_numbers(o);
        lemma_both_said(lines, head + written, trouble, after, x, x);
    }
    assert forall|i: int| 0 <= i < r.conflicts.len() implies both_said(
        lines,
        (#[trigger] r.conflicts[i]).path,
        r.conflicts[i].existing_path,
    ) by {
        lemma_trouble_conflict(o, i);
        lemma_both_said(lines, head + written, trouble, after, r.conflicts[i].path, r.conflicts[i].existing_path);
    }
    assert forall|i: int| 0 <= i < o.plan.warnings.len() implies said_in(lines, #[trigger] o.plan.warnings[i]) by {
        let w = o.plan.warnings[i];
        let none = Seq::<char>::empty();
        assert(notes[i] =~= "note: "@ + w + none);
        lemma_says(notes[i], "note: "@, w, none);
        lemma_said_more(head + written + trouble, notes, w);
        lemma_said_more(head + written + trouble + notes, open, w);
    }
    if !quiet && (verbose || r.written.len() <= 40) {
        assert forall|i: int| 0 <= i < r.written.len() implies said_in(lines, (#[trigger] r.written[i]).path) by {
            let x = r.written[i].path;
            let none = Seq::<char>::empty();
            reveal(crate::render::file_line_of);
            assert(written[i] == crate::render::file_line_of(r.written[i]));
            assert(written[i] =~= "  + "@ + x + none);
            lemma_says(written[i], "  + "@, x, none);
            lemma_said_more(head, written, x);
            lemma_said_more(head + written, trouble, x);
            lemma_said_more(head + written + trouble, notes, x);
            lemma_said_more(head + written + trouble + notes, open, x);
        }
    }
}

proof fn lemma_export_head(o: ExportOutView, dry_run: bool, seconds: Seq<char>)
    ensures
        occurs(export_head_of(o, dry_run, seconds), numeral(o.result.written.len()) + " file(s)"@),
        occurs(export_head_of(o, dry_run, seconds), o.result.output),
{
    let line = export_head_of(o, dry_run, seconds);
    let verb = if dry_run {
        "would write"@
    } else {
        "wrote"@
    };
    let n = numeral(o.result.written.len());
    let size = human_text(o.result.bytes_written as int);
    reveal_strlit(" file(s) (");
    reveal_strlit(" file(s)");
    reveal_strlit(" (");
    assert(" file(s) ("@ =~= " file(s)"@ + " ("@);
    let end = " ("@ + size + ") to "@ + o.result.output + " in "@ + seconds + "s"@;
    assert(line =~= (verb + " "@) + (n + " file(s)"@) + end);
    lemma_says(line, verb + " "@, n + " file(s)"@, end);
    let front = verb + " "@ + n + " file(s) ("@ + size + ") to "@;
    assert(line =~= front + o.result.output + (" in "@ + seconds + "s"@));
    lemma_says(line, front, o.result.output, " in "@ + seconds + "s"@);
}

proof fn lemma_trouble_numbers(o: ExportOutView)
    ensures
        o.result.skipped_existing.len() > 0 ==> both_said(
            crate::render::trouble_part_of(o),
            numeral(o.result.skipped_existing.len()),
            numeral(o.result.skipped_existing.len()),
        ),
        o.result.missing_in_package.len() > 0 ==> both_said(
            crate::render::trouble_part_of(o),
            numeral(o.result.missing_in_package.len()),
            numeral(o.result.missing_in_package.len()),
        ),
{
    let lines = crate::render::trouble_part_of(o);
    let r = o.result;
    if r.skipped_existing.len() > 0 {
        let x = numeral(r.skipped_existing.len());
        let end = " existing file(s) (use --force to overwrite)"@;
        assert(lines[0] == "skipped "@ + x + end);
        lemma_says(lines[0], "skipped "@, x, end);
    }
    if r.missing_in_package.len() > 0 {
        let x = numeral(r.missing_in_package.len());
        let end = " planned asset(s) were not found inside the package (index stale? run `uai index`)"@;
        let k = lines.len() - 1;
        assert(lines[k] == "WARNING: "@ + x + end);
        lemma_says(lines[k], "WARNING: "@, x, end);
    }
}

proof fn lemma_trouble_conflict(o: ExportOutView, i: int)
    requires
        0 <= i < o.result.conflicts.len(),
    ensures
        both_said(
            crate::render::trouble_part_of(o),
            o.result.conflicts[i].path,
            o.result.conflicts[i].existing_path,
        ),
{
    let lines = crate::render::trouble_part_of(o);
    let c = o.result.conflicts[i];
    let at: int = if o.result.skipped_existing.len() > 0 {
        2
    } else {
        1
    };
    let line = lines[at + i];
    reveal(crate::render::conflict_line_of);
    assert(line == conflict_lines_of(o.result.conflicts)[i]);
    assert(line == crate::render::conflict_line_of(c));
    let none = Seq::<char>::empty();
    assert(line == "  "@ + c.guid + "  "@ + c.path + "  ->  already at "@ + c.existing_path);
    assert(line =~= ("  "@ + c.guid + "  "@) + c.path + ("  ->  already at "@ + c.existing_path));
    lemma_says(line, "  "@ + c.guid + "  "@, c.path, "  ->  already at "@ + c.existing_path);
    assert(line =~= ("  "@ + c.guid + "  "@ + c.path + "  ->  already at "@) + c.existing_path + none);
    lemma_says(line, "  "@ + c.guid + "  "@ + c.path + "  ->  already at "@, c.existing_path, none);
}

// ----- details -------------------------------------------------------------------------------

/// The details of an asset say its guid, its path, its kind and its package, how many assets it refers to
/// and how many refer to it; the first references, 50 at most, and the first users, 20 at most.
pub proof fn details_say_what_is_known(info: AssetInfoView, i: int)
    ensures
        ({
            let lines = info_lines_of(info);
            &&& lines.len() >= 9
            &&& ends(lines[0], info.asset.guid)
            &&& ends(lines[1], info.asset.path)
            &&& ends(lines[2], info.asset.kind)
            &&& ends(lines[6], info.asset.package)
            &&& said_in(lines, numeral(info.refs.len()))
            &&& said_in(lines, numeral(info.referrers.len()))
            &&& 0 <= i < info.refs.len() && i < 50 ==> said_in(lines, info.refs[i].guid)
            &&& 0 <= i < info.referrers.len() && i < 20 ==> both_said(
                lines,
                info.referrers[i].guid,
                info.referrers[i].path,
            )
        }),
{
    let lines = info_lines_of(info);
    let labels = if info.asset.labels.len() > 0 {
        seq![crate::render::detail_of("labels"@, crate::text::glue(info.asset.labels, ", "@))]
    } else {
        Seq::empty()
    };
    let namesakes = if info.same_guid_in.len() > 0 {
        seq![
            crate::render::detail_of(
                "also in"@,
                crate::text::glue(crate::render::package_names_of(info.same_guid_in), ", "@),
            ),
        ]
    } else {
        Seq::empty()
    };
    let more = if info.referrers.len() > 20 {
        " (showing 20)"@
    } else {
        ""@
    };
    let top = asset_details_of(info.asset) + labels + namesakes;
    let x = numeral(info.refs.len());
    let y = numeral(info.referrers.len());
    let direct = crate::render::detail_of("direct deps"@, x);
    let used = crate::render::detail_of("used by"@, y + more);
    let refs = refs_shown_of(info.refs);
    let users = user_lines_of(crate::seqs::limited(info.referrers, Some(20)));
    let none = Seq::<char>::empty();
    assert(lines == top.push(direct) + refs.push(used) + users);
    assert(lines[top.len() as int] == direct);
    assert(direct =~= (left("direct deps"@, 12) + " "@) + x + none);
    lemma_says(direct, left("direct deps"@, 12) + " "@, x, none);
    assert(lines[(top.len() + 1 + refs.len()) as int] == used);
    assert(used =~= (left("used by"@, 12) + " "@) + y + more);
    lemma_says(used, left("used by"@, 12) + " "@, y, more);
    lemma_detail("guid"@, info.asset.guid);
    lemma_detail("path"@, info.asset.path);
    lemma_detail("kind"@, info.asset.kind);
    lemma_detail("package"@, info.asset.package);
    assert(lines[0] == asset_details_of(info.asset)[0]);
    assert(lines[1] == asset_details_of(info.asset)[1]);
    assert(lines[2] == asset_details_of(info.asset)[2]);
    assert(lines[6] == asset_details_of(info.asset)[6]);
    if 0 <= i < info.refs.len() && i < 50 {
        let r = info.refs[i];
        lemma_ref_line(r);
        assert(refs[i] == crate::render::ref_line_of(r));
        assert(lines[top.len() + 1 + i] == refs[i]);
    }
    if 0 <= i < info.referrers.len() && i < 20 {
        let a = info.referrers[i];
        lemma_user_line(a);
        assert(users[i] == crate::render::user_line_of(a));
        assert(lines[top.len() + 1 + refs.len() + 1 + i] == users[i]);
    }
}

proof fn lemma_detail(name: Seq<char>, value: Seq<char>)
    ensures
        ends(crate::render::detail_of(name, value), value),
{
    let line = crate::render::detail_of(name, value);
    assert(line.subrange(line.len() - value.len(), line.len() as int) =~= value);
}

proof fn lemma_ref_line(r: RefInfoView)
    ensures
        occurs(crate::render::ref_line_of(r), r.guid),
{
    let line = crate::render::ref_line_of(r);
    let rest = line.skip(3 + r.guid.len() as int);
    reveal_strlit("   ");
    assert(line =~= "   "@ + r.guid + rest);
    lemma_says(line, "   "@, r.guid, rest);
}

proof fn lemma_user_line(a: AssetView)
    ensures
        occurs(crate::render::user_line_of(a), a.guid),
        occurs(crate::render::user_line_of(a), a.path),
{
    reveal(crate::render::user_line_of);
    let line = crate::render::user_line_of(a);
    let kind = left(a.kind, 9);
    let none = Seq::<char>::empty();
    assert(line == "   "@ + a.guid + "  "@ + kind + " ["@ + a.package + "] "@ + a.path);
    let rest = "  "@ + kind + " ["@ + a.package + "] "@ + a.path;
    assert(line =~= "   "@ + a.guid + rest);
    lemma_says(line, "   "@, a.guid, rest);
    let front = "   "@ + a.guid + "  "@ + kind + " ["@ + a.package + "] "@;
    assert(line =~= front + a.path + none);
    lemma_says(line, front, a.path, none);
}

} // verus!
