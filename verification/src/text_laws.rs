//! What cutting text into parts, the kinds of assets and the words of the full-text index promise.

use vstd::prelude::*;

use crate::config::tilde_expanded;
use crate::human::human_text;
use crate::kinds::{ext_and_kind, ext_of, kind_of_ext, name_of};
use crate::number::numeral;
use crate::text::{cuts, glue, is_space, listed, lower, pieces, trim_back, trim_both, trim_front, words, Sep};
use crate::tokens::{all_terms, camel_words, doubled, fts_text, spaced, token_parts, token_text, word_terms};

verus! {

// ----- cutting -------------------------------------------------------------------------------

proof fn lemma_trim_front(s: Seq<char>, k: Sep) -> (a: int)
    ensures
        0 <= a <= s.len(),
        trim_front(s, k) == s.subrange(a, s.len() as int),
        forall|i: int| 0 <= i < a ==> cuts(k, #[trigger] s[i]),
        a < s.len() ==> !cuts(k, s[a]),
    decreases s.len(),
{
    if s.len() > 0 && cuts(k, s.first()) {
        let t = s.drop_first();
        let b = lemma_trim_front(t, k);
        assert(t.subrange(b, t.len() as int) =~= s.subrange(b + 1, s.len() as int));
        assert forall|i: int| 0 <= i < b + 1 implies cuts(k, #[trigger] s[i]) by {
            if i > 0 {
                assert(t[i - 1] == s[i]);
            }
        }
        if b + 1 < s.len() {
            assert(t[b] == s[b + 1]);
        }
        b + 1
    } else {
        assert(s.subrange(0, s.len() as int) =~= s);
        0
    }
}

proof fn lemma_trim_back(s: Seq<char>, k: Sep) -> (b: int)
    ensures
        0 <= b <= s.len(),
        trim_back(s, k) == s.subrange(0, b),
        forall|i: int| b <= i < s.len() ==> cuts(k, #[trigger] s[i]),
        b > 0 ==> !cuts(k, s[b - 1]),
    decreases s.len(),
{
    if s.len() > 0 && cuts(k, s.last()) {
        let t = s.drop_last();
        let b = lemma_trim_back(t, k);
        assert(t.subrange(0, b) =~= s.subrange(0, b));
        assert forall|i: int| b <= i < s.len() implies cuts(k, #[trigger] s[i]) by {
            if i < t.len() {
                assert(t[i] == s[i]);
            }
        }
        if b > 0 {
            assert(t[b - 1] == s[b - 1]);
        }
        b
    } else {
        assert(s.subrange(0, s.len() as int) =~= s);
        s.len() as int
    }
}

/// Trimming takes away what is to be cut at both ends, all of it and nothing else.
pub proof fn trimming_takes_the_ends_away(s: Seq<char>, k: Sep)
    ensures
        exists|a: int, b: int|
            0 <= a <= b <= s.len() && trim_both(s, k) == #[trigger] s.subrange(a, b) && (forall|i: int|
                0 <= i < s.len() && !(a <= i < b) ==> cuts(k, #[trigger] s[i])),
        trim_both(s, k).len() > 0 ==> !cuts(k, trim_both(s, k)[0]) && !cuts(k, trim_both(s, k).last()),
{
    let t = trim_front(s, k);
    let a = lemma_trim_front(s, k);
    let n = lemma_trim_back(t, k);
    let b = a + n;
    assert(t.subrange(0, n) =~= s.subrange(a, b));
    assert forall|i: int| 0 <= i < s.len() && !(a <= i < b) implies cuts(k, #[trigger] s[i]) by {
        if i >= b {
            assert(t[i - a] == s[i]);
        }
    }
    if n > 0 {
        assert(t[0] == s[a]);
    }
}

/// Whether a part of a text stands between two places where it is cut, or its ends, uncut itself.
pub open spec fn is_between(s: Seq<char>, k: Sep, a: int, b: int) -> bool {
    &&& 0 <= a <= b <= s.len()
    &&& a > 0 ==> cuts(k, s[a - 1])
    &&& b < s.len() ==> cuts(k, s[b])
    &&& forall|i: int| a <= i < b ==> !cuts(k, #[trigger] s[i])
}

proof fn lemma_last_between(s: Seq<char>, k: Sep) -> (a: int)
    ensures
        is_between(s, k, a, s.len() as int),
        pieces(s, k).len() > 0,
        pieces(s, k).last() == s.subrange(a, s.len() as int),
    decreases s.len(),
{
    if s.len() == 0 {
        assert(s.subrange(0, 0) =~= Seq::<char>::empty());
        0
    } else {
        let t = s.drop_last();
        let a = lemma_last_between(t, k);
        if cuts(k, s.last()) {
            assert(s.subrange(s.len() as int, s.len() as int) =~= Seq::<char>::empty());
            s.len() as int
        } else {
            assert(t.subrange(a, t.len() as int).push(s.last()) =~= s.subrange(a, s.len() as int));
            assert forall|i: int| a <= i < s.len() implies !cuts(k, #[trigger] s[i]) by {
                if i < t.len() {
                    assert(t[i] == s[i]);
                }
            }
            if a > 0 {
                assert(t[a - 1] == s[a - 1]);
            }
            a
        }
    }
}

proof fn lemma_piece_is_between(s: Seq<char>, k: Sep, n: int) -> (r: (int, int))
    requires
        0 <= n < pieces(s, k).len(),
    ensures
        is_between(s, k, r.0, r.1),
        pieces(s, k)[n] == s.subrange(r.0, r.1),
        n < pieces(s, k).len() - 1 ==> r.1 < s.len(),
    decreases s.len(),
{
    let all = pieces(s, k);
    if n == all.len() - 1 {
        let a = lemma_last_between(s, k);
        (a, s.len() as int)
    } else {
        let t = s.drop_last();
        let front = pieces(t, k);
        let r = if n == front.len() - 1 {
            (lemma_last_between(t, k), t.len() as int)
        } else {
            lemma_piece_is_between(t, k, n)
        };
        let (a, b) = r;
        assert(all[n] == front[n]);
        assert(t.subrange(a, b) =~= s.subrange(a, b));
        assert forall|i: int| a <= i < b implies !cuts(k, #[trigger] s[i]) by {
            assert(t[i] == s[i]);
        }
        if a > 0 {
            assert(t[a - 1] == s[a - 1]);
        }
        if b < t.len() {
            assert(t[b] == s[b]);
        }
        r
    }
}

proof fn lemma_between_is_piece(s: Seq<char>, k: Sep, a: int, b: int) -> (n: int)
    requires
        is_between(s, k, a, b),
    ensures
        0 <= n < pieces(s, k).len(),
        pieces(s, k)[n] == s.subrange(a, b),
        b < s.len() ==> n < pieces(s, k).len() - 1,
    decreases s.len(),
{
    let all = pieces(s, k);
    if b == s.len() {
        let c = lemma_last_between(s, k);
        if a < c {
            assert(!cuts(k, s[c - 1]));
        }
        if c < a {
            assert(!cuts(k, s[a - 1]));
        }
        all.len() - 1
    } else {
        let t = s.drop_last();
        assert forall|i: int| a <= i < b implies !cuts(k, #[trigger] t[i]) by {
            assert(t[i] == s[i]);
        }
        if a > 0 {
            assert(t[a - 1] == s[a - 1]);
        }
        if b < t.len() {
            assert(t[b] == s[b]);
        }
        let n = lemma_between_is_piece(t, k, a, b);
        assert(t.subrange(a, b) =~= s.subrange(a, b));
        n
    }
}

/// Cutting a text gives every part of it that stands between two cuts or its ends, and nothing else.
pub proof fn pieces_stand_between_cuts(s: Seq<char>, k: Sep, p: Seq<char>)
    ensures
        pieces(s, k).contains(p) <==> exists|a: int, b: int| #[trigger] is_between(s, k, a, b) && s.subrange(a, b) == p,
{
    let all = pieces(s, k);
    if all.contains(p) {
        let n = choose|n: int| 0 <= n < all.len() && all[n] == p;
        let (a, b) = lemma_piece_is_between(s, k, n);
        assert(is_between(s, k, a, b));
    }
    if exists|a: int, b: int| #[trigger] is_between(s, k, a, b) && s.subrange(a, b) == p {
        let (a, b) = choose|a: int, b: int| #[trigger] is_between(s, k, a, b) && s.subrange(a, b) == p;
        let n = lemma_between_is_piece(s, k, a, b);
        assert(all[n] == p);
    }
}

/// The words of a text are its parts without white space, as long as they can be, and nothing else.
pub proof fn words_stand_between_spaces(s: Seq<char>, w: Seq<char>)
    ensures
        words(s).contains(w) <==> w.len() > 0 && exists|a: int, b: int| #[trigger]
            is_between(s, Sep::Space, a, b) && s.subrange(a, b) == w,
        words(s).contains(w) ==> forall|i: int| 0 <= i < w.len() ==> !is_space(#[trigger] w[i]),
{
    pieces_stand_between_cuts(s, Sep::Space, w);
    crate::seqs::lemma_filter_has(pieces(s, Sep::Space), |p: Seq<char>| p.len() > 0, w);
    if words(s).contains(w) {
        let (a, b) = choose|a: int, b: int| #[trigger] is_between(s, Sep::Space, a, b) && s.subrange(a, b) == w;
        assert forall|i: int| 0 <= i < w.len() implies !is_space(#[trigger] w[i]) by {
            assert(w[i] == s[a + i]);
        }
    }
}

/// Lower case leaves no upper-case letter, and what is no such letter as it is; what differs only in case
/// is the same in lower case.
pub proof fn lower_case_is_all_lower(s: Seq<char>, i: int)
    requires
        0 <= i < s.len(),
    ensures
        lower(s).len() == s.len(),
        !('A' <= lower(s)[i] && lower(s)[i] <= 'Z'),
        !('A' <= s[i] && s[i] <= 'Z') ==> lower(s)[i] == s[i],
        'A' <= s[i] && s[i] <= 'Z' ==> lower(s)[i] as u32 - 'a' as u32 == s[i] as u32 - 'A' as u32,
        lower(lower(s)) == lower(s),
{
    assert(lower(lower(s)) =~= lower(s));
}

// ----- kinds ---------------------------------------------------------------------------------

/// The extension of a file is what stands behind the last dot of its name, in its own case; its kind does
/// not go by case; what has no dot has no extension, and folders are folders.
pub proof fn extensions_stand_behind_the_last_dot(dir: Seq<char>, base: Seq<char>, ext: Seq<char>)
    requires
        !base.contains('/'),
        !ext.contains('/'),
        !ext.contains('.'),
    ensures
        name_of(dir + "/"@ + base + "."@ + ext) == base + "."@ + ext,
        ext_and_kind(dir + "/"@ + base + "."@ + ext, false).0 == ext,
        ext_and_kind(dir + "/"@ + base + "."@ + ext, false).1 == ext_and_kind(
            dir + "/"@ + base + "."@ + lower(ext),
            false,
        ).1,
        ext_and_kind(dir + "/"@ + ext, false).0.len() == 0,
        ext_and_kind(dir + "/"@ + base + "."@ + ext, true) == (Seq::<char>::empty(), "folder"@),
{
    reveal_strlit("/");
    reveal_strlit(".");
    lemma_ext(dir, base, ext);
    let low = lower(ext);
    assert forall|c: char| (c == '/' || c == '.') implies !low.contains(c) by {
        if low.contains(c) {
            let i = choose|i: int| 0 <= i < low.len() && low[i] == c;
            assert(ext[i] == c);
            assert(ext.contains(c));
        }
    }
    lemma_ext(dir, base, low);
    lower_case_twice(ext);
    let plain = dir + "/"@ + ext;
    let at = dir.len() as int;
    assert(plain[at] == '/');
    assert forall|j: int| at < j < plain.len() implies plain[j] != '/' by {
        assert(plain[j] == ext[j - at - 1]);
        assert(ext.contains(plain[j]));
    }
    crate::text::lemma_after_last_at(plain, '/', at);
    assert(plain.subrange(at + 1, plain.len() as int) =~= ext);
}

proof fn lower_case_twice(s: Seq<char>)
    ensures
        lower(lower(s)) == lower(s),
{
    assert(lower(lower(s)) =~= lower(s));
}

proof fn lemma_ext(dir: Seq<char>, base: Seq<char>, ext: Seq<char>)
    requires
        !base.contains('/'),
        !ext.contains('/'),
        !ext.contains('.'),
    ensures
        name_of(dir + "/"@ + base + "."@ + ext) == base + "."@ + ext,
        ext_of(base + "."@ + ext) == ext,
{
    reveal_strlit("/");
    reveal_strlit(".");
    let path = dir + "/"@ + base + "."@ + ext;
    let name = base + "."@ + ext;
    let at = dir.len() as int;
    assert(path[at] == '/');
    assert(path.subrange(at + 1, path.len() as int) =~= name);
    assert forall|j: int| at < j < path.len() implies path[j] != '/' by {
        let h = j - at - 1;
        assert(path[j] == name[h]);
        if h < base.len() {
            assert(name[h] == base[h]);
            assert(base.contains(name[h]));
        } else if h > base.len() {
            assert(name[h] == ext[h - base.len() - 1]);
            assert(ext.contains(name[h]));
        }
    }
    crate::text::lemma_after_last_at(path, '/', at);
    let dot = base.len() as int;
    assert(name[dot] == '.');
    assert(name.contains('.'));
    assert forall|j: int| dot < j < name.len() implies name[j] != '.' by {
        assert(name[j] == ext[j - dot - 1]);
        assert(ext.contains(name[j]));
    }
    crate::text::lemma_after_last_at(name, '.', dot);
    assert(name.subrange(dot + 1, name.len() as int) =~= ext);
}

/// Which extensions each kind has: a kind has only its own, and every one of these has a kind.
pub proof fn kinds_have_their_extensions(ext: Seq<char>)
    ensures
        kind_of_ext(ext) == "prefab"@ ==> listed(
            ext,
            seq![
                "prefab",
            ],
        ),
        kind_of_ext(ext) == "material"@ ==> listed(
            ext,
            seq![
                "mat",
            ],
        ),
        kind_of_ext(ext) == "shader"@ ==> listed(
            ext,
            seq![
                "shader", "shadergraph", "shadersubgraph", "hlsl", "cginc", "cg", "compute", "raytrace",
                "shadervariants",
            ],
        ),
        kind_of_ext(ext) == "texture"@ ==> listed(
            ext,
            seq![
                "png", "jpg", "jpeg", "tga", "psd", "psb", "tif", "tiff", "exr", "hdr", "bmp", "gif", "dds",
                "webp", "rendertexture", "cubemap",
            ],
        ),
        kind_of_ext(ext) == "model"@ ==> listed(
            ext,
            seq![
                "fbx", "obj", "blend", "dae", "3ds", "max", "ma", "mb", "c4d", "glb", "gltf", "ply", "stl",
            ],
        ),
        kind_of_ext(ext) == "audio"@ ==> listed(
            ext,
            seq![
                "wav", "mp3", "ogg", "aif", "aiff", "flac", "mod", "it", "s3m", "xm", "mixer",
            ],
        ),
        kind_of_ext(ext) == "animation"@ ==> listed(
            ext,
            seq![
                "anim", "controller", "overridecontroller", "mask", "playable", "signal",
            ],
        ),
        kind_of_ext(ext) == "scene"@ ==> listed(
            ext,
            seq![
                "unity",
            ],
        ),
        kind_of_ext(ext) == "script"@ ==> listed(
            ext,
            seq![
                "cs", "js", "boo", "dll", "asmdef", "asmref", "pdb", "mdb", "so", "dylib", "bundle", "aar",
                "jar", "a", "mm", "m", "h", "cpp", "c",
            ],
        ),
        kind_of_ext(ext) == "asset"@ ==> listed(
            ext,
            seq![
                "asset", "preset", "physicmaterial", "physicsmaterial2d", "terrainlayer", "brush", "flare",
                "guiskin", "lighting", "giparams", "spriteatlas", "spriteatlasv2", "inputactions",
            ],
        ),
        kind_of_ext(ext) == "font"@ ==> listed(
            ext,
            seq![
                "ttf", "otf", "fontsettings", "ttc",
            ],
        ),
        kind_of_ext(ext) == "ui"@ ==> listed(
            ext,
            seq![
                "uxml", "uss", "tss",
            ],
        ),
        kind_of_ext(ext) == "video"@ ==> listed(
            ext,
            seq![
                "mp4", "mov", "webm", "avi",
            ],
        ),
        kind_of_ext(ext) == "doc"@ ==> listed(
            ext,
            seq![
                "txt", "md", "pdf", "rtf", "html", "htm", "url",
            ],
        ),
        kind_of_ext(ext) == "data"@ ==> listed(
            ext,
            seq![
                "json", "xml", "csv", "bytes", "yaml", "yml",
            ],
        ),
        kind_of_ext(ext) == "vfx"@ ==> listed(
            ext,
            seq![
                "vfx", "vfxoperator", "vfxblock",
            ],
        ),
        listed(
            ext,
            seq![
                "prefab",
            ],
        ) ==> kind_of_ext(ext) != "other"@,
        listed(
            ext,
            seq![
                "mat",
            ],
        ) ==> kind_of_ext(ext) != "other"@,
        listed(
            ext,
            seq![
                "shader", "shadergraph", "shadersubgraph", "hlsl", "cginc", "cg", "compute", "raytrace",
                "shadervariants",
            ],
        ) ==> kind_of_ext(ext) != "other"@,
        listed(
            ext,
            seq![
                "png", "jpg", "jpeg", "tga", "psd", "psb", "tif", "tiff", "exr", "hdr", "bmp", "gif", "dds",
                "webp", "rendertexture", "cubemap",
            ],
        ) ==> kind_of_ext(ext) != "other"@,
        listed(
            ext,
            seq![
                "fbx", "obj", "blend", "dae", "3ds", "max", "ma", "mb", "c4d", "glb", "gltf", "ply", "stl",
            ],
        ) ==> kind_of_ext(ext) != "other"@,
        listed(
            ext,
            seq![
                "wav", "mp3", "ogg", "aif", "aiff", "flac", "mod", "it", "s3m", "xm", "mixer",
            ],
        ) ==> kind_of_ext(ext) != "other"@,
        listed(
            ext,
            seq![
                "anim", "controller", "overridecontroller", "mask", "playable", "signal",
            ],
        ) ==> kind_of_ext(ext) != "other"@,
        listed(
            ext,
            seq![
                "unity",
            ],
        ) ==> kind_of_ext(ext) != "other"@,
        listed(
            ext,
            seq![
                "cs", "js", "boo", "dll", "asmdef", "asmref", "pdb", "mdb", "so", "dylib", "bundle", "aar",
                "jar", "a", "mm", "m", "h", "cpp", "c",
            ],
        ) ==> kind_of_ext(ext) != "other"@,
        listed(
            ext,
            seq![
                "asset", "preset", "physicmaterial", "physicsmaterial2d", "terrainlayer", "brush", "flare",
                "guiskin", "lighting", "giparams", "spriteatlas", "spriteatlasv2", "inputactions",
            ],
        ) ==> kind_of_ext(ext) != "other"@,
        listed(
            ext,
            seq![
                "ttf", "otf", "fontsettings", "ttc",
            ],
        ) ==> kind_of_ext(ext) != "other"@,
        listed(
            ext,
            seq![
                "uxml", "uss", "tss",
            ],
        ) ==> kind_of_ext(ext) != "other"@,
        listed(
            ext,
            seq![
                "mp4", "mov", "webm", "avi",
            ],
        ) ==> kind_of_ext(ext) != "other"@,
        listed(
            ext,
            seq![
                "txt", "md", "pdf", "rtf", "html", "htm", "url",
            ],
        ) ==> kind_of_ext(ext) != "other"@,
        listed(
            ext,
            seq![
                "json", "xml", "csv", "bytes", "yaml", "yml",
            ],
        ) ==> kind_of_ext(ext) != "other"@,
        listed(
            ext,
            seq![
                "vfx", "vfxoperator", "vfxblock",
            ],
        ) ==> kind_of_ext(ext) != "other"@,
{
    reveal_strlit("prefab");
    reveal_strlit("material");
    reveal_strlit("shader");
    reveal_strlit("texture");
    reveal_strlit("model");
    reveal_strlit("audio");
    reveal_strlit("animation");
    reveal_strlit("scene");
    reveal_strlit("script");
    reveal_strlit("asset");
    reveal_strlit("font");
    reveal_strlit("ui");
    reveal_strlit("video");
    reveal_strlit("doc");
    reveal_strlit("data");
    reveal_strlit("vfx");
    reveal_strlit("other");
    assert("prefab"@.len() == 6 && "prefab"@[0] == 'p' && "prefab"@[1] == 'r');
    assert("material"@.len() == 8 && "material"@[0] == 'm' && "material"@[1] == 'a');
    assert("shader"@.len() == 6 && "shader"@[0] == 's' && "shader"@[1] == 'h');
    assert("texture"@.len() == 7 && "texture"@[0] == 't' && "texture"@[1] == 'e');
    assert("model"@.len() == 5 && "model"@[0] == 'm' && "model"@[1] == 'o');
    assert("audio"@.len() == 5 && "audio"@[0] == 'a' && "audio"@[1] == 'u');
    assert("animation"@.len() == 9 && "animation"@[0] == 'a' && "animation"@[1] == 'n');
    assert("scene"@.len() == 5 && "scene"@[0] == 's' && "scene"@[1] == 'c');
    assert("script"@.len() == 6 && "script"@[0] == 's' && "script"@[1] == 'c');
    assert("asset"@.len() == 5 && "asset"@[0] == 'a' && "asset"@[1] == 's');
    assert("font"@.len() == 4 && "font"@[0] == 'f' && "font"@[1] == 'o');
    assert("ui"@.len() == 2 && "ui"@[0] == 'u' && "ui"@[1] == 'i');
    assert("video"@.len() == 5 && "video"@[0] == 'v' && "video"@[1] == 'i');
    assert("doc"@.len() == 3 && "doc"@[0] == 'd' && "doc"@[1] == 'o');
    assert("data"@.len() == 4 && "data"@[0] == 'd' && "data"@[1] == 'a');
    assert("vfx"@.len() == 3 && "vfx"@[0] == 'v' && "vfx"@[1] == 'f');
    assert("other"@.len() == 5 && "other"@[0] == 'o' && "other"@[1] == 't');
}

// ----- the full-text index -------------------------------------------------------------------

/// The text of an asset in the index has the words of its path, its kind, its extension and its main
/// class, as far as it has them, with spaces between.
pub proof fn index_text_has_every_part(path: Seq<char>, kind: Seq<char>, ext: Seq<char>, class: Option<Seq<char>>)
    ensures
        ({
            let spaced_on = |t: Seq<char>, x: Seq<char>|
                if x.len() > 0 {
                    t + " "@ + x
                } else {
                    t
                };
            token_text(path, kind, ext, class) == spaced_on(
                spaced_on(spaced_on(camel_words(path), kind), ext),
                match class {
                    Some(c) => c,
                    None => Seq::empty(),
                },
            )
        }),
{
    let c = match class {
        Some(c) => c,
        None => Seq::<char>::empty(),
    };
    let t0 = seq![camel_words(path)];
    crate::tokens::lemma_filled_three(kind, ext, c);
    let t1 = if kind.len() > 0 {
        t0.push(kind)
    } else {
        t0
    };
    let t2 = if ext.len() > 0 {
        t1.push(ext)
    } else {
        t1
    };
    let t3 = if c.len() > 0 {
        t2.push(c)
    } else {
        t2
    };
    assert(token_parts(path, kind, ext, class) =~= t3);
    assert(t0.push(kind).drop_last() =~= t0);
    assert(t1.push(ext).drop_last() =~= t1);
    assert(t2.push(c).drop_last() =~= t2);
    assert(glue(t0, " "@) == camel_words(path));
    assert(kind.len() > 0 ==> glue(t1, " "@) == glue(t0, " "@) + " "@ + kind);
    assert(ext.len() > 0 ==> glue(t2, " "@) == glue(t1, " "@) + " "@ + ext);
    assert(c.len() > 0 ==> glue(t3, " "@) == glue(t2, " "@) + " "@ + c);
}

proof fn lemma_terms(ws: Seq<Seq<char>>, t: Seq<char>)
    ensures
        all_terms(ws).contains(t) <==> exists|i: int|
            0 <= i < ws.len() && word_terms(#[trigger] ws[i]).contains(t),
    decreases ws.len(),
{
    if ws.len() > 0 {
        let rest = ws.drop_last();
        let front = all_terms(rest);
        let back = word_terms(ws.last());
        let all = all_terms(ws);
        lemma_terms(rest, t);
        assert(ws[ws.len() - 1] == ws.last());
        if all.contains(t) {
            let k = choose|k: int| 0 <= k < all.len() && all[k] == t;
            if k < front.len() {
                assert(front[k] == t);
                let i = choose|i: int| 0 <= i < rest.len() && word_terms(#[trigger] rest[i]).contains(t);
                assert(ws[i] == rest[i]);
            } else {
                assert(back[k - front.len()] == t);
            }
        }
        if exists|i: int| 0 <= i < ws.len() && word_terms(#[trigger] ws[i]).contains(t) {
            let i = choose|i: int| 0 <= i < ws.len() && word_terms(#[trigger] ws[i]).contains(t);
            if i < rest.len() {
                assert(rest[i] == ws[i]);
                let k = choose|k: int| 0 <= k < front.len() && front[k] == t;
                assert(all[k] == t);
            } else {
                let k = choose|k: int| 0 <= k < back.len() && back[k] == t;
                assert(all[front.len() + k] == t);
            }
        }
    }
}

/// A full-text query asks for every piece of every word, as the beginning of a word of the index, and for
/// nothing else.
pub proof fn queries_ask_for_every_word(q: Seq<char>, t: Seq<char>)
    ensures
        fts_text(q) == glue(all_terms(words(q)), " "@),
        all_terms(words(q)).contains(t) <==> exists|w: Seq<char>, p: Seq<char>| #[trigger]
            words(q).contains(w) && #[trigger] words(camel_words(w)).contains(p) && t == "\""@ + doubled(p) + "\"*"@,
{
    let ws = words(q);
    lemma_terms(ws, t);
    if all_terms(ws).contains(t) {
        let i = choose|i: int| 0 <= i < ws.len() && word_terms(#[trigger] ws[i]).contains(t);
        crate::tokens::lemma_normal(spaced(ws[i]));
        let ps = words(spaced(ws[i]));
        let k = choose|k: int| 0 <= k < word_terms(ws[i]).len() && word_terms(ws[i])[k] == t;
        assert(ws.contains(ws[i]));
        assert(camel_words(ws[i]) == crate::tokens::normal(spaced(ws[i])));
        assert(words(camel_words(ws[i])).contains(ps[k]));
    }
    if exists|w: Seq<char>, p: Seq<char>| #[trigger]
        words(q).contains(w) && #[trigger] words(camel_words(w)).contains(p) && t == "\""@ + doubled(p) + "\"*"@ {
        let (w, p) = choose|w: Seq<char>, p: Seq<char>| #[trigger]
            words(q).contains(w) && #[trigger] words(camel_words(w)).contains(p) && t == "\""@ + doubled(p) + "\"*"@;
        assert(camel_words(w) == crate::tokens::normal(spaced(w)));
        let i = choose|i: int| 0 <= i < ws.len() && ws[i] == w;
        crate::tokens::lemma_normal(spaced(w));
        let ps = words(spaced(w));
        let k = choose|k: int| 0 <= k < ps.len() && ps[k] == p;
        assert(word_terms(ws[i])[k] == t);
        assert(word_terms(ws[i]).contains(t));
    }
}

/// Names are split wherever a word begins: no upper-case letter stands right behind a lower-case one or a
/// digit, and no letter right beside a digit.
pub proof fn names_are_split_where_words_begin(s: Seq<char>, i: int)
    requires
        0 <= i && i + 1 < camel_words(s).len(),
    ensures
        ({
            let (a, b) = (camel_words(s)[i], camel_words(s)[i + 1]);
            let lower_or_digit = ('a' <= a && a <= 'z') || ('0' <= a && a <= '9');
            let letter = |c: char| ('a' <= c && c <= 'z') || ('A' <= c && c <= 'Z');
            &&& !(lower_or_digit && 'A' <= b && b <= 'Z')
            &&& !(letter(a) && '0' <= b && b <= '9')
            &&& !('0' <= a && a <= '9' && letter(b))
        }),
{
    crate::tokens::lemma_spaced_calm(s);
    crate::tokens::lemma_normal(spaced(s));
    let t = crate::tokens::normal(spaced(s));
    assert(camel_words(s) == t);
    assert(!crate::tokens::word_break(t[i], t[i + 1]));
}

proof fn lemma_one_piece(s: Seq<char>)
    requires
        forall|i: int| 0 <= i < s.len() ==> !is_space(#[trigger] s[i]),
    ensures
        pieces(s, Sep::Space) == seq![s],
    decreases s.len(),
{
    if s.len() == 0 {
        assert(s =~= Seq::<char>::empty());
    } else {
        let t = s.drop_last();
        assert forall|i: int| 0 <= i < t.len() implies !is_space(#[trigger] t[i]) by {
            assert(t[i] == s[i]);
        }
        lemma_one_piece(t);
        assert(!is_space(s[s.len() - 1]));
        assert(t.push(s.last()) =~= s);
        assert(seq![t].drop_last().push(s) =~= seq![s]);
    }
}

/// Names are split nowhere else: one without white space, without the characters that part words, and
/// without a place where a word begins is left as it is.
pub proof fn single_words_are_not_split(s: Seq<char>)
    requires
        s.len() > 0,
        forall|i: int|
            0 <= i < s.len() ==> !is_space(#[trigger] s[i]) && s[i] != '_' && s[i] != '-' && s[i] != '.' && s[i] != '/'
                && s[i] != '\\',
        forall|i: int, j: int|
            0 <= i && j == i + 1 && j < s.len() ==> {
                let (a, b) = (#[trigger] s[i], #[trigger] s[j]);
                let lower_or_digit = ('a' <= a && a <= 'z') || ('0' <= a && a <= '9');
                let letter = |c: char| ('a' <= c && c <= 'z') || ('A' <= c && c <= 'Z');
                &&& !(lower_or_digit && 'A' <= b && b <= 'Z')
                &&& !(letter(a) && '0' <= b && b <= '9')
                &&& !('0' <= a && a <= '9' && letter(b))
            },
    ensures
        camel_words(s) == s,
{
    assert forall|i: int, j: int| 0 <= i && j == i + 1 && j < s.len() implies !crate::tokens::word_break(
        #[trigger] s[i],
        #[trigger] s[j],
    ) by {
        let letter = |c: char| ('a' <= c && c <= 'z') || ('A' <= c && c <= 'Z');
        assert(letter(s[i]) <==> crate::text::is_alpha(s[i]));
        assert(letter(s[j]) <==> crate::text::is_alpha(s[j]));
    }
    assert(crate::tokens::calm(s));
    crate::tokens::lemma_calm_stays(s);
    lemma_one_piece(s);
    let p = |x: Seq<char>| x.len() > 0;
    crate::laws::lemma_filter_all(seq![s], p);
    assert(words(s) == seq![s]);
}

// ----- numbers and paths ---------------------------------------------------------------------

proof fn lemma_exact(n: nat)
    requires
        n < 0x20_0000_0000_0000,
    ensures
        crate::human::to_53_bits(n) == n,
{
    assert(crate::human::spacing(n) == 1);
    assert(crate::human::nearest(n, 1) == n);
    assert(crate::human::to_53_bits(n) == crate::human::nearest(n, 1) * 1);
}

/// Whole kilobytes are said as such, and what is less than one in bytes.
pub proof fn sizes_are_said_in_their_unit(k: nat)
    requires
        1 <= k < 1024,
    ensures
        human_text(k as int) == numeral(k) + "B"@,
        human_text((k * 1024) as int) == numeral(k) + ".0KB"@,
        human_text((k * 1048576) as int) == numeral(k) + ".0MB"@,
        human_text((k * 1073741824) as int) == numeral(k) + ".0GB"@,
{
    reveal_strlit(".");
    reveal_strlit("KB");
    reveal_strlit("MB");
    reveal_strlit("GB");
    reveal_strlit(".0KB");
    reveal_strlit(".0MB");
    reveal_strlit(".0GB");
    assert(numeral(0) =~= seq!['0']);
    assert(numeral(k) + "."@ + numeral(0) + "KB"@ =~= numeral(k) + ".0KB"@);
    assert(numeral(k) + "."@ + numeral(0) + "MB"@ =~= numeral(k) + ".0MB"@);
    assert(numeral(k) + "."@ + numeral(0) + "GB"@ =~= numeral(k) + ".0GB"@);
    assert((10 * k) / 10 == k && (10 * k) % 10 == 0);
    lemma_exact(k);
    lemma_exact(k * 1024);
    lemma_exact(k * 1048576);
    lemma_exact(k * 1073741824);
    assert(crate::human::nearest(k * 1024 * 10, 1024) == 10 * k);
    assert(crate::human::nearest(k * 1048576 * 10, 1048576) == 10 * k);
    assert(crate::human::nearest(k * 1073741824 * 10, 1073741824) == 10 * k);
}

/// A tilde in front of a path stands for the user's home directory; without one the path stays.
pub proof fn tildes_stand_for_the_home(home: Seq<char>, rest: Seq<char>)
    requires
        home.len() > 0,
        home.last() != '/',
        rest.len() > 0,
        rest[0] != '/',
        rest[0] != '\\',
        rest[0] != '~',
    ensures
        tilde_expanded("~/"@ + rest, Some(home)) == home + "/"@ + rest,
        tilde_expanded("~"@, Some(home)) == home,
        tilde_expanded(rest, Some(home)) == rest,
        tilde_expanded("~/"@ + rest, None) == "~/"@ + rest,
{
    reveal_strlit("~/");
    reveal_strlit("~");
    let s = "~/"@ + rest;
    let t = s.skip(1);
    assert(t.drop_first() =~= rest);
    assert(t.first() == '/');
    reveal_with_fuel(trim_front, 3);
    assert(trim_front(t, Sep::Slash) == rest);
    assert("~"@.skip(1) =~= Seq::<char>::empty());
    assert(trim_front("~"@.skip(1), Sep::Slash).len() == 0);
}

} // verus!
