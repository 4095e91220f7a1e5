//! Asset kinds by file extension, and the names of Unity's object classes.

use vstd::prelude::*;

use crate::number::{decimal, numeral, numeral_reads_back};
use crate::text::{
    after_last, cat, chars_of, ends, find_last, is_listed, listed, lower, lower_char, text_after_last,
    text_between, to_lower,
};

verus! {

/// Extensions of the kind `prefab`.
pub open spec fn prefab_exts() -> Seq<&'static str> {
    seq!["prefab"]
}

/// Extensions of the kind `material`.
pub open spec fn material_exts() -> Seq<&'static str> {
    seq!["mat"]
}

/// Extensions of the kind `shader`.
pub open spec fn shader_exts() -> Seq<&'static str> {
    seq!["shader", "shadergraph", "shadersubgraph", "hlsl", "cginc", "cg", "compute", "raytrace", "shadervariants"]
}

/// Extensions of the kind `texture`.
pub open spec fn texture_exts() -> Seq<&'static str> {
    seq!["png", "jpg", "jpeg", "tga", "psd", "psb", "tif", "tiff", "exr", "hdr", "bmp", "gif", "dds", "webp", "rendertexture", "cubemap"]
}

/// Extensions of the kind `model`.
pub open spec fn model_exts() -> Seq<&'static str> {
    seq!["fbx", "obj", "blend", "dae", "3ds", "max", "ma", "mb", "c4d", "glb", "gltf", "ply", "stl"]
}

/// Extensions of the kind `audio`.
pub open spec fn audio_exts() -> Seq<&'static str> {
    seq!["wav", "mp3", "ogg", "aif", "aiff", "flac", "mod", "it", "s3m", "xm", "mixer"]
}

/// Extensions of the kind `animation`.
pub open spec fn animation_exts() -> Seq<&'static str> {
    seq!["anim", "controller", "overridecontroller", "mask", "playable", "signal"]
}

/// Extensions of the kind `scene`.
pub open spec fn scene_exts() -> Seq<&'static str> {
    seq!["unity"]
}

/// Extensions of the kind `script`.
pub open spec fn script_exts() -> Seq<&'static str> {
    seq!["cs", "js", "boo", "dll", "asmdef", "asmref", "pdb", "mdb", "so", "dylib", "bundle", "aar", "jar", "a", "mm", "m", "h", "cpp", "c"]
}

/// Extensions of the kind `asset`.
pub open spec fn asset_exts() -> Seq<&'static str> {
    seq!["asset", "preset", "physicmaterial", "physicsmaterial2d", "terrainlayer", "brush", "flare", "guiskin", "lighting", "giparams", "spriteatlas", "spriteatlasv2", "inputactions"]
}

/// Extensions of the kind `font`.
pub open spec fn font_exts() -> Seq<&'static str> {
    seq!["ttf", "otf", "fontsettings", "ttc"]
}

/// Extensions of the kind `ui`.
pub open spec fn ui_exts() -> Seq<&'static str> {
    seq!["uxml", "uss", "tss"]
}

/// Extensions of the kind `video`.
pub open spec fn video_exts() -> Seq<&'static str> {
    seq!["mp4", "mov", "webm", "avi"]
}

/// Extensions of the kind `doc`.
pub open spec fn doc_exts() -> Seq<&'static str> {
    seq!["txt", "md", "pdf", "rtf", "html", "htm", "url"]
}

/// Extensions of the kind `data`.
pub open spec fn data_exts() -> Seq<&'static str> {
    seq!["json", "xml", "csv", "bytes", "yaml", "yml"]
}

/// Extensions of the kind `vfx`.
pub open spec fn vfx_exts() -> Seq<&'static str> {
    seq!["vfx", "vfxoperator", "vfxblock"]
}

/// The coarse kind of a lower-case extension.
pub open spec fn kind_of_ext(ext: Seq<char>) -> Seq<char> {
    if listed(ext, prefab_exts()) {
        "prefab"@
    }
    else if listed(ext, material_exts()) {
        "material"@
    }
    else if listed(ext, shader_exts()) {
        "shader"@
    }
    else if listed(ext, texture_exts()) {
        "texture"@
    }
    else if listed(ext, model_exts()) {
        "model"@
    }
    else if listed(ext, audio_exts()) {
        "audio"@
    }
    else if listed(ext, animation_exts()) {
        "animation"@
    }
    else if listed(ext, scene_exts()) {
        "scene"@
    }
    else if listed(ext, script_exts()) {
        "script"@
    }
    else if listed(ext, asset_exts()) {
        "asset"@
    }
    else if listed(ext, font_exts()) {
        "font"@
    }
    else if listed(ext, ui_exts()) {
        "ui"@
    }
    else if listed(ext, video_exts()) {
        "video"@
    }
    else if listed(ext, doc_exts()) {
        "doc"@
    }
    else if listed(ext, data_exts()) {
        "data"@
    }
    else if listed(ext, vfx_exts()) {
        "vfx"@
    }
    else {
        "other"@
    }
}

fn kind_name(ext: &str) -> (r: &'static str)
    ensures
        r@ == kind_of_ext(ext@),
{
    let prefab = ["prefab"];
    assert(prefab@ =~= prefab_exts());
    if is_listed(ext, &prefab) {
        return "prefab";
    }
    let material = ["mat"];
    assert(material@ =~= material_exts());
    if is_listed(ext, &material) {
        return "material";
    }
    let shader = ["shader", "shadergraph", "shadersubgraph", "hlsl", "cginc", "cg", "compute", "raytrace", "shadervariants"];
    assert(shader@ =~= shader_exts());
    if is_listed(ext, &shader) {
        return "shader";
    }
    let texture = ["png", "jpg", "jpeg", "tga", "psd", "psb", "tif", "tiff", "exr", "hdr", "bmp", "gif", "dds", "webp", "rendertexture", "cubemap"];
    assert(texture@ =~= texture_exts());
    if is_listed(ext, &texture) {
        return "texture";
    }
    let model = ["fbx", "obj", "blend", "dae", "3ds", "max", "ma", "mb", "c4d", "glb", "gltf", "ply", "stl"];
    assert(model@ =~= model_exts());
    if is_listed(ext, &model) {
        return "model";
    }
    let audio = ["wav", "mp3", "ogg", "aif", "aiff", "flac", "mod", "it", "s3m", "xm", "mixer"];
    assert(audio@ =~= audio_exts());
    if is_listed(ext, &audio) {
        return "audio";
    }
    let animation = ["anim", "controller", "overridecontroller", "mask", "playable", "signal"];
    assert(animation@ =~= animation_exts());
    if is_listed(ext, &animation) {
        return "animation";
    }
    let scene = ["unity"];
    assert(scene@ =~= scene_exts());
    if is_listed(ext, &scene) {
        return "scene";
    }
    let script = ["cs", "js", "boo", "dll", "asmdef", "asmref", "pdb", "mdb", "so", "dylib", "bundle", "aar", "jar", "a", "mm", "m", "h", "cpp", "c"];
    assert(script@ =~= script_exts());
    if is_listed(ext, &script) {
        return "script";
    }
    let asset = ["asset", "preset", "physicmaterial", "physicsmaterial2d", "terrainlayer", "brush", "flare", "guiskin", "lighting", "giparams", "spriteatlas", "spriteatlasv2", "inputactions"];
    assert(asset@ =~= asset_exts());
    if is_listed(ext, &asset) {
        return "asset";
    }
    let font = ["ttf", "otf", "fontsettings", "ttc"];
    assert(font@ =~= font_exts());
    if is_listed(ext, &font) {
        return "font";
    }
    let ui = ["uxml", "uss", "tss"];
    assert(ui@ =~= ui_exts());
    if is_listed(ext, &ui) {
        return "ui";
    }
    let video = ["mp4", "mov", "webm", "avi"];
    assert(video@ =~= video_exts());
    if is_listed(ext, &video) {
        return "video";
    }
    let doc = ["txt", "md", "pdf", "rtf", "html", "htm", "url"];
    assert(doc@ =~= doc_exts());
    if is_listed(ext, &doc) {
        return "doc";
    }
    let data = ["json", "xml", "csv", "bytes", "yaml", "yml"];
    assert(data@ =~= data_exts());
    if is_listed(ext, &data) {
        return "data";
    }
    let vfx = ["vfx", "vfxoperator", "vfxblock"];
    assert(vfx@ =~= vfx_exts());
    if is_listed(ext, &vfx) {
        return "vfx";
    }
    "other"
}

/// The coarse kinds.
pub const KINDS: [&'static str; 18] = [
    "prefab",
    "material",
    "shader",
    "texture",
    "model",
    "audio",
    "animation",
    "scene",
    "script",
    "asset",
    "font",
    "ui",
    "video",
    "doc",
    "data",
    "vfx",
    "folder",
    "other",
];

/// Every asset is of one of the kinds.
pub proof fn every_asset_has_a_kind(path: Seq<char>, is_folder: bool)
    ensures
        listed(ext_and_kind(path, is_folder).1, KINDS@),
{
    let k = KINDS@;
    assert(k[0]@ == "prefab"@);
    assert(k[1]@ == "material"@);
    assert(k[2]@ == "shader"@);
    assert(k[3]@ == "texture"@);
    assert(k[4]@ == "model"@);
    assert(k[5]@ == "audio"@);
    assert(k[6]@ == "animation"@);
    assert(k[7]@ == "scene"@);
    assert(k[8]@ == "script"@);
    assert(k[9]@ == "asset"@);
    assert(k[10]@ == "font"@);
    assert(k[11]@ == "ui"@);
    assert(k[12]@ == "video"@);
    assert(k[13]@ == "doc"@);
    assert(k[14]@ == "data"@);
    assert(k[15]@ == "vfx"@);
    assert(k[16]@ == "folder"@);
    assert(k[17]@ == "other"@);
}

/// The name of a Unity class id, where it is a known one.
pub open spec fn known_class(id: u64) -> Option<Seq<char>> {
    match id {
        1 => Some("GameObject"@),
        2 => Some("Component"@),
        4 => Some("Transform"@),
        20 => Some("Camera"@),
        21 => Some("Material"@),
        23 => Some("MeshRenderer"@),
        25 => Some("Renderer"@),
        28 => Some("Texture2D"@),
        29 => Some("OcclusionCullingSettings"@),
        30 => Some("GraphicsSettings"@),
        33 => Some("MeshFilter"@),
        41 => Some("OcclusionPortal"@),
        43 => Some("Mesh"@),
        45 => Some("Skybox"@),
        47 => Some("QualitySettings"@),
        48 => Some("Shader"@),
        49 => Some("TextAsset"@),
        50 => Some("Rigidbody2D"@),
        54 => Some("Rigidbody"@),
        64 => Some("MeshCollider"@),
        65 => Some("BoxCollider"@),
        72 => Some("ComputeShader"@),
        74 => Some("AnimationClip"@),
        81 => Some("AudioListener"@),
        82 => Some("AudioSource"@),
        83 => Some("AudioClip"@),
        84 => Some("RenderTexture"@),
        86 => Some("CustomRenderTexture"@),
        89 => Some("Cubemap"@),
        90 => Some("Avatar"@),
        91 => Some("AnimatorController"@),
        93 => Some("RuntimeAnimatorController"@),
        95 => Some("Animator"@),
        96 => Some("TrailRenderer"@),
        102 => Some("TextMesh"@),
        104 => Some("RenderSettings"@),
        108 => Some("Light"@),
        114 => Some("MonoBehaviour"@),
        115 => Some("MonoScript"@),
        117 => Some("Texture3D"@),
        119 => Some("Projector"@),
        120 => Some("LineRenderer"@),
        121 => Some("Flare"@),
        122 => Some("Halo"@),
        123 => Some("LensFlare"@),
        124 => Some("FlareLayer"@),
        128 => Some("Font"@),
        134 => Some("PhysicMaterial"@),
        135 => Some("SphereCollider"@),
        136 => Some("CapsuleCollider"@),
        137 => Some("SkinnedMeshRenderer"@),
        142 => Some("AssetBundle"@),
        150 => Some("PreloadData"@),
        152 => Some("MovieTexture"@),
        156 => Some("TerrainData"@),
        157 => Some("LightmapSettings"@),
        171 => Some("SparseTexture"@),
        180 => Some("AudioMixer"@),
        181 => Some("AudioMixerGroup"@),
        182 => Some("AudioMixerSnapshot"@),
        183 => Some("AudioMixerEffectController"@),
        187 => Some("Texture2DArray"@),
        188 => Some("CubemapArray"@),
        198 => Some("ParticleSystem"@),
        199 => Some("ParticleSystemRenderer"@),
        200 => Some("ShaderVariantCollection"@),
        205 => Some("LODGroup"@),
        206 => Some("BlendTree"@),
        207 => Some("Motion"@),
        208 => Some("NavMeshObstacle"@),
        210 => Some("SortingGroup"@),
        212 => Some("SpriteRenderer"@),
        213 => Some("Sprite"@),
        215 => Some("ReflectionProbe"@),
        218 => Some("Terrain"@),
        221 => Some("AnimatorOverrideController"@),
        222 => Some("CanvasRenderer"@),
        223 => Some("Canvas"@),
        224 => Some("RectTransform"@),
        225 => Some("CanvasGroup"@),
        226 => Some("BillboardAsset"@),
        227 => Some("BillboardRenderer"@),
        228 => Some("SpeedTreeWindAsset"@),
        240 => Some("AudioMixerController"@),
        258 => Some("LightProbes"@),
        271 => Some("LightProbeGroup"@),
        290 => Some("AssetBundleManifest"@),
        319 => Some("AvatarMask"@),
        320 => Some("PlayableDirector"@),
        328 => Some("VideoPlayer"@),
        329 => Some("VideoClip"@),
        331 => Some("SpriteMask"@),
        687078895 => Some("SpriteAtlas"@),
        1001 => Some("PrefabInstance"@),
        1101 => Some("AnimatorStateTransition"@),
        1102 => Some("AnimatorState"@),
        1107 => Some("AnimatorStateMachine"@),
        1109 => Some("AnimatorTransition"@),
        1111 => Some("AnimatorTransitionBase"@),
        1120 => Some("LightingDataAsset"@),
        1953259897 => Some("TilemapCollider2D"@),
        1971053207 => Some("Tilemap"@),
        1839735485 => Some("TilemapRenderer"@),
        _ => None,
    }
}

/// The readable name of a Unity class id: `Class<id>` where it is not a known one.
pub open spec fn class_text(id: u64) -> Seq<char> {
    match known_class(id) {
        Some(name) => name,
        None => "Class"@ + numeral(id as nat),
    }
}

/// Unity class ids by readable names.
pub fn class_name(id: u64) -> (r: String)
    ensures
        r@ == class_text(id),
{
    let name: &str = match id {
        1 => "GameObject",
        2 => "Component",
        4 => "Transform",
        20 => "Camera",
        21 => "Material",
        23 => "MeshRenderer",
        25 => "Renderer",
        28 => "Texture2D",
        29 => "OcclusionCullingSettings",
        30 => "GraphicsSettings",
        33 => "MeshFilter",
        41 => "OcclusionPortal",
        43 => "Mesh",
        45 => "Skybox",
        47 => "QualitySettings",
        48 => "Shader",
        49 => "TextAsset",
        50 => "Rigidbody2D",
        54 => "Rigidbody",
        64 => "MeshCollider",
        65 => "BoxCollider",
        72 => "ComputeShader",
        74 => "AnimationClip",
        81 => "AudioListener",
        82 => "AudioSource",
        83 => "AudioClip",
        84 => "RenderTexture",
        86 => "CustomRenderTexture",
        89 => "Cubemap",
        90 => "Avatar",
        91 => "AnimatorController",
        93 => "RuntimeAnimatorController",
        95 => "Animator",
        96 => "TrailRenderer",
        102 => "TextMesh",
        104 => "RenderSettings",
        108 => "Light",
        114 => "MonoBehaviour",
        115 => "MonoScript",
        117 => "Texture3D",
        119 => "Projector",
        120 => "LineRenderer",
        121 => "Flare",
        122 => "Halo",
        123 => "LensFlare",
        124 => "FlareLayer",
        128 => "Font",
        134 => "PhysicMaterial",
        135 => "SphereCollider",
        136 => "CapsuleCollider",
        137 => "SkinnedMeshRenderer",
        142 => "AssetBundle",
        150 => "PreloadData",
        152 => "MovieTexture",
        156 => "TerrainData",
        157 => "LightmapSettings",
        171 => "SparseTexture",
        180 => "AudioMixer",
        181 => "AudioMixerGroup",
        182 => "AudioMixerSnapshot",
        183 => "AudioMixerEffectController",
        187 => "Texture2DArray",
        188 => "CubemapArray",
        198 => "ParticleSystem",
        199 => "ParticleSystemRenderer",
        200 => "ShaderVariantCollection",
        205 => "LODGroup",
        206 => "BlendTree",
        207 => "Motion",
        208 => "NavMeshObstacle",
        210 => "SortingGroup",
        212 => "SpriteRenderer",
        213 => "Sprite",
        215 => "ReflectionProbe",
        218 => "Terrain",
        221 => "AnimatorOverrideController",
        222 => "CanvasRenderer",
        223 => "Canvas",
        224 => "RectTransform",
        225 => "CanvasGroup",
        226 => "BillboardAsset",
        227 => "BillboardRenderer",
        228 => "SpeedTreeWindAsset",
        240 => "AudioMixerController",
        258 => "LightProbes",
        271 => "LightProbeGroup",
        290 => "AssetBundleManifest",
        319 => "AvatarMask",
        320 => "PlayableDirector",
        328 => "VideoPlayer",
        329 => "VideoClip",
        331 => "SpriteMask",
        687078895 => "SpriteAtlas",
        1001 => "PrefabInstance",
        1101 => "AnimatorStateTransition",
        1102 => "AnimatorState",
        1107 => "AnimatorStateMachine",
        1109 => "AnimatorTransition",
        1111 => "AnimatorTransitionBase",
        1120 => "LightingDataAsset",
        1953259897 => "TilemapCollider2D",
        1971053207 => "Tilemap",
        1839735485 => "TilemapRenderer",
        _ => {
            return cat("Class", decimal(id).as_str());
        },
    };
    name.to_string()
}

/// The extension of a file name, in its own case: what stands behind the last dot.
pub open spec fn ext_of(name: Seq<char>) -> Seq<char> {
    if name.contains('.') {
        after_last(name, '.')
    } else {
        Seq::empty()
    }
}

/// The last segment of a path.
pub open spec fn name_of(path: Seq<char>) -> Seq<char> {
    after_last(path, '/')
}

/// The extension and the kind of an asset path.
pub open spec fn ext_and_kind(path: Seq<char>, is_folder: bool) -> (Seq<char>, Seq<char>) {
    if is_folder {
        (Seq::empty(), "folder"@)
    } else {
        let ext = ext_of(name_of(path));
        (ext, kind_of_ext(lower(ext)))
    }
}

/// Extension and kind for an asset path. The extension keeps its original casing.
pub fn kind_for_path(path: &str, is_folder: bool) -> (r: (String, &'static str))
    ensures
        (r.0@, r.1@) == ext_and_kind(path@, is_folder),
{
    if is_folder {
        return (String::new(), "folder");
    }
    let name = text_after_last(path, '/');
    let v = chars_of(name.as_str());
    let n: usize = v.len();
    let ext = match find_last(&v, '.') {
        Some(i) => {
            proof {
                assert(v@.contains(v@[i as int]));
                crate::text::lemma_after_last_at(v@, '.', i as int);
            }
            text_between(&v, i + 1, n)
        },
        None => String::new(),
    };
    let low = to_lower(ext.as_str());
    let kind = kind_name(low.as_str());
    (ext, kind)
}

// ----- laws ----------------------------------------------------------------------------------

/// The class id that a readable name stands for, told by its length and its letters.
spec fn id_by_name(s: Seq<char>) -> u64 {
    if s.len() == 4 {
        if s[0] == 'F' {
            128
        } else if s[0] == 'H' {
            122
        } else {
            43
        }
    } else if s.len() == 5 {
        if s[0] == 'F' {
            121
        } else {
            108
        }
    } else if s.len() == 6 {
        if s[1] == 'a' {
            if s[2] == 'm' {
                20
            } else {
                223
            }
        } else if s[1] == 'h' {
            48
        } else if s[1] == 'k' {
            45
        } else if s[1] == 'o' {
            207
        } else if s[1] == 'p' {
            213
        } else {
            90
        }
    } else if s.len() == 7 {
        if s[1] == 'e' {
            218
        } else if s[1] == 'i' {
            1971053207
        } else {
            89
        }
    } else if s.len() == 8 {
        if s[0] == 'A' {
            95
        } else if s[0] == 'L' {
            205
        } else if s[0] == 'M' {
            21
        } else if s[0] == 'R' {
            25
        } else {
            102
        }
    } else if s.len() == 9 {
        if s[5] == 'C' {
            if s[0] == 'A' {
                83
            } else {
                329
            }
        } else if s[5] == 'T' {
            206
        } else if s[5] == 'b' {
            54
        } else if s[5] == 'c' {
            119
        } else if s[5] == 'f' {
            4
        } else if s[5] == 'l' {
            123
        } else if s[5] == 'n' {
            2
        } else if s[5] == 'r' {
            if s[7] == '2' {
                28
            } else {
                117
            }
        } else {
            49
        }
    } else if s.len() == 10 {
        if s[1] == 'a' {
            1
        } else if s[1] == 'e' {
            33
        } else if s[1] == 'l' {
            124
        } else if s[1] == 'o' {
            115
        } else if s[1] == 'p' {
            331
        } else if s[1] == 'u' {
            180
        } else {
            319
        }
    } else if s.len() == 11 {
        if s[0] == 'A' {
            if s[1] == 's' {
                142
            } else {
                82
            }
        } else if s[0] == 'B' {
            65
        } else if s[0] == 'C' {
            225
        } else if s[0] == 'L' {
            258
        } else if s[0] == 'P' {
            150
        } else if s[0] == 'R' {
            50
        } else if s[0] == 'S' {
            687078895
        } else if s[0] == 'T' {
            156
        } else {
            328
        }
    } else if s.len() == 12 {
        if s[2] == 'b' {
            188
        } else if s[2] == 'n' {
            120
        } else if s[2] == 'r' {
            210
        } else if s[2] == 's' {
            if s[4] == 'C' {
                64
            } else {
                23
            }
        } else {
            152
        }
    } else if s.len() == 13 {
        if s[4] == 'B' {
            114
        } else if s[4] == 'T' {
            224
        } else if s[4] == 'a' {
            if s[6] == 'i' {
                74
            } else {
                1102
            }
        } else if s[4] == 'e' {
            84
        } else if s[4] == 'l' {
            96
        } else if s[4] == 'o' {
            81
        } else if s[4] == 's' {
            171
        } else {
            72
        }
    } else if s.len() == 14 {
        if s[3] == 'd' {
            104
        } else if s[3] == 'e' {
            135
        } else if s[3] == 'f' {
            1001
        } else if s[3] == 'i' {
            212
        } else if s[3] == 'l' {
            226
        } else if s[3] == 's' {
            134
        } else if s[3] == 't' {
            if s[0] == 'P' {
                198
            } else {
                187
            }
        } else {
            222
        }
    } else if s.len() == 15 {
        if s[0] == 'A' {
            181
        } else if s[0] == 'C' {
            136
        } else if s[0] == 'L' {
            271
        } else if s[0] == 'N' {
            208
        } else if s[0] == 'O' {
            41
        } else if s[0] == 'Q' {
            47
        } else if s[0] == 'R' {
            215
        } else {
            1839735485
        }
    } else if s.len() == 16 {
        if s[0] == 'G' {
            30
        } else if s[0] == 'L' {
            157
        } else {
            320
        }
    } else if s.len() == 17 {
        if s[0] == 'B' {
            227
        } else if s[0] == 'L' {
            1120
        } else {
            1953259897
        }
    } else if s.len() == 18 {
        if s[10] == 'S' {
            182
        } else if s[10] == 'a' {
            1109
        } else if s[10] == 'i' {
            228
        } else {
            91
        }
    } else if s.len() == 19 {
        if s[0] == 'A' {
            290
        } else if s[0] == 'C' {
            86
        } else {
            137
        }
    } else if s.len() == 20 {
        if s[1] == 'n' {
            1107
        } else {
            240
        }
    } else if s.len() == 22 {
        if s[0] == 'A' {
            1111
        } else {
            199
        }
    } else if s.len() == 23 {
        if s[0] == 'A' {
            1101
        } else {
            200
        }
    } else if s.len() == 24 {
        29
    } else if s.len() == 25 {
        93
    } else if s.len() == 26 {
        if s[1] == 'n' {
            221
        } else {
            183
        }
    } else {
        0
    }
}

/// Whether the name of a class id tells the id, and does not begin like that of an unknown one.
spec fn names_id(id: u64) -> bool {
    known_class(id) matches Some(n) ==> {
        &&& id_by_name(n) == id
        &&& n.len() > 2
        &&& !(n[0] == 'C' && n[1] == 'l')
    }
}

proof fn lemma_names_0(id: u64)
    requires
        id == 1 || id == 2 || id == 4 || id == 20 || id == 21 || id == 23 || id == 25 || id == 28
            || id == 29 || id == 30 || id == 33 || id == 41 || id == 43 || id == 45 || id == 47
            || id == 48 || id == 49 || id == 50,
    ensures
        names_id(id),
{
    if id == 1 {
        reveal_strlit("GameObject");
    }
    if id == 2 {
        reveal_strlit("Component");
    }
    if id == 4 {
        reveal_strlit("Transform");
    }
    if id == 20 {
        reveal_strlit("Camera");
    }
    if id == 21 {
        reveal_strlit("Material");
    }
    if id == 23 {
        reveal_strlit("MeshRenderer");
    }
    if id == 25 {
        reveal_strlit("Renderer");
    }
    if id == 28 {
        reveal_strlit("Texture2D");
    }
    if id == 29 {
        reveal_strlit("OcclusionCullingSettings");
    }
    if id == 30 {
        reveal_strlit("GraphicsSettings");
    }
    if id == 33 {
        reveal_strlit("MeshFilter");
    }
    if id == 41 {
        reveal_strlit("OcclusionPortal");
    }
    if id == 43 {
        reveal_strlit("Mesh");
    }
    if id == 45 {
        reveal_strlit("Skybox");
    }
    if id == 47 {
        reveal_strlit("QualitySettings");
    }
    if id == 48 {
        reveal_strlit("Shader");
    }
    if id == 49 {
        reveal_strlit("TextAsset");
    }
    if id == 50 {
        reveal_strlit("Rigidbody2D");
    }
}

proof fn lemma_names_1(id: u64)
    requires
        id == 54 || id == 64 || id == 65 || id == 72 || id == 74 || id == 81 || id == 82 || id == 83
            || id == 84 || id == 86 || id == 89 || id == 90 || id == 91 || id == 93 || id == 95
            || id == 96 || id == 102 || id == 104,
    ensures
        names_id(id),
{
    if id == 54 {
        reveal_strlit("Rigidbody");
    }
    if id == 64 {
        reveal_strlit("MeshCollider");
    }
    if id == 65 {
        reveal_strlit("BoxCollider");
    }
    if id == 72 {
        reveal_strlit("ComputeShader");
    }
    if id == 74 {
        reveal_strlit("AnimationClip");
    }
    if id == 81 {
        reveal_strlit("AudioListener");
    }
    if id == 82 {
        reveal_strlit("AudioSource");
    }
    if id == 83 {
        reveal_strlit("AudioClip");
    }
    if id == 84 {
        reveal_strlit("RenderTexture");
    }
    if id == 86 {
        reveal_strlit("CustomRenderTexture");
    }
    if id == 89 {
        reveal_strlit("Cubemap");
    }
    if id == 90 {
        reveal_strlit("Avatar");
    }
    if id == 91 {
        reveal_strlit("AnimatorController");
    }
    if id == 93 {
        reveal_strlit("RuntimeAnimatorController");
    }
    if id == 95 {
        reveal_strlit("Animator");
    }
    if id == 96 {
        reveal_strlit("TrailRenderer");
    }
    if id == 102 {
        reveal_strlit("TextMesh");
    }
    if id == 104 {
        reveal_strlit("RenderSettings");
    }
}

proof fn lemma_names_2(id: u64)
    requires
        id == 108 || id == 114 || id == 115 || id == 117 || id == 119 || id == 120 || id == 121
            || id == 122 || id == 123 || id == 124 || id == 128 || id == 134 || id == 135 || id == 136
            || id == 137 || id == 142 || id == 150 || id == 152,
    ensures
        names_id(id),
{
    if id == 108 {
        reveal_strlit("Light");
    }
    if id == 114 {
        reveal_strlit("MonoBehaviour");
    }
    if id == 115 {
        reveal_strlit("MonoScript");
    }
    if id == 117 {
        reveal_strlit("Texture3D");
    }
    if id == 119 {
        reveal_strlit("Projector");
    }
    if id == 120 {
        reveal_strlit("LineRenderer");
    }
    if id == 121 {
        reveal_strlit("Flare");
    }
    if id == 122 {
        reveal_strlit("Halo");
    }
    if id == 123 {
        reveal_strlit("LensFlare");
    }
    if id == 124 {
        reveal_strlit("FlareLayer");
    }
    if id == 128 {
        reveal_strlit("Font");
    }
    if id == 134 {
        reveal_strlit("PhysicMaterial");
    }
    if id == 135 {
        reveal_strlit("SphereCollider");
    }
    if id == 136 {
        reveal_strlit("CapsuleCollider");
    }
    if id == 137 {
        reveal_strlit("SkinnedMeshRenderer");
    }
    if id == 142 {
        reveal_strlit("AssetBundle");
    }
    if id == 150 {
        reveal_strlit("PreloadData");
    }
    if id == 152 {
        reveal_strlit("MovieTexture");
    }
}

proof fn lemma_names_3(id: u64)
    requires
        id == 156 || id == 157 || id == 171 || id == 180 || id == 181 || id == 182 || id == 183
            || id == 187 || id == 188 || id == 198 || id == 199 || id == 200 || id == 205 || id == 206
            || id == 207 || id == 208 || id == 210 || id == 212,
    ensures
        names_id(id),
{
    if id == 156 {
        reveal_strlit("TerrainData");
    }
    if id == 157 {
        reveal_strlit("LightmapSettings");
    }
    if id == 171 {
        reveal_strlit("SparseTexture");
    }
    if id == 180 {
        reveal_strlit("AudioMixer");
    }
    if id == 181 {
        reveal_strlit("AudioMixerGroup");
    }
    if id == 182 {
        reveal_strlit("AudioMixerSnapshot");
    }
    if id == 183 {
        reveal_strlit("AudioMixerEffectController");
    }
    if id == 187 {
        reveal_strlit("Texture2DArray");
    }
    if id == 188 {
        reveal_strlit("CubemapArray");
    }
    if id == 198 {
        reveal_strlit("ParticleSystem");
    }
    if id == 199 {
        reveal_strlit("ParticleSystemRenderer");
    }
    if id == 200 {
        reveal_strlit("ShaderVariantCollection");
    }
    if id == 205 {
        reveal_strlit("LODGroup");
    }
    if id == 206 {
        reveal_strlit("BlendTree");
    }
    if id == 207 {
        reveal_strlit("Motion");
    }
    if id == 208 {
        reveal_strlit("NavMeshObstacle");
    }
    if id == 210 {
        reveal_strlit("SortingGroup");
    }
    if id == 212 {
        reveal_strlit("SpriteRenderer");
    }
}

proof fn lemma_names_4(id: u64)
    requires
        id == 213 || id == 215 || id == 218 || id == 221 || id == 222 || id == 223 || id == 224
            || id == 225 || id == 226 || id == 227 || id == 228 || id == 240 || id == 258 || id == 271
            || id == 290 || id == 319 || id == 320 || id == 328,
    ensures
        names_id(id),
{
    if id == 213 {
        reveal_strlit("Sprite");
    }
    if id == 215 {
        reveal_strlit("ReflectionProbe");
    }
    if id == 218 {
        reveal_strlit("Terrain");
    }
    if id == 221 {
        reveal_strlit("AnimatorOverrideController");
    }
    if id == 222 {
        reveal_strlit("CanvasRenderer");
    }
    if id == 223 {
        reveal_strlit("Canvas");
    }
    if id == 224 {
        reveal_strlit("RectTransform");
    }
    if id == 225 {
        reveal_strlit("CanvasGroup");
    }
    if id == 226 {
        reveal_strlit("BillboardAsset");
    }
    if id == 227 {
        reveal_strlit("BillboardRenderer");
    }
    if id == 228 {
        reveal_strlit("SpeedTreeWindAsset");
    }
    if id == 240 {
        reveal_strlit("AudioMixerController");
    }
    if id == 258 {
        reveal_strlit("LightProbes");
    }
    if id == 271 {
        reveal_strlit("LightProbeGroup");
    }
    if id == 290 {
        reveal_strlit("AssetBundleManifest");
    }
    if id == 319 {
        reveal_strlit("AvatarMask");
    }
    if id == 320 {
        reveal_strlit("PlayableDirector");
    }
    if id == 328 {
        reveal_strlit("VideoPlayer");
    }
}

proof fn lemma_names_5(id: u64)
    requires
        id == 329 || id == 331 || id == 687078895 || id == 1001 || id == 1101 || id == 1102
            || id == 1107 || id == 1109 || id == 1111 || id == 1120 || id == 1953259897
            || id == 1971053207 || id == 1839735485,
    ensures
        names_id(id),
{
    if id == 329 {
        reveal_strlit("VideoClip");
    }
    if id == 331 {
        reveal_strlit("SpriteMask");
    }
    if id == 687078895 {
        reveal_strlit("SpriteAtlas");
    }
    if id == 1001 {
        reveal_strlit("PrefabInstance");
    }
    if id == 1101 {
        reveal_strlit("AnimatorStateTransition");
    }
    if id == 1102 {
        reveal_strlit("AnimatorState");
    }
    if id == 1107 {
        reveal_strlit("AnimatorStateMachine");
    }
    if id == 1109 {
        reveal_strlit("AnimatorTransition");
    }
    if id == 1111 {
        reveal_strlit("AnimatorTransitionBase");
    }
    if id == 1120 {
        reveal_strlit("LightingDataAsset");
    }
    if id == 1953259897 {
        reveal_strlit("TilemapCollider2D");
    }
    if id == 1971053207 {
        reveal_strlit("Tilemap");
    }
    if id == 1839735485 {
        reveal_strlit("TilemapRenderer");
    }
}

proof fn lemma_names_id(id: u64)
    ensures
        names_id(id),
{
    if id == 1 || id == 2 || id == 4 || id == 20 || id == 21 || id == 23 || id == 25 || id == 28
        || id == 29 || id == 30 || id == 33 || id == 41 || id == 43 || id == 45 || id == 47 || id == 48
        || id == 49 || id == 50 {
        lemma_names_0(id);
    } else if id == 54 || id == 64 || id == 65 || id == 72 || id == 74 || id == 81 || id == 82
        || id == 83 || id == 84 || id == 86 || id == 89 || id == 90 || id == 91 || id == 93 || id == 95
        || id == 96 || id == 102 || id == 104 {
        lemma_names_1(id);
    } else if id == 108 || id == 114 || id == 115 || id == 117 || id == 119 || id == 120 || id == 121
        || id == 122 || id == 123 || id == 124 || id == 128 || id == 134 || id == 135 || id == 136
        || id == 137 || id == 142 || id == 150 || id == 152 {
        lemma_names_2(id);
    } else if id == 156 || id == 157 || id == 171 || id == 180 || id == 181 || id == 182 || id == 183
        || id == 187 || id == 188 || id == 198 || id == 199 || id == 200 || id == 205 || id == 206
        || id == 207 || id == 208 || id == 210 || id == 212 {
        lemma_names_3(id);
    } else if id == 213 || id == 215 || id == 218 || id == 221 || id == 222 || id == 223 || id == 224
        || id == 225 || id == 226 || id == 227 || id == 228 || id == 240 || id == 258 || id == 271
        || id == 290 || id == 319 || id == 320 || id == 328 {
        lemma_names_4(id);
    } else if id == 329 || id == 331 || id == 687078895 || id == 1001 || id == 1101 || id == 1102
        || id == 1107 || id == 1109 || id == 1111 || id == 1120 || id == 1953259897 || id == 1971053207
        || id == 1839735485 {
        lemma_names_5(id);
    }
}

/// No two class ids share a readable name.
pub proof fn class_names_differ(a: u64, b: u64)
    requires
        a != b,
    ensures
        class_text(a) != class_text(b),
{
    reveal_strlit("Class");
    lemma_names_id(a);
    lemma_names_id(b);
    let (x, y) = (class_text(a), class_text(b));
    if x == y {
        if known_class(a) is None {
            assert(x[0] == 'C' && x[1] == 'l');
        }
        if known_class(b) is None {
            assert(y[0] == 'C' && y[1] == 'l');
        }
        if known_class(a) is None && known_class(b) is None {
            assert(x.skip(5) =~= numeral(a as nat));
            assert(y.skip(5) =~= numeral(b as nat));
            numeral_reads_back(a as nat);
            numeral_reads_back(b as nat);
        }
    }
}

proof fn lemma_lower_after_last(s: Seq<char>, c: char)
    requires
        lower_char(c) == c,
        !('a' <= c && c <= 'z'),
    ensures
        after_last(lower(s), c) == lower(after_last(s, c)),
        lower(s).contains(c) == s.contains(c),
    decreases s.len(),
{
    if s.len() == 0 {
        assert(lower(s) =~= s);
        assert(after_last(lower(s), c) =~= lower(after_last(s, c)));
    } else {
        let t = s.drop_last();
        lemma_lower_after_last(t, c);
        assert(lower(s).drop_last() =~= lower(t));
        assert(lower(s).last() == lower_char(s.last()));
        assert(after_last(lower(s), c) =~= lower(after_last(s, c)));
        if s.contains(c) {
            let i = choose|i: int| 0 <= i < s.len() && s[i] == c;
            assert(lower(s)[i] == c);
        }
        if lower(s).contains(c) {
            let i = choose|i: int| 0 <= i < s.len() && lower(s)[i] == c;
            assert(s[i] == c);
        }
    }
}

proof fn lemma_lower_ext(path: Seq<char>)
    ensures
        ext_of(name_of(lower(path))) == lower(ext_of(name_of(path))),
{
    lemma_lower_after_last(path, '/');
    lemma_lower_after_last(name_of(path), '.');
    assert(lower(Seq::<char>::empty()) =~= Seq::<char>::empty());
}

/// The kind of a file does not depend on the case of its letters.
pub proof fn kinds_ignore_case(a: Seq<char>, b: Seq<char>, is_folder: bool)
    requires
        lower(a) == lower(b),
    ensures
        ext_and_kind(a, is_folder).1 == ext_and_kind(b, is_folder).1,
{
    lemma_lower_ext(a);
    lemma_lower_ext(b);
}

proof fn lemma_after_last_ends(s: Seq<char>, c: char)
    ensures
        after_last(s, c).len() <= s.len(),
        after_last(s, c) == s.skip(s.len() - after_last(s, c).len()),
        !after_last(s, c).contains(c),
        s.contains(c) ==> after_last(s, c).len() < s.len() && s[s.len() - after_last(s, c).len() - 1] == c,
        !s.contains(c) ==> after_last(s, c) == s,
    decreases s.len(),
{
    let r = after_last(s, c);
    if s.len() == 0 {
        assert(r =~= s);
        assert(s.skip(0) =~= s);
    } else if s.last() == c {
        assert(s.skip(s.len() as int) =~= r);
        assert(s.contains(s[s.len() - 1]));
    } else {
        let t = s.drop_last();
        lemma_after_last_ends(t, c);
        let q = after_last(t, c);
        assert(s.skip(s.len() - r.len()) =~= t.skip(t.len() - q.len()).push(s.last()));
        if s.contains(c) {
            let i = choose|i: int| 0 <= i < s.len() && s[i] == c;
            assert(t[i] == c);
        } else {
            assert(!t.contains(c)) by {
                if t.contains(c) {
                    let i = choose|i: int| 0 <= i < t.len() && t[i] == c;
                    assert(s[i] == c);
                }
            }
            assert(r =~= s);
        }
        if r.contains(c) {
            let i = choose|i: int| 0 <= i < r.len() && r[i] == c;
            assert(q[i] == c);
        }
    }
}

/// The extension is what its path ends in: it stands behind the last dot of the last segment, as it
/// is written there, and is empty where that segment has none.
pub proof fn paths_end_in_their_extension(path: Seq<char>)
    ensures
        ({
            let (name, ext) = (name_of(path), ext_and_kind(path, false).0);
            &&& !ext.contains('.') && !ext.contains('/')
            &&& name.contains('.') ==> ends(path, "."@ + ext)
            &&& !name.contains('.') ==> ext.len() == 0
        }),
{
    reveal_strlit(".");
    let name = name_of(path);
    let ext = ext_of(name);
    lemma_after_last_ends(path, '/');
    lemma_after_last_ends(name, '.');
    if ext.contains('/') {
        let i = choose|i: int| 0 <= i < ext.len() && ext[i] == '/';
        assert(name[name.len() - ext.len() + i] == '/');
    }
    if name.contains('.') {
        let at = path.len() - ext.len() - 1;
        assert(name[name.len() - ext.len() - 1] == path[at]);
        assert forall|i: int| 0 <= i < ext.len() implies path[at + 1 + i] == #[trigger] ext[i] by {
            assert(name[name.len() - ext.len() + i] == ext[i]);
            assert(path[path.len() - name.len() + (name.len() - ext.len() + i)] == name[name.len() - ext.len() + i]);
        }
        assert(path.subrange(at, at + 1 + ext.len()) =~= "."@ + ext);
    }
}

/// Only a folder is of the kind `folder`; it has no extension.
pub proof fn only_folders_are_folders(path: Seq<char>, is_folder: bool)
    ensures
        ext_and_kind(path, is_folder).1 == "folder"@ <==> is_folder,
        is_folder ==> ext_and_kind(path, is_folder).0.len() == 0,
{
    reveal_strlit("prefab");
    reveal_strlit("material");
    reveal_strlit("shader");
    reveal_strlit("texture");
    reveal_strlit("model");
    reveal_strlit("audio");
    reveal_strlit("animation");
    reveal_strlit("scene");
    reveal_strlit("script");
    reveal_strlit("asset");
    reveal_strlit("font");
    reveal_strlit("ui");
    reveal_strlit("video");
    reveal_strlit("doc");
    reveal_strlit("data");
    reveal_strlit("vfx");
    reveal_strlit("folder");
    reveal_strlit("other");
    if !is_folder {
        let k = ext_and_kind(path, false).1;
        assert(k.len() == 6 ==> k[0] != 'f');
    }
}

} // verus!
