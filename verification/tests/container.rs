use shader_patch::bytes::{found_in, replace_bytes};
use shader_patch::container::{
    can_patch, lightmaps_due, patch_material, process_material, samplers_due, Action, Event, Phase,
};
use shader_patch::fixes::{anchor, fix_code, insert, wanted, Fix, Outcome};
use shader_patch::material::{Material, Note, Pass, ShaderCode, Stage, Variant};
use shader_patch::version::{Detection, Version, VersionCache};
use shader_patch::walker::{
    apply_fix, handle_lightmaps, handle_samplers, pass_covered, ready, shader_covered,
};

const LIGHTMAP_INSERT: &[u8] = b"
#define a_texcoord1 vec2(fract(a_texcoord1.x*15.9375)+0.0001,floor(a_texcoord1.x*15.9375)*0.0625+0.0001)
void main";

const SAMPLER_INSERT: &[u8] = b"
#if __VERSION__ >= 300
 #define texture(tex,uv) textureLod(tex,uv,0.0)
#else
 #define texture2D(tex,uv) texture2DLod(tex,uv,0.0)
#endif
void main ()";

const VERTEX_SOURCE: &str =
    "attribute vec2 a_texcoord1;\nvarying vec2 v_lightmapUV;\nvoid main ()\n{\n  v_lightmapUV = a_texcoord1;\n}\n";

const VERTEX_PATCHED: &str =
    "attribute vec2 a_texcoord1;\nvarying vec2 v_lightmapUV;\n\n#define a_texcoord1 vec2(fract(a_texcoord1.x*15.9375)+0.0001,floor(a_texcoord1.x*15.9375)*0.0625+0.0001)\nvoid main ()\n{\n  v_lightmapUV = a_texcoord1;\n}\n";

const FRAGMENT_SOURCE: &str = "uniform sampler2D s_tex;\nvoid main ()\n{\n  gl_FragColor = texture2D(s_tex, uv);\n}\nvoid main ()\n";

const FRAGMENT_PATCHED: &str = "uniform sampler2D s_tex;\n\n#if __VERSION__ >= 300\n #define texture(tex,uv) textureLod(tex,uv,0.0)\n#else\n #define texture2D(tex,uv) texture2DLod(tex,uv,0.0)\n#endif\nvoid main ()\n{\n  gl_FragColor = texture2D(s_tex, uv);\n}\nvoid main ()\n";

fn occurrences(hay: &[u8], needle: &[u8]) -> usize {
    (0..=hay.len()).filter(|&i| hay[i..].starts_with(needle)).count()
}

fn shader(stage: Stage, platform: &str, code: Option<&str>) -> ShaderCode {
    ShaderCode {
        stage,
        platform_name: platform.to_string(),
        code: code.map(|c| c.as_bytes().to_vec()),
        note: None,
    }
}

fn pass(name: &str, shaders: Vec<ShaderCode>) -> Pass {
    Pass {
        name: name.to_string(),
        variants: vec![Variant { shader_codes: shaders.clone() }, Variant { shader_codes: shaders }],
    }
}

fn material(name: &str) -> Material {
    let shaders = vec![
        shader(Stage::Vertex, "ESSL_100", Some(VERTEX_SOURCE)),
        shader(Stage::Fragment, "ESSL_100", Some(FRAGMENT_SOURCE)),
        shader(Stage::Fragment, "ESSL_300", Some(FRAGMENT_SOURCE)),
        shader(Stage::Compute, "ESSL_100", None),
        shader(Stage::Unknown, "ESSL_100", Some(VERTEX_SOURCE)),
    ];
    Material {
        name: name.to_string(),
        passes: vec![
            pass("Opaque", shaders.clone()),
            pass("Transparent", shaders.clone()),
            pass("AlphaTest", shaders),
            Pass { name: "Empty".to_string(), variants: vec![] },
        ],
    }
}

fn sources(material: &Material) -> Vec<Option<Vec<u8>>> {
    let mut all = Vec::new();
    for pass in &material.passes {
        for variant in &pass.variants {
            for shader in &variant.shader_codes {
                all.push(shader.code.clone());
            }
        }
    }
    all
}

fn noted(fix: Fix, outcome: Outcome) -> Option<Note> {
    Some(Note { fix, outcome })
}

fn code_of(material: &Material, pass: usize, variant: usize, shader: usize) -> String {
    let code = material.passes[pass].variants[variant].shader_codes[shader].code.clone().unwrap();
    String::from_utf8(code).unwrap()
}

#[test]
fn first_occurrence_is_replaced() {
    let mut buffer = b"a void main b void main".to_vec();
    assert!(replace_bytes(&mut buffer, b"void main", b"X"));
    assert_eq!(buffer, b"a X b void main".to_vec());
    let mut at_start = b"abcabc".to_vec();
    assert!(replace_bytes(&mut at_start, b"abc", b"xy"));
    assert_eq!(at_start, b"xyabc".to_vec());
    let mut at_end = b"xxabc".to_vec();
    assert!(replace_bytes(&mut at_end, b"abc", b""));
    assert_eq!(at_end, b"xx".to_vec());
    let mut overlapping = b"aaa".to_vec();
    assert!(replace_bytes(&mut overlapping, b"aa", b"b"));
    assert_eq!(overlapping, b"ba".to_vec());
}

#[test]
fn buffer_without_pattern_stays() {
    let mut buffer = b"void mains".to_vec();
    assert!(!replace_bytes(&mut buffer, b"void main ()", b"X"));
    assert_eq!(buffer, b"void mains".to_vec());
    let mut empty: Vec<u8> = Vec::new();
    assert!(!replace_bytes(&mut empty, b"x", b"y"));
    assert!(empty.is_empty());
}

#[test]
fn empty_pattern_stands_at_the_start() {
    let mut buffer = b"abc".to_vec();
    assert!(replace_bytes(&mut buffer, b"", b"-"));
    assert_eq!(buffer, b"-abc".to_vec());
}

#[test]
fn large_buffer_is_searched_too() {
    let mut buffer = vec![b'x'; 1000];
    buffer.extend_from_slice(b"void main");
    buffer.extend(vec![b'y'; 1000]);
    assert!(found_in(&buffer, b"void main"));
    assert!(!found_in(&buffer, b"void main ()"));
    assert!(replace_bytes(&mut buffer, b"void main", b"!"));
    assert_eq!(buffer.len(), 2001);
    assert_eq!(buffer[1000], b'!');
}

#[test]
fn inserts_are_the_fixed_texts() {
    assert_eq!(insert(Fix::Lightmap), LIGHTMAP_INSERT.to_vec());
    assert_eq!(insert(Fix::Sampler), SAMPLER_INSERT.to_vec());
    assert_eq!(anchor(Fix::Lightmap), b"void main");
    assert_eq!(anchor(Fix::Sampler), b"void main ()");
}

#[test]
fn lightmap_fix_acts_on_unpatched_defect_only() {
    assert!(wanted(Fix::Lightmap, VERTEX_SOURCE.as_bytes()));
    assert!(wanted(Fix::Lightmap, b"v_lightmapUV=a_texcoord1;"));
    assert!(!wanted(Fix::Lightmap, b"v_lightmapUV  =  a_texcoord1;"));
    assert!(!wanted(Fix::Lightmap, b"void main () {}"));
    assert!(!wanted(Fix::Lightmap, VERTEX_PATCHED.as_bytes()));
    assert!(!wanted(Fix::Lightmap, b"#define a_texcoord1 x\nv_lightmapUV=a_texcoord1;"));
    assert!(wanted(Fix::Lightmap, b"#define a_texcoord1\nv_lightmapUV=a_texcoord1;"));
    assert!(wanted(Fix::Sampler, b""));
    assert!(wanted(Fix::Sampler, SAMPLER_INSERT));
}

#[test]
fn lightmap_marker_is_gained_once() {
    let mut code = VERTEX_SOURCE.as_bytes().to_vec();
    assert_eq!(fix_code(Fix::Lightmap, &mut code), Outcome::Patched);
    assert_eq!(String::from_utf8(code.clone()).unwrap(), VERTEX_PATCHED);
    assert_eq!(occurrences(&code, b"#define a_texcoord1 "), 1);
    let patched = code.clone();
    assert_eq!(fix_code(Fix::Lightmap, &mut code), Outcome::Skipped);
    assert_eq!(code, patched);
}

#[test]
fn lightmap_fix_skips_a_source_without_the_defect() {
    let mut code = b"void main () { gl_Position = p; }".to_vec();
    let before = code.clone();
    assert_eq!(fix_code(Fix::Lightmap, &mut code), Outcome::Skipped);
    assert_eq!(code, before);
}

#[test]
fn lightmap_fix_without_entry_leaves_the_source() {
    let mut code = b"v_lightmapUV = a_texcoord1;".to_vec();
    let before = code.clone();
    assert_eq!(fix_code(Fix::Lightmap, &mut code), Outcome::Unmatched);
    assert_eq!(code, before);
}

#[test]
fn sampler_fix_patches_the_first_entry_each_time() {
    let mut code = FRAGMENT_SOURCE.as_bytes().to_vec();
    assert_eq!(fix_code(Fix::Sampler, &mut code), Outcome::Patched);
    assert_eq!(String::from_utf8(code.clone()).unwrap(), FRAGMENT_PATCHED);
    assert_eq!(fix_code(Fix::Sampler, &mut code), Outcome::Patched);
    assert_eq!(occurrences(&code, b"#if __VERSION__ >= 300"), 2);
    let mut other = b"void main()".to_vec();
    assert_eq!(fix_code(Fix::Sampler, &mut other), Outcome::Unmatched);
    assert_eq!(other, b"void main()".to_vec());
}

#[test]
fn fixes_cover_their_shaders() {
    assert!(pass_covered(Fix::Lightmap, "Transparent"));
    assert!(pass_covered(Fix::Sampler, "AlphaTest"));
    assert!(pass_covered(Fix::Sampler, "Opaque"));
    assert!(!pass_covered(Fix::Sampler, "Transparent"));
    assert!(!pass_covered(Fix::Sampler, "opaque"));
    assert!(shader_covered(Fix::Lightmap, &shader(Stage::Vertex, "Direct3D_SM65", None)));
    assert!(!shader_covered(Fix::Lightmap, &shader(Stage::Fragment, "ESSL_100", None)));
    assert!(shader_covered(Fix::Sampler, &shader(Stage::Fragment, "ESSL_100", None)));
    assert!(!shader_covered(Fix::Sampler, &shader(Stage::Fragment, "ESSL_300", None)));
    assert!(!shader_covered(Fix::Sampler, &shader(Stage::Vertex, "ESSL_100", None)));
}

#[test]
fn lightmaps_patch_every_vertex_shader() {
    let before = material("RenderChunk");
    let mut after = before.clone();
    handle_lightmaps(&mut after);
    assert_eq!(after.name, before.name);
    for p in 0..before.passes.len() {
        assert_eq!(after.passes[p].name, before.passes[p].name);
        for v in 0..before.passes[p].variants.len() {
            for s in 0..5 {
                let old = &before.passes[p].variants[v].shader_codes[s];
                let new = &after.passes[p].variants[v].shader_codes[s];
                if s == 0 {
                    assert_eq!(code_of(&after, p, v, s), VERTEX_PATCHED);
                    assert_eq!(new.note, noted(Fix::Lightmap, Outcome::Patched));
                    assert_eq!(new.stage, old.stage);
                    assert_eq!(new.platform_name, old.platform_name);
                    let code = new.code.clone().unwrap();
                    assert_eq!(occurrences(&code, b"#define a_texcoord1 "), 1);
                } else {
                    assert_eq!(new, old);
                }
            }
        }
    }
    let once = after.clone();
    handle_lightmaps(&mut after);
    assert_eq!(sources(&after), sources(&once));
    assert_eq!(after.passes[0].variants[0].shader_codes[0].note, noted(Fix::Lightmap, Outcome::Skipped));
    assert_eq!(after.passes[0].variants[0].shader_codes[1].note, None);
}

#[test]
fn samplers_patch_two_passes_on_one_platform() {
    let before = material("RenderChunk");
    let mut after = before.clone();
    handle_samplers(&mut after);
    for p in 0..before.passes.len() {
        for v in 0..before.passes[p].variants.len() {
            for s in 0..5 {
                let old = &before.passes[p].variants[v].shader_codes[s];
                let new = &after.passes[p].variants[v].shader_codes[s];
                if s == 1 && (p == 0 || p == 2) {
                    assert_eq!(code_of(&after, p, v, s), FRAGMENT_PATCHED);
                    assert_eq!(new.note, noted(Fix::Sampler, Outcome::Patched));
                } else {
                    assert_eq!(new, old);
                }
            }
        }
    }
}

#[test]
fn unmatched_source_is_written_back_as_it_was() {
    let mut m = Material {
        name: "RenderChunk".to_string(),
        passes: vec![Pass {
            name: "Opaque".to_string(),
            variants: vec![Variant {
                shader_codes: vec![
                    shader(Stage::Vertex, "ESSL_100", Some("v_lightmapUV=a_texcoord1;")),
                    shader(Stage::Vertex, "ESSL_100", Some("gl_Position = p;")),
                    shader(Stage::Fragment, "ESSL_100", Some("void main()")),
                ],
            }],
        }],
    };
    apply_fix(Fix::Lightmap, &mut m);
    apply_fix(Fix::Sampler, &mut m);
    let shaders = &m.passes[0].variants[0].shader_codes;
    assert_eq!(shaders[0].code, Some(b"v_lightmapUV=a_texcoord1;".to_vec()));
    assert_eq!(shaders[0].note, noted(Fix::Lightmap, Outcome::Unmatched));
    assert_eq!(shaders[1].code, Some(b"gl_Position = p;".to_vec()));
    assert_eq!(shaders[1].note, noted(Fix::Lightmap, Outcome::Skipped));
    assert_eq!(shaders[2].code, Some(b"void main()".to_vec()));
    assert_eq!(shaders[2].note, noted(Fix::Sampler, Outcome::Unmatched));
}

#[test]
fn undecoded_target_makes_a_material_unready() {
    let mut m = material("RenderChunk");
    assert!(ready(Fix::Lightmap, &m));
    assert!(ready(Fix::Sampler, &m));
    m.passes[1].variants[1].shader_codes[0].code = None;
    assert!(!ready(Fix::Lightmap, &m));
    assert!(ready(Fix::Sampler, &m));
    assert!(!can_patch(&m, Version::V1_18_30, Version::V1_21_110, true));
    assert!(can_patch(&m, Version::V1_18_30, Version::V1_21_110, false));
    assert!(can_patch(&m, Version::V1_21_110, Version::V1_21_110, true));
    let mut other = material("RenderChunk");
    other.passes[1].variants[0].shader_codes[1].code = None;
    assert!(ready(Fix::Sampler, &other));
    other.passes[2].variants[0].shader_codes[1].code = None;
    assert!(!ready(Fix::Sampler, &other));
    assert!(ready(Fix::Lightmap, &other));
    assert!(!can_patch(&other, Version::V1_18_30, Version::V1_20_80, false));
    assert!(can_patch(&other, Version::V1_20_80, Version::V1_20_80, false));
    other.name = "Sky".to_string();
    assert!(can_patch(&other, Version::V1_18_30, Version::V1_20_80, true));
}

#[test]
fn lightmap_fix_is_due_for_terrain_on_recent_engines() {
    for version in [Version::V1_18_30, Version::V1_19_60, Version::V1_20_80, Version::V1_21_20] {
        assert!(lightmaps_due("RenderChunk", version, true));
        assert!(lightmaps_due("RenderChunkPrepass", version, true));
        assert!(!lightmaps_due("RenderChunk", version, false));
        assert!(!lightmaps_due("Sky", version, true));
    }
    assert!(!lightmaps_due("RenderChunk", Version::V1_21_110, true));
    assert!(!lightmaps_due("RenderChunkPrepass", Version::V1_21_110, true));
}

#[test]
fn sampler_fix_is_due_for_old_terrain_on_new_engines() {
    let all = [
        Version::V1_18_30,
        Version::V1_19_60,
        Version::V1_20_80,
        Version::V1_21_20,
        Version::V1_21_110,
    ];
    for decoded_as in all {
        for detected in all {
            let old = decoded_as == Version::V1_18_30 || decoded_as == Version::V1_19_60;
            let new = detected != Version::V1_18_30 && detected != Version::V1_19_60;
            assert_eq!(samplers_due("RenderChunk", decoded_as, detected), old && new);
            assert!(!samplers_due("RenderChunkPrepass", decoded_as, detected));
        }
    }
}

#[test]
fn render_chunk_from_a_legacy_revision_gains_the_macro_once() {
    let mut m = material("RenderChunk");
    patch_material(&mut m, Version::V1_20_80, Version::V1_21_110, true);
    let mut expected = material("RenderChunk");
    handle_lightmaps(&mut expected);
    assert_eq!(m, expected);
    assert_eq!(code_of(&m, 1, 0, 0), VERTEX_PATCHED);
    assert_eq!(code_of(&m, 0, 0, 1), FRAGMENT_SOURCE);
    let once = m.clone();
    patch_material(&mut m, Version::V1_20_80, Version::V1_21_110, true);
    assert_eq!(sources(&m), sources(&once));
    let code = m.passes[1].variants[0].shader_codes[0].code.clone().unwrap();
    assert_eq!(occurrences(&code, b"#define a_texcoord1 "), 1);
}

#[test]
fn oldest_terrain_gets_both_fixes() {
    let mut m = material("RenderChunk");
    patch_material(&mut m, Version::V1_18_30, Version::V1_21_110, true);
    assert_eq!(code_of(&m, 0, 0, 0), VERTEX_PATCHED);
    assert_eq!(code_of(&m, 0, 1, 1), FRAGMENT_PATCHED);
    assert_eq!(code_of(&m, 1, 0, 1), FRAGMENT_SOURCE);
    assert_eq!(code_of(&m, 2, 0, 2), FRAGMENT_SOURCE);
    let mut only_samplers = material("RenderChunk");
    patch_material(&mut only_samplers, Version::V1_19_60, Version::V1_20_80, false);
    assert_eq!(code_of(&only_samplers, 0, 0, 0), VERTEX_SOURCE);
    assert_eq!(code_of(&only_samplers, 2, 0, 1), FRAGMENT_PATCHED);
    let mut prepass = material("RenderChunkPrepass");
    patch_material(&mut prepass, Version::V1_18_30, Version::V1_21_110, true);
    assert_eq!(code_of(&prepass, 0, 0, 0), VERTEX_PATCHED);
    assert_eq!(code_of(&prepass, 0, 0, 1), FRAGMENT_SOURCE);
}

#[test]
fn other_materials_are_left_alone() {
    let all = [
        Version::V1_18_30,
        Version::V1_19_60,
        Version::V1_20_80,
        Version::V1_21_20,
        Version::V1_21_110,
    ];
    for name in ["Sky", "", "renderchunk", "RenderChunkX", "Actor"] {
        for decoded_as in all {
            for detected in all {
                for recent in [false, true] {
                    let before = material(name);
                    let mut after = before.clone();
                    patch_material(&mut after, decoded_as, detected, recent);
                    assert_eq!(after, before);
                }
            }
        }
    }
}

#[test]
fn newest_revision_is_left_alone() {
    let before = material("RenderChunk");
    let mut after = before.clone();
    patch_material(&mut after, Version::V1_21_110, Version::V1_21_110, true);
    assert_eq!(after, before);
}

const ORDER: [Version; 3] = [Version::V1_21_110, Version::V1_20_80, Version::V1_18_30];

fn found(version: Version) -> Detection {
    Detection { version: Some(version), recent: true }
}

#[test]
fn revisions_are_tried_in_order_until_one_decodes() {
    let d = found(Version::V1_21_20);
    let (phase, action) = process_material(Phase::Idle, Event::Begin, &ORDER, d);
    assert_eq!((phase, action), (Phase::Decoding(0), Action::Decode(Version::V1_21_110)));
    let (phase, action) = process_material(phase, Event::DecodeFailed, &ORDER, d);
    assert_eq!((phase, action), (Phase::Decoding(1), Action::Decode(Version::V1_20_80)));
    let (phase, action) = process_material(phase, Event::Decoded, &ORDER, d);
    assert_eq!(
        (phase, action),
        (
            Phase::Encoding,
            Action::PatchAndEncode { decoded_as: Version::V1_20_80, target: Version::V1_21_20 }
        )
    );
    let (phase, action) = process_material(phase, Event::Encoded, &ORDER, d);
    assert_eq!((phase, action), (Phase::Finished, Action::Deliver));
}

#[test]
fn artifact_that_never_decodes_is_abandoned() {
    let d = found(Version::V1_21_20);
    let mut step = process_material(Phase::Idle, Event::Begin, &ORDER, d);
    let mut tried = vec![];
    while let Action::Decode(version) = step.1 {
        tried.push(version);
        step = process_material(step.0, Event::DecodeFailed, &ORDER, d);
    }
    assert_eq!(tried, ORDER.to_vec());
    assert_eq!(step, (Phase::Finished, Action::Abandon));
}

#[test]
fn failed_encoding_abandons_the_artifact() {
    let d = found(Version::V1_21_20);
    assert_eq!(
        process_material(Phase::Encoding, Event::EncodeFailed, &ORDER, d),
        (Phase::Finished, Action::Abandon)
    );
}

#[test]
fn nothing_is_done_without_a_detected_release() {
    let d = Detection { version: None, recent: true };
    for phase in [Phase::Idle, Phase::Decoding(0), Phase::Encoding, Phase::Finished] {
        for event in
            [Event::Begin, Event::DecodeFailed, Event::Decoded, Event::EncodeFailed, Event::Encoded]
        {
            assert_eq!(
                process_material(phase, event, &ORDER, d),
                (Phase::Finished, Action::Abandon)
            );
        }
    }
    let d = found(Version::V1_18_30);
    assert_eq!(
        process_material(Phase::Idle, Event::Begin, &[], d),
        (Phase::Finished, Action::Abandon)
    );
}

#[test]
fn report_out_of_turn_abandons_the_artifact() {
    let d = found(Version::V1_21_20);
    let abandoned = (Phase::Finished, Action::Abandon);
    assert_eq!(process_material(Phase::Idle, Event::Decoded, &ORDER, d), abandoned);
    assert_eq!(process_material(Phase::Decoding(1), Event::Begin, &ORDER, d), abandoned);
    assert_eq!(process_material(Phase::Decoding(1), Event::Encoded, &ORDER, d), abandoned);
    assert_eq!(process_material(Phase::Decoding(3), Event::Decoded, &ORDER, d), abandoned);
    assert_eq!(process_material(Phase::Decoding(2), Event::DecodeFailed, &ORDER, d), abandoned);
    assert_eq!(
        process_material(Phase::Decoding(usize::MAX), Event::DecodeFailed, &ORDER, d),
        abandoned
    );
    assert_eq!(process_material(Phase::Encoding, Event::Decoded, &ORDER, d), abandoned);
    assert_eq!(process_material(Phase::Finished, Event::Begin, &ORDER, d), abandoned);
}

#[test]
fn version_cell_is_settled_once() {
    let mut cell = VersionCache::new();
    assert_eq!(cell.get(), None);
    assert_eq!(cell.version(), None);
    assert!(!cell.is_recent());
    let first = Detection { version: Some(Version::V1_21_20), recent: true };
    let second = Detection { version: Some(Version::V1_18_30), recent: false };
    assert_eq!(cell.settle(first), first);
    assert_eq!(cell.settle(second), first);
    assert_eq!(cell.get(), Some(first));
    assert_eq!(cell.version(), Some(Version::V1_21_20));
    assert!(cell.is_recent());
    let mut none = VersionCache::new();
    let nothing = Detection { version: None, recent: false };
    assert_eq!(none.settle(nothing), nothing);
    assert_eq!(none.settle(first), nothing);
    assert_eq!(none.version(), None);
    assert!(!none.is_recent());
}
