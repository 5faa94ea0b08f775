//! Walking a material: every shader that a fix is meant for is patched in
//! place, every other one is left alone.

use crate::fixes::{fix_code, fixed_code, lemma_lightmap_fix_idempotent, outcome_of, Fix};
use crate::material::{
    Material, MaterialView, Note, Pass, PassView, ShaderCode, ShaderCodeView, Stage, Variant,
    VariantView,
};
use crate::text::same_str;
use vstd::prelude::*;

verus! {

/// The platform whose fragment shaders the sampler fix patches.
pub const SAMPLER_PLATFORM: &'static str = "ESSL_100";

/// The first of the two passes that the sampler fix patches.
pub const ALPHA_TEST_PASS: &'static str = "AlphaTest";

/// The second of the two passes that the sampler fix patches.
pub const OPAQUE_PASS: &'static str = "Opaque";

/// Whether `fix` patches shaders of the pass named `pass`. The light map fix
/// patches every pass, the sampler fix two of them.
pub open spec fn covers_pass(fix: Fix, pass: Seq<char>) -> bool {
    match fix {
        Fix::Lightmap => true,
        Fix::Sampler => pass == ALPHA_TEST_PASS@ || pass == OPAQUE_PASS@,
    }
}

/// Whether `fix` patches the shader `shader` of a pass that it covers. The
/// light map fix patches vertex shaders, the sampler fix the fragment
/// shaders of one platform.
pub open spec fn covers_shader(fix: Fix, shader: ShaderCodeView) -> bool {
    match fix {
        Fix::Lightmap => shader.stage == Stage::Vertex,
        Fix::Sampler => shader.stage == Stage::Fragment && shader.platform_name
            == SAMPLER_PLATFORM@,
    }
}

/// Whether the shader can be patched: it is none that `fix` patches, or its
/// source was decoded.
pub open spec fn shader_ready(fix: Fix, shader: ShaderCodeView) -> bool {
    covers_shader(fix, shader) ==> shader.code is Some
}

/// Whether every shader of the variant can be patched.
pub open spec fn variant_ready(fix: Fix, variant: VariantView) -> bool {
    forall|i: int|
        0 <= i < variant.shader_codes.len() ==> shader_ready(fix, #[trigger] variant.shader_codes[i])
}

/// Whether every shader of the pass can be patched.
pub open spec fn pass_ready(fix: Fix, pass: PassView) -> bool {
    covers_pass(fix, pass.name) ==> forall|i: int|
        0 <= i < pass.variants.len() ==> variant_ready(fix, #[trigger] pass.variants[i])
}

/// Whether every shader of the material can be patched.
pub open spec fn material_ready(fix: Fix, material: MaterialView) -> bool {
    forall|i: int| 0 <= i < material.passes.len() ==> pass_ready(fix, #[trigger] material.passes[i])
}

/// The shader after `fix`, in a pass that the fix covers: where the fix is
/// meant for it, its source is patched and what the fix did is noted.
pub open spec fn fixed_shader(fix: Fix, shader: ShaderCodeView) -> ShaderCodeView {
    if covers_shader(fix, shader) && shader.code is Some {
        ShaderCodeView {
            code: Some(fixed_code(fix, shader.code->0)),
            note: Some(Note { fix, outcome: outcome_of(fix, shader.code->0) }),
            ..shader
        }
    } else {
        shader
    }
}

/// The variant after `fix`, in a pass that the fix covers.
pub open spec fn fixed_variant(fix: Fix, variant: VariantView) -> VariantView {
    VariantView {
        shader_codes: Seq::new(
            variant.shader_codes.len(),
            |i: int| fixed_shader(fix, variant.shader_codes[i]),
        ),
    }
}

/// The pass after `fix`.
pub open spec fn fixed_pass(fix: Fix, pass: PassView) -> PassView {
    if covers_pass(fix, pass.name) {
        PassView {
            name: pass.name,
            variants: Seq::new(pass.variants.len(), |i: int| fixed_variant(fix, pass.variants[i])),
        }
    } else {
        pass
    }
}

/// The material after `fix`.
pub open spec fn fixed_material(fix: Fix, material: MaterialView) -> MaterialView {
    MaterialView {
        name: material.name,
        passes: Seq::new(material.passes.len(), |i: int| fixed_pass(fix, material.passes[i])),
    }
}

/// The material with every note taken off.
pub open spec fn without_notes(material: MaterialView) -> MaterialView {
    MaterialView {
        name: material.name,
        passes: Seq::new(
            material.passes.len(),
            |p: int|
                PassView {
                    name: material.passes[p].name,
                    variants: Seq::new(
                        material.passes[p].variants.len(),
                        |v: int|
                            VariantView {
                                shader_codes: Seq::new(
                                    material.passes[p].variants[v].shader_codes.len(),
                                    |s: int|
                                        ShaderCodeView {
                                            note: None,
                                            ..material.passes[p].variants[v].shader_codes[s]
                                        },
                                ),
                            },
                    ),
                },
        ),
    }
}

/// Applying the light map fix to a material a second time changes no source:
/// but for the notes the material stays as it is.
pub proof fn lemma_lightmaps_idempotent(material: MaterialView)
    ensures
        without_notes(fixed_material(Fix::Lightmap, fixed_material(Fix::Lightmap, material)))
            == without_notes(fixed_material(Fix::Lightmap, material)),
{
    let fix = Fix::Lightmap;
    let once = fixed_material(fix, material);
    let twice = fixed_material(fix, once);
    let a = without_notes(twice);
    let b = without_notes(once);
    assert forall|p: int| 0 <= p < b.passes.len() implies a.passes[p] == b.passes[p] by {
        let pass = once.passes[p];
        assert(twice.passes[p] == fixed_pass(fix, pass));
        assert forall|v: int| 0 <= v < pass.variants.len() implies a.passes[p].variants[v]
            == b.passes[p].variants[v] by {
            let variant = pass.variants[v];
            assert forall|s: int| 0 <= s < variant.shader_codes.len() implies a.passes[p].variants[v].shader_codes[s]
                == b.passes[p].variants[v].shader_codes[s] by {
                let first = material.passes[p].variants[v].shader_codes[s];
                if covers_pass(fix, pass.name) {
                    assert(variant.shader_codes[s] == fixed_shader(fix, first));
                    assert(twice.passes[p].variants[v].shader_codes[s] == fixed_shader(
                        fix,
                        variant.shader_codes[s],
                    ));
                    if covers_shader(fix, first) && first.code is Some {
                        lemma_lightmap_fix_idempotent(first.code->0);
                    }
                }
            }
            assert(a.passes[p].variants[v].shader_codes =~= b.passes[p].variants[v].shader_codes);
        }
        assert(a.passes[p].variants =~= b.passes[p].variants);
    }
    assert(a.passes =~= b.passes);
}

/// Whether `fix` patches shaders of the pass named `pass`.
pub fn pass_covered(fix: Fix, pass: &str) -> (r: bool)
    ensures
        r == covers_pass(fix, pass@),
{
    match fix {
        Fix::Lightmap => true,
        Fix::Sampler => same_str(pass, ALPHA_TEST_PASS) || same_str(pass, OPAQUE_PASS),
    }
}

/// Whether `fix` patches `shader` in a pass that it covers.
pub fn shader_covered(fix: Fix, shader: &ShaderCode) -> (r: bool)
    ensures
        r == covers_shader(fix, shader@),
{
    match fix {
        Fix::Lightmap => shader.stage == Stage::Vertex,
        Fix::Sampler => shader.stage == Stage::Fragment && same_str(
            shader.platform_name.as_str(),
            SAMPLER_PLATFORM,
        ),
    }
}

/// Whether every shader of the variant can be patched.
fn variant_is_ready(fix: Fix, variant: &Variant) -> (r: bool)
    ensures
        r == variant_ready(fix, variant@),
{
    let mut k: usize = 0;
    while k < variant.shader_codes.len()
        invariant
            k <= variant.shader_codes@.len(),
            forall|i: int| 0 <= i < k ==> shader_ready(fix, #[trigger] variant@.shader_codes[i]),
        decreases variant.shader_codes.len() - k,
    {
        let shader = &variant.shader_codes[k];
        if shader_covered(fix, shader) && shader.code.is_none() {
            assert(!shader_ready(fix, variant@.shader_codes[k as int]));
            return false;
        }
        assert(shader_ready(fix, variant@.shader_codes[k as int]));
        k += 1;
    }
    true
}

/// Whether every shader of the pass can be patched.
fn pass_is_ready(fix: Fix, pass: &Pass) -> (r: bool)
    ensures
        r == pass_ready(fix, pass@),
{
    if !pass_covered(fix, pass.name.as_str()) {
        return true;
    }
    let mut k: usize = 0;
    while k < pass.variants.len()
        invariant
            k <= pass.variants@.len(),
            covers_pass(fix, pass@.name),
            forall|i: int| 0 <= i < k ==> variant_ready(fix, #[trigger] pass@.variants[i]),
        decreases pass.variants.len() - k,
    {
        if !variant_is_ready(fix, &pass.variants[k]) {
            assert(!variant_ready(fix, pass@.variants[k as int]));
            return false;
        }
        assert(variant_ready(fix, pass@.variants[k as int]));
        k += 1;
    }
    true
}

/// Whether every shader of `material` that `fix` is meant for was decoded, so
/// that the fix can be applied.
pub fn ready(fix: Fix, material: &Material) -> (r: bool)
    ensures
        r == material_ready(fix, material@),
{
    let mut k: usize = 0;
    while k < material.passes.len()
        invariant
            k <= material.passes@.len(),
            forall|i: int| 0 <= i < k ==> pass_ready(fix, #[trigger] material@.passes[i]),
        decreases material.passes.len() - k,
    {
        if !pass_is_ready(fix, &material.passes[k]) {
            assert(!pass_ready(fix, material@.passes[k as int]));
            return false;
        }
        assert(pass_ready(fix, material@.passes[k as int]));
        k += 1;
    }
    true
}

/// Applies `fix` to one shader of a pass that the fix covers.
fn fix_shader(fix: Fix, shader: &mut ShaderCode)
    requires
        shader_ready(fix, old(shader)@),
    ensures
        final(shader)@ == fixed_shader(fix, old(shader)@),
{
    if !shader_covered(fix, shader) {
        return ;
    }
    let mut code = match shader.code.take() {
        Some(code) => code,
        None => { return ; },
    };
    let outcome = fix_code(fix, &mut code);
    shader.code = Some(code);
    shader.note = Some(Note { fix, outcome });
}

/// The shaders of a variant of which the first `k` are patched.
pub open spec fn shaders_fixed_to(fix: Fix, shaders: Seq<ShaderCodeView>, k: int) -> Seq<
    ShaderCodeView,
> {
    Seq::new(
        shaders.len(),
        |i: int|
            if i < k {
                fixed_shader(fix, shaders[i])
            } else {
                shaders[i]
            },
    )
}

/// Applies `fix` to the shaders of one variant of a pass that the fix covers.
fn fix_variant(fix: Fix, variant: &mut Variant)
    requires
        variant_ready(fix, old(variant)@),
    ensures
        final(variant)@ == fixed_variant(fix, old(variant)@),
{
    let ghost before = variant@.shader_codes;
    let mut k: usize = 0;
    assert(variant@.shader_codes =~= shaders_fixed_to(fix, before, 0));
    while k < variant.shader_codes.len()
        invariant
            k <= variant.shader_codes@.len(),
            variant.shader_codes@.len() == before.len(),
            before == old(variant)@.shader_codes,
            variant_ready(fix, old(variant)@),
            variant@.shader_codes == shaders_fixed_to(fix, before, k as int),
        decreases variant.shader_codes.len() - k,
    {
        let ghost prior = variant@.shader_codes;
        assert(prior[k as int] == before[k as int]);
        assert(shader_ready(fix, before[k as int]));
        fix_shader(fix, &mut variant.shader_codes[k]);
        assert forall|i: int| 0 <= i < before.len() implies variant@.shader_codes[i]
            == shaders_fixed_to(fix, before, k + 1)[i] by {
            if i != k {
                assert(variant@.shader_codes[i] == prior[i]);
            }
        }
        assert(variant@.shader_codes =~= shaders_fixed_to(fix, before, k + 1));
        k += 1;
    }
    assert(variant@.shader_codes =~= fixed_variant(fix, old(variant)@).shader_codes);
}

/// The variants of a pass of which the first `k` are patched.
pub open spec fn variants_fixed_to(fix: Fix, variants: Seq<VariantView>, k: int) -> Seq<
    VariantView,
> {
    Seq::new(
        variants.len(),
        |i: int|
            if i < k {
                fixed_variant(fix, variants[i])
            } else {
                variants[i]
            },
    )
}

/// Applies `fix` to one pass.
fn fix_pass(fix: Fix, pass: &mut Pass)
    requires
        pass_ready(fix, old(pass)@),
    ensures
        final(pass)@ == fixed_pass(fix, old(pass)@),
{
    if !pass_covered(fix, pass.name.as_str()) {
        return ;
    }
    let ghost before = pass@.variants;
    let mut k: usize = 0;
    assert(pass@.variants =~= variants_fixed_to(fix, before, 0));
    while k < pass.variants.len()
        invariant
            k <= pass.variants@.len(),
            pass.variants@.len() == before.len(),
            before == old(pass)@.variants,
            pass@.name == old(pass)@.name,
            covers_pass(fix, old(pass)@.name),
            pass_ready(fix, old(pass)@),
            pass@.variants == variants_fixed_to(fix, before, k as int),
        decreases pass.variants.len() - k,
    {
        let ghost prior = pass@.variants;
        assert(prior[k as int] == before[k as int]);
        assert(variant_ready(fix, before[k as int]));
        fix_variant(fix, &mut pass.variants[k]);
        assert forall|i: int| 0 <= i < before.len() implies pass@.variants[i]
            == variants_fixed_to(fix, before, k + 1)[i] by {
            if i != k {
                assert(pass@.variants[i] == prior[i]);
            }
        }
        assert(pass@.variants =~= variants_fixed_to(fix, before, k + 1));
        k += 1;
    }
    assert(pass@.variants =~= fixed_pass(fix, old(pass)@).variants);
}

/// The passes of a material of which the first `k` are patched.
pub open spec fn passes_fixed_to(fix: Fix, passes: Seq<PassView>, k: int) -> Seq<PassView> {
    Seq::new(
        passes.len(),
        |i: int|
            if i < k {
                fixed_pass(fix, passes[i])
            } else {
                passes[i]
            },
    )
}

/// Applies `fix` to every shader of `material` that it is meant for.
pub fn apply_fix(fix: Fix, material: &mut Material)
    requires
        material_ready(fix, old(material)@),
    ensures
        final(material)@ == fixed_material(fix, old(material)@),
{
    let ghost before = material@.passes;
    let mut k: usize = 0;
    assert(material@.passes =~= passes_fixed_to(fix, before, 0));
    while k < material.passes.len()
        invariant
            k <= material.passes@.len(),
            material.passes@.len() == before.len(),
            before == old(material)@.passes,
            material@.name == old(material)@.name,
            material_ready(fix, old(material)@),
            material@.passes == passes_fixed_to(fix, before, k as int),
        decreases material.passes.len() - k,
    {
        let ghost prior = material@.passes;
        assert(prior[k as int] == before[k as int]);
        assert(pass_ready(fix, before[k as int]));
        fix_pass(fix, &mut material.passes[k]);
        assert forall|i: int| 0 <= i < before.len() implies material@.passes[i]
            == passes_fixed_to(fix, before, k + 1)[i] by {
            if i != k {
                assert(material@.passes[i] == prior[i]);
            }
        }
        assert(material@.passes =~= passes_fixed_to(fix, before, k + 1));
        k += 1;
    }
    assert(material@.passes =~= fixed_material(fix, old(material)@).passes);
}

/// Rebuilds the light map coordinate in every vertex shader of `materialbin`
/// that shows the defect and is not patched yet.
pub fn handle_lightmaps(materialbin: &mut Material)
    requires
        material_ready(Fix::Lightmap, old(materialbin)@),
    ensures
        final(materialbin)@ == fixed_material(Fix::Lightmap, old(materialbin)@),
{
    apply_fix(Fix::Lightmap, materialbin)
}

/// Makes the fragment shaders of one platform, in the two passes that need
/// it, sample the base level of their textures.
pub fn handle_samplers(materialbin: &mut Material)
    requires
        material_ready(Fix::Sampler, old(materialbin)@),
    ensures
        final(materialbin)@ == fixed_material(Fix::Sampler, old(materialbin)@),
{
    apply_fix(Fix::Sampler, materialbin)
}

} // verus!
