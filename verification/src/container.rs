//! The container path: which fix a decoded material gets, and the steps by
//! which a host decodes, patches and encodes it.

use crate::fixes::Fix;
use crate::material::{Material, MaterialView};
use crate::text::same_str;
use crate::version::{Detection, Version};
use crate::walker::{
    covers_pass, fixed_material, lemma_lightmaps_idempotent, fixed_pass, fixed_variant, handle_lightmaps, handle_samplers,
    material_ready, pass_ready, ready, shader_ready, variant_ready, without_notes,
};
use vstd::prelude::*;

verus! {

/// The material of the terrain.
pub const RENDER_CHUNK: &'static str = "RenderChunk";

/// The material of the depth pass of the terrain.
pub const RENDER_CHUNK_PREPASS: &'static str = "RenderChunkPrepass";

/// Whether a material gets the light map fix: it is one of the two terrain
/// materials, it was not decoded as the newest release, and the running
/// engine is recent.
pub open spec fn wants_lightmaps(name: Seq<char>, decoded_as: Version, recent: bool) -> bool {
    (name == RENDER_CHUNK@ || name == RENDER_CHUNK_PREPASS@) && decoded_as != Version::V1_21_110
        && recent
}

/// Whether a material gets the sampler fix: it is the terrain material, it
/// was decoded as one of the two oldest releases, and the running engine is
/// one of the three newest.
pub open spec fn wants_samplers(name: Seq<char>, decoded_as: Version, detected: Version) -> bool {
    name == RENDER_CHUNK@ && (detected == Version::V1_20_80 || detected == Version::V1_21_20
        || detected == Version::V1_21_110) && (decoded_as == Version::V1_19_60 || decoded_as
        == Version::V1_18_30)
}

/// The material after the fixes that it gets, the light map fix first.
pub open spec fn routed(
    material: MaterialView,
    decoded_as: Version,
    detected: Version,
    recent: bool,
) -> MaterialView {
    let lit = if wants_lightmaps(material.name, decoded_as, recent) {
        fixed_material(Fix::Lightmap, material)
    } else {
        material
    };
    if wants_samplers(material.name, decoded_as, detected) {
        fixed_material(Fix::Sampler, lit)
    } else {
        lit
    }
}

/// Whether the material can be patched: every shader that a fix it gets is
/// meant for was decoded.
pub open spec fn routable(
    material: MaterialView,
    decoded_as: Version,
    detected: Version,
    recent: bool,
) -> bool {
    &&& wants_lightmaps(material.name, decoded_as, recent) ==> material_ready(
        Fix::Lightmap,
        material,
    )
    &&& wants_samplers(material.name, decoded_as, detected) ==> material_ready(
        Fix::Sampler,
        material,
    )
}

/// A fix leaves a material ready for any fix that it was ready for.
pub proof fn lemma_fix_keeps_ready(applied: Fix, other: Fix, material: MaterialView)
    requires
        material_ready(other, material),
    ensures
        material_ready(other, fixed_material(applied, material)),
{
    let after = fixed_material(applied, material);
    assert forall|p: int| 0 <= p < after.passes.len() implies pass_ready(
        other,
        #[trigger] after.passes[p],
    ) by {
        let pass = material.passes[p];
        assert(pass_ready(other, pass));
        assert(after.passes[p] == fixed_pass(applied, pass));
        if covers_pass(other, pass.name) && covers_pass(applied, pass.name) {
            let fixed = fixed_pass(applied, pass);
            assert forall|v: int| 0 <= v < fixed.variants.len() implies variant_ready(
                other,
                #[trigger] fixed.variants[v],
            ) by {
                let variant = pass.variants[v];
                assert(variant_ready(other, variant));
                let done = fixed_variant(applied, variant);
                assert forall|s: int| 0 <= s < done.shader_codes.len() implies shader_ready(
                    other,
                    #[trigger] done.shader_codes[s],
                ) by {
                    assert(shader_ready(other, variant.shader_codes[s]));
                }
            }
        }
    }
}

/// A material that is none of the terrain materials gets no fix: it stays as
/// it was decoded, whatever the releases are.
pub proof fn lemma_other_materials_untouched(
    material: MaterialView,
    decoded_as: Version,
    detected: Version,
    recent: bool,
)
    requires
        material.name != RENDER_CHUNK@,
        material.name != RENDER_CHUNK_PREPASS@,
    ensures
        routed(material, decoded_as, detected, recent) == material,
{
}

/// A material that has had the light map fix and is patched again, under
/// releases that ask for that fix alone, keeps every source as it is.
pub proof fn lemma_patched_material_stays(
    material: MaterialView,
    decoded_as: Version,
    detected: Version,
    recent: bool,
)
    requires
        wants_lightmaps(material.name, decoded_as, recent),
        !wants_samplers(material.name, decoded_as, detected),
    ensures
        without_notes(
            routed(routed(material, decoded_as, detected, recent), decoded_as, detected, recent),
        ) == without_notes(routed(material, decoded_as, detected, recent)),
{
    lemma_lightmaps_idempotent(material);
}

/// Whether the light map fix is due.
pub fn lightmaps_due(name: &str, decoded_as: Version, recent: bool) -> (r: bool)
    ensures
        r == wants_lightmaps(name@, decoded_as, recent),
{
    (same_str(name, RENDER_CHUNK) || same_str(name, RENDER_CHUNK_PREPASS)) && decoded_as
        != Version::V1_21_110 && recent
}

/// Whether the sampler fix is due.
pub fn samplers_due(name: &str, decoded_as: Version, detected: Version) -> (r: bool)
    ensures
        r == wants_samplers(name@, decoded_as, detected),
{
    same_str(name, RENDER_CHUNK) && (detected == Version::V1_20_80 || detected
        == Version::V1_21_20 || detected == Version::V1_21_110) && (decoded_as
        == Version::V1_19_60 || decoded_as == Version::V1_18_30)
}

/// Whether the material can be patched. Where it cannot, a shader that
/// is to be patched was not decoded.
pub fn can_patch(material: &Material, decoded_as: Version, detected: Version, recent: bool) -> (r:
    bool)
    ensures
        r == routable(material@, decoded_as, detected, recent),
{
    if lightmaps_due(material.name.as_str(), decoded_as, recent) && !ready(
        Fix::Lightmap,
        material,
    ) {
        return false;
    }
    if samplers_due(material.name.as_str(), decoded_as, detected) && !ready(
        Fix::Sampler,
        material,
    ) {
        return false;
    }
    true
}

/// Applies to a decoded material the fixes that it gets.
pub fn patch_material(
    material: &mut Material,
    decoded_as: Version,
    detected: Version,
    recent: bool,
)
    requires
        routable(old(material)@, decoded_as, detected, recent),
    ensures
        final(material)@ == routed(old(material)@, decoded_as, detected, recent),
{
    if lightmaps_due(material.name.as_str(), decoded_as, recent) {
        proof {
            if wants_samplers(material@.name, decoded_as, detected) {
                lemma_fix_keeps_ready(Fix::Lightmap, Fix::Sampler, material@);
            }
        }
        handle_lightmaps(material);
    }
    if samplers_due(material.name.as_str(), decoded_as, detected) {
        handle_samplers(material);
    }
}

/// How far the work on one artifact has come.
#[derive(Clone, Copy, Debug, PartialEq, Eq, Structural)]
pub enum Phase {
    /// Nothing was done yet.
    Idle,
    /// The revision at this place of the order is being tried.
    Decoding(usize),
    /// The patched material is being encoded.
    Encoding,
    /// The work has ended.
    Finished,
}

/// What the host reports.
#[derive(Clone, Copy, Debug, PartialEq, Eq, Structural)]
pub enum Event {
    /// An artifact has arrived.
    Begin,
    /// The bytes did not decode as the revision asked for.
    DecodeFailed,
    /// The bytes decoded as the revision asked for.
    Decoded,
    /// The material could not be encoded.
    EncodeFailed,
    /// The material was encoded.
    Encoded,
}

/// What the host is to do next.
#[derive(Clone, Copy, Debug, PartialEq, Eq, Structural)]
pub enum Action {
    /// Decode the bytes as this revision.
    Decode(Version),
    /// Patch the material that was decoded as `decoded_as`, then encode it
    /// for `target`.
    PatchAndEncode { decoded_as: Version, target: Version },
    /// Hand out the encoded bytes.
    Deliver,
    /// Leave the artifact as it came.
    Abandon,
}

/// The next phase and what the host is to do, given the phase, what the host
/// reports, the order in which the revisions are tried and the release that
/// was detected. The revisions are tried in their order until one decodes;
/// the material is then patched and encoded for the detected release. The
/// artifact is left as it came where no release was detected, where no
/// revision decodes, where encoding fails, and on a report that does not
/// belong to the phase.
pub open spec fn next_step(
    phase: Phase,
    event: Event,
    order: Seq<Version>,
    detected: Option<Version>,
) -> (Phase, Action) {
    match (phase, event, detected) {
        (Phase::Idle, Event::Begin, Some(_)) => if order.len() > 0 {
            (Phase::Decoding(0), Action::Decode(order[0]))
        } else {
            (Phase::Finished, Action::Abandon)
        },
        (Phase::Decoding(i), Event::DecodeFailed, Some(_)) => if i + 1 < order.len() {
            (Phase::Decoding((i + 1) as usize), Action::Decode(order[i + 1]))
        } else {
            (Phase::Finished, Action::Abandon)
        },
        (Phase::Decoding(i), Event::Decoded, Some(target)) => if i < order.len() {
            (Phase::Encoding, Action::PatchAndEncode { decoded_as: order[i as int], target })
        } else {
            (Phase::Finished, Action::Abandon)
        },
        (Phase::Encoding, Event::Encoded, Some(_)) => (Phase::Finished, Action::Deliver),
        _ => (Phase::Finished, Action::Abandon),
    }
}

/// The phase and the action after an artifact has arrived and the first
/// `failed` revisions that were tried did not decode.
pub open spec fn after_failures(order: Seq<Version>, detected: Option<Version>, failed: nat) -> (
    Phase,
    Action,
)
    decreases failed,
{
    if failed == 0 {
        next_step(Phase::Idle, Event::Begin, order, detected)
    } else {
        next_step(
            after_failures(order, detected, (failed - 1) as nat).0,
            Event::DecodeFailed,
            order,
            detected,
        )
    }
}

/// The revisions are tried one after the other in their order: while fewer
/// revisions have failed than there are, the next in the order is tried, and
/// once all have failed the artifact is left as it came.
pub proof fn lemma_revisions_tried_in_order(order: Seq<Version>, detected: Version, failed: nat)
    requires
        order.len() <= usize::MAX,
    ensures
        after_failures(order, Some(detected), failed) == if failed < order.len() {
            (Phase::Decoding(failed as usize), Action::Decode(order[failed as int]))
        } else {
            (Phase::Finished, Action::Abandon)
        },
    decreases failed,
{
    if failed > 0 {
        lemma_revisions_tried_in_order(order, detected, (failed - 1) as nat);
    }
}

/// The first revision that decodes ends the search: the material is patched
/// as decoded by it and encoded for the detected release, and the bytes are
/// handed out if encoding succeeds.
pub proof fn lemma_first_decoded_wins(order: Seq<Version>, detected: Version, failed: nat)
    requires
        failed < order.len() <= usize::MAX,
    ensures
        ({
            let trying = after_failures(order, Some(detected), failed).0;
            let patching = next_step(trying, Event::Decoded, order, Some(detected));
            &&& patching == (
                Phase::Encoding,
                Action::PatchAndEncode { decoded_as: order[failed as int], target: detected },
            )
            &&& next_step(patching.0, Event::Encoded, order, Some(detected)) == (
                Phase::Finished,
                Action::Deliver,
            )
            &&& next_step(patching.0, Event::EncodeFailed, order, Some(detected)) == (
                Phase::Finished,
                Action::Abandon,
            )
        }),
{
    lemma_revisions_tried_in_order(order, detected, failed);
}

/// One step of the work on an artifact: the host reports what happened and
/// learns what to do next.
pub fn process_material(phase: Phase, event: Event, order: &[Version], detection: Detection) -> (r:
    (Phase, Action))
    ensures
        r == next_step(phase, event, order@, detection.version),
{
    let target = match detection.version {
        Some(target) => target,
        None => { return (Phase::Finished, Action::Abandon); },
    };
    match phase {
        Phase::Idle => match event {
            Event::Begin => if order.len() > 0 {
                (Phase::Decoding(0), Action::Decode(order[0]))
            } else {
                (Phase::Finished, Action::Abandon)
            },
            _ => (Phase::Finished, Action::Abandon),
        },
        Phase::Decoding(i) => match event {
            Event::DecodeFailed => if i < order.len() && i + 1 < order.len() {
                (Phase::Decoding(i + 1), Action::Decode(order[i + 1]))
            } else {
                (Phase::Finished, Action::Abandon)
            },
            Event::Decoded => if i < order.len() {
                (Phase::Encoding, Action::PatchAndEncode { decoded_as: order[i], target })
            } else {
                (Phase::Finished, Action::Abandon)
            },
            _ => (Phase::Finished, Action::Abandon),
        },
        Phase::Encoding => match event {
            Event::Encoded => (Phase::Finished, Action::Deliver),
            _ => (Phase::Finished, Action::Abandon),
        },
        Phase::Finished => (Phase::Finished, Action::Abandon),
    }
}

} // verus!
