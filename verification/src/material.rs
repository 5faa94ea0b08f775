//! A compiled material as far as the patches read it: named passes, their
//! shader variants, and the shader of each pipeline stage and platform.

use crate::fixes::{Fix, Outcome};
use vstd::prelude::*;

verus! {

/// What a fix did to a shader.
#[derive(Clone, Copy, Debug, PartialEq, Eq, Structural)]
pub struct Note {
    pub fix: Fix,
    pub outcome: Outcome,
}

/// The pipeline stage that a shader runs in.
#[derive(Clone, Copy, Debug, PartialEq, Eq, Structural)]
pub enum Stage {
    Vertex,
    Fragment,
    Compute,
    Unknown,
}

/// The shader of one stage on one platform.
#[derive(Clone, Debug, PartialEq, Eq)]
pub struct ShaderCode {
    pub stage: Stage,
    pub platform_name: String,
    /// The source held by the embedded shader; `None` where the embedded
    /// shader could not be decoded.
    pub code: Option<Vec<u8>>,
    /// What the last fix that was meant for this shader did to its source;
    /// `None` while no fix was meant for it.
    pub note: Option<Note>,
}

/// What a `ShaderCode` holds, as plain values.
pub struct ShaderCodeView {
    pub stage: Stage,
    pub platform_name: Seq<char>,
    pub code: Option<Seq<u8>>,
    pub note: Option<Note>,
}

impl View for ShaderCode {
    type V = ShaderCodeView;

    open spec fn view(&self) -> ShaderCodeView {
        ShaderCodeView {
            stage: self.stage,
            platform_name: self.platform_name@,
            code: match self.code {
                Some(bytes) => Some(bytes@),
                None => None,
            },
            note: self.note,
        }
    }
}

/// One variant of a pass: a shader for each stage and platform.
#[derive(Clone, Debug, PartialEq, Eq)]
pub struct Variant {
    pub shader_codes: Vec<ShaderCode>,
}

/// What a `Variant` holds, as plain values.
pub struct VariantView {
    pub shader_codes: Seq<ShaderCodeView>,
}

impl View for Variant {
    type V = VariantView;

    open spec fn view(&self) -> VariantView {
        VariantView {
            shader_codes: Seq::new(self.shader_codes@.len(), |i: int| self.shader_codes@[i]@),
        }
    }
}

/// A named rendering pass.
#[derive(Clone, Debug, PartialEq, Eq)]
pub struct Pass {
    pub name: String,
    pub variants: Vec<Variant>,
}

/// What a `Pass` holds, as plain values.
pub struct PassView {
    pub name: Seq<char>,
    pub variants: Seq<VariantView>,
}

impl View for Pass {
    type V = PassView;

    open spec fn view(&self) -> PassView {
        PassView {
            name: self.name@,
            variants: Seq::new(self.variants@.len(), |i: int| self.variants@[i]@),
        }
    }
}

/// A compiled material.
#[derive(Clone, Debug, PartialEq, Eq)]
pub struct Material {
    pub name: String,
    pub passes: Vec<Pass>,
}

/// What a `Material` holds, as plain values.
pub struct MaterialView {
    pub name: Seq<char>,
    pub passes: Seq<PassView>,
}

impl View for Material {
    type V = MaterialView;

    open spec fn view(&self) -> MaterialView {
        MaterialView {
            name: self.name@,
            passes: Seq::new(self.passes@.len(), |i: int| self.passes@[i]@),
        }
    }
}

} // verus!
