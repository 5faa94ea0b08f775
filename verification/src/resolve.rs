//! Finding the register that the input signature binds to a semantic.

use crate::error::ShaderError;
use crate::lines::{line_text, split_lines};
use crate::listing::{
    binding_views, in_signature, lemma_row_is_bound, parse_listing, row_binding, Binding,
    InputRegister,
};
use crate::text::{chars_of, same};
use vstd::prelude::*;

verus! {

/// The name of the semantic whose register is patched.
pub const TEXCOORD: &'static str = "TEXCOORD";

/// Whether `binding` is for the semantic `name` with the index `index`.
pub open spec fn binds(binding: Binding, name: Seq<char>, index: usize) -> bool {
    binding.name == name && binding.index == index
}

/// The register of the first binding for `name` and `index`, if there is one.
pub open spec fn resolve(bindings: Seq<Binding>, name: Seq<char>, index: usize) -> Option<usize>
    decreases bindings.len(),
{
    if bindings.len() == 0 {
        None
    } else if binds(bindings[0], name, index) {
        Some(bindings[0].reg)
    } else {
        resolve(bindings.drop_first(), name, index)
    }
}

/// What `resolve` finds is the register of a binding for `name` and `index`
/// with no such binding before it; where it finds none there is none.
pub proof fn lemma_resolve_first(bindings: Seq<Binding>, name: Seq<char>, index: usize)
    ensures
        match resolve(bindings, name, index) {
            Some(reg) => exists|i: int|
                0 <= i < bindings.len() && binds(#[trigger] bindings[i], name, index)
                    && bindings[i].reg == reg && forall|j: int|
                    0 <= j < i ==> !binds(#[trigger] bindings[j], name, index),
            None => forall|i: int|
                0 <= i < bindings.len() ==> !binds(#[trigger] bindings[i], name, index),
        },
    decreases bindings.len(),
{
    if bindings.len() == 0 {
    } else if binds(bindings[0], name, index) {
        assert(binds(bindings[0], name, index) && bindings[0].reg == bindings[0].reg);
    } else {
        let rest = bindings.drop_first();
        lemma_resolve_first(rest, name, index);
        match resolve(rest, name, index) {
            Some(reg) => {
                let i = choose|i: int|
                    0 <= i < rest.len() && binds(#[trigger] rest[i], name, index) && rest[i].reg
                        == reg && forall|j: int|
                        0 <= j < i ==> !binds(#[trigger] rest[j], name, index);
                assert(bindings[i + 1] == rest[i]);
                assert forall|j: int| 0 <= j < i + 1 implies !binds(
                    #[trigger] bindings[j],
                    name,
                    index,
                ) by {
                    if j > 0 {
                        assert(bindings[j] == rest[j - 1]);
                    }
                }
            },
            None => {
                assert forall|i: int| 0 <= i < bindings.len() implies !binds(
                    #[trigger] bindings[i],
                    name,
                    index,
                ) by {
                    if i > 0 {
                        assert(bindings[i] == rest[i - 1]);
                    }
                }
            },
        }
    }
}

/// Wherever a binding for `name` and `index` stands among `bindings`, its
/// register is the one found, as long as no other binding for the same name
/// and index names another register.
pub proof fn lemma_resolve_any_position(
    bindings: Seq<Binding>,
    at: int,
    name: Seq<char>,
    index: usize,
)
    requires
        0 <= at < bindings.len(),
        binds(bindings[at], name, index),
        forall|j: int|
            0 <= j < bindings.len() && binds(#[trigger] bindings[j], name, index)
                ==> bindings[j].reg == bindings[at].reg,
    ensures
        resolve(bindings, name, index) == Some(bindings[at].reg),
{
    lemma_resolve_first(bindings, name, index);
}

/// A listing with a well-formed row for `name` and `index` in its input
/// signature resolves that semantic to the register of the row, wherever the
/// row stands among the others, as long as no other row binds the same name
/// and index to another register.
pub proof fn lemma_signature_row_resolves(
    content: Seq<char>,
    k: int,
    name: Seq<char>,
    index: usize,
)
    requires
        parse_listing(content) is Ok,
        0 <= k < split_lines(content).len(),
        in_signature(split_lines(content), k),
        row_binding(line_text(split_lines(content)[k])) matches Ok(Some(binding)) && binds(
            binding,
            name,
            index,
        ),
        forall|j: int|
            #![trigger parse_listing(content)->Ok_0.input_registers[j]]
            0 <= j < parse_listing(content)->Ok_0.input_registers.len() && binds(
                parse_listing(content)->Ok_0.input_registers[j],
                name,
                index,
            ) ==> parse_listing(content)->Ok_0.input_registers[j].reg == row_binding(
                line_text(split_lines(content)[k]),
            )->Ok_0->0.reg,
    ensures
        resolve(parse_listing(content)->Ok_0.input_registers, name, index) == Some(
            row_binding(line_text(split_lines(content)[k]))->Ok_0->0.reg,
        ),
{
    let lines = split_lines(content);
    let binding = row_binding(line_text(lines[k]))->Ok_0->0;
    let bindings = parse_listing(content)->Ok_0.input_registers;
    lemma_row_is_bound(lines, k);
    let at = choose|at: int| 0 <= at < bindings.len() && bindings[at] == binding;
    lemma_resolve_any_position(bindings, at, name, index);
}

/// The register that `registers` binds to the semantic `name` with the index
/// `index`: that of the first such binding. Fails where there is none.
pub fn find_register(registers: &[InputRegister], name: &str, index: usize) -> (r: Result<
    usize,
    ShaderError,
>)
    ensures
        r == match resolve(binding_views(registers@), name@, index) {
            Some(reg) => Ok::<usize, ShaderError>(reg),
            None => Err(ShaderError::NotFound),
        },
{
    let wanted = chars_of(name);
    let ghost bindings = binding_views(registers@);
    let mut i: usize = 0;
    assert(bindings.skip(0) =~= bindings);
    while i < registers.len()
        invariant
            i <= registers@.len(),
            wanted@ == name@,
            bindings == binding_views(registers@),
            resolve(bindings, name@, index) == resolve(bindings.skip(i as int), name@, index),
        decreases registers@.len() - i,
    {
        let register = &registers[i];
        let held = chars_of(register.name.as_str());
        assert(bindings.skip(i as int)[0] == register@);
        if register.index == index && same(held.as_slice(), wanted.as_slice()) {
            return Ok(register.reg);
        }
        assert(bindings.skip(i as int).drop_first() =~= bindings.skip(i + 1));
        i += 1;
    }
    Err(ShaderError::NotFound)
}

/// The register bound to `TEXCOORD` with the index 1.
pub fn find_texcoord1_register(registers: &[InputRegister]) -> (r: Result<usize, ShaderError>)
    ensures
        r == match resolve(binding_views(registers@), TEXCOORD@, 1) {
            Some(reg) => Ok::<usize, ShaderError>(reg),
            None => Err(ShaderError::NotFound),
        },
{
    find_register(registers, TEXCOORD, 1)
}

} // verus!
