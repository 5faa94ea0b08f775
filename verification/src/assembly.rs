//! Patching a disassembled shader listing from end to end.

use crate::error::ShaderError;
use crate::lines::{
    concat_lines, join_lines, lemma_first_lines_begin, lemma_split_keeps_text, split_lines,
};
use crate::listing::{lemma_regions_partition, parse_listing, parse_shader_info};
use crate::resolve::{find_texcoord1_register, resolve, TEXCOORD};
use crate::rewrite::{fix_shader_code, patched_lines};
use crate::rewrite_laws::lemma_head_regions_unchanged;
use vstd::prelude::*;

verus! {

/// The patched text of the listing `content`: the listing is taken apart, the
/// register bound to `TEXCOORD` 1 is looked up, and the listing is written
/// again with the register that follows the declared scratch registers taking
/// the place of the input register.
pub open spec fn patched_content(content: Seq<char>) -> Result<Seq<char>, ShaderError> {
    match parse_listing(content) {
        Err(e) => Err(e),
        Ok(listing) => match resolve(listing.input_registers, TEXCOORD@, 1) {
            None => Err(ShaderError::NotFound),
            Some(reg) => Ok(
                join_lines(patched_lines(listing, reg as nat, listing.temp_reg_count as nat)),
            ),
        },
    }
}

/// The characters of the listing `content` up to the end of its output
/// signature; nothing where the listing cannot be taken apart.
pub open spec fn head_of(content: Seq<char>) -> Seq<char> {
    match parse_listing(content) {
        Err(_) => Seq::empty(),
        Ok(listing) => concat_lines(
            listing.header + listing.input_signature + listing.output_signature,
        ),
    }
}

/// The header and the two signatures of a listing are the beginning of its
/// text, and the patched text begins with the very same characters.
pub proof fn lemma_head_is_copied(content: Seq<char>)
    ensures
        head_of(content).is_prefix_of(content),
        patched_content(content) matches Ok(text) ==> head_of(content).is_prefix_of(text),
{
    match parse_listing(content) {
        Err(_) => {},
        Ok(listing) => {
            let lines = split_lines(content);
            let head = listing.header + listing.input_signature + listing.output_signature;
            lemma_regions_partition(content);
            lemma_split_keeps_text(content);
            assert(lines.take(head.len() as int) =~= head);
            lemma_first_lines_begin(lines, head.len() as int);
            match resolve(listing.input_registers, TEXCOORD@, 1) {
                None => {},
                Some(reg) => {
                    lemma_head_regions_unchanged(
                        listing,
                        reg as nat,
                        listing.temp_reg_count as nat,
                    );
                },
            }
        },
    }
}

/// A patched listing and the two registers of the patch.
#[derive(Clone, Debug, PartialEq, Eq)]
pub struct Patched {
    /// The patched text.
    pub text: String,
    /// The input register that held the coordinate.
    pub source_register: usize,
    /// The scratch register in which the coordinate is rebuilt.
    pub scratch_register: usize,
}

/// Patches a shader listing and tells which registers the patch is about:
/// the input register bound to `TEXCOORD` 1, and the scratch register that
/// follows those that the listing declares.
pub fn patch_listing(content: &str) -> (r: Result<Patched, ShaderError>)
    ensures
        match r {
            Ok(patched) => {
                &&& patched_content(content@) == Ok::<Seq<char>, ShaderError>(patched.text@)
                &&& parse_listing(content@) matches Ok(listing)
                &&& resolve(listing.input_registers, TEXCOORD@, 1) == Some(
                    patched.source_register,
                )
                &&& patched.scratch_register == listing.temp_reg_count
            },
            Err(e) => patched_content(content@) == Err::<Seq<char>, ShaderError>(e),
        },
        r matches Ok(patched) ==> head_of(content@).is_prefix_of(patched.text@),
{
    proof {
        lemma_head_is_copied(content@);
    }
    let shader_info = match parse_shader_info(content) {
        Ok(info) => info,
        Err(e) => { return Err(e); },
    };
    let texcoord1_reg = match find_texcoord1_register(shader_info.input_registers.as_slice()) {
        Ok(reg) => reg,
        Err(e) => { return Err(e); },
    };
    let new_temp_reg = shader_info.temp_reg_count;
    let text = fix_shader_code(&shader_info, texcoord1_reg, new_temp_reg);
    Ok(Patched { text, source_register: texcoord1_reg, scratch_register: new_temp_reg })
}

/// Patches a shader listing. Fails where the listing holds a number that
/// cannot be read, or where its input signature binds no register to
/// `TEXCOORD` 1. The patched text begins with the very characters of the
/// listing up to the end of its output signature.
pub fn process_shader_content(content: &str) -> (r: Result<String, ShaderError>)
    ensures
        match r {
            Ok(text) => patched_content(content@) == Ok::<Seq<char>, ShaderError>(text@),
            Err(e) => patched_content(content@) == Err::<Seq<char>, ShaderError>(e),
        },
        r matches Ok(text) ==> head_of(content@).is_prefix_of(text@),
{
    match patch_listing(content) {
        Ok(patched) => Ok(patched.text),
        Err(e) => Err(e),
    }
}

} // verus!
