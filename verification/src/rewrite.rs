//! Writing the patched listing: one more scratch register is declared, four
//! instructions rebuild the coordinate in it, and the code reads that
//! register in place of the input register.

use crate::decimal::{decimal, to_decimal};
use crate::lines::{
    finished, join_lines, lemma_join_lines_concat, line_text, push_line, string_views, text_of,
};
use crate::listing::{is_count_declaration, Listing, ShaderInfo, COUNT_KEYWORD};
use crate::rewrite_laws::lemma_head_regions_unchanged;
use crate::section::begins_with;
use crate::text::{append, chars_of, replace, replace_all, string_of};
use vstd::prelude::*;

verus! {

/// The declarations that are kept as they are: all but those of the count.
pub open spec fn kept_declarations(declarations: Seq<Seq<char>>) -> Seq<Seq<char>>
    decreases declarations.len(),
{
    if declarations.len() == 0 {
        Seq::empty()
    } else if is_count_declaration(line_text(declarations.last())) {
        kept_declarations(declarations.drop_last())
    } else {
        kept_declarations(declarations.drop_last()).push(declarations.last())
    }
}

/// The line that declares `count` scratch registers.
pub open spec fn count_line(count: nat) -> Seq<char> {
    "dcl_temps "@ + decimal(count)
}

/// The text through which an instruction reaches a component of a register:
/// the letter of the register's bank, its number and the separating dot.
pub open spec fn register_prefix(bank: char, number: nat) -> Seq<char> {
    seq![bank] + decimal(number) + seq!['.']
}

/// The four instructions that rebuild the coordinate held in the x component
/// of the input register `src` in the scratch register `fresh`: the scaled
/// value in z, its fraction in x, its rounded value in w and that value
/// scaled back in y.
pub open spec fn injected(src: nat, fresh: nat) -> Seq<Seq<char>> {
    let r = register_prefix('r', fresh);
    let v = register_prefix('v', src);
    seq![
        "mul "@ + r + "z, "@ + v + "x, l(15.937500)"@,
        "frc "@ + r + "x, "@ + r + "z"@,
        "round_ni "@ + r + "w, "@ + r + "z"@,
        "mul "@ + r + "y, "@ + r + "w, l(0.062500)"@,
    ]
}

/// `line` with each access to a component of the input register `src` turned
/// into an access to the same component of the scratch register `fresh`.
pub open spec fn redirect(line: Seq<char>, src: nat, fresh: nat) -> Seq<char> {
    replace_all(line, register_prefix('v', src), register_prefix('r', fresh))
}

/// The lines of `code`, each redirected.
pub open spec fn redirected(code: Seq<Seq<char>>, src: nat, fresh: nat) -> Seq<Seq<char>> {
    Seq::new(code.len(), |i: int| redirect(code[i], src, fresh))
}

/// The declarations of the patched listing: those kept, then the new count.
pub open spec fn patched_declarations(listing: Listing) -> Seq<Seq<char>> {
    kept_declarations(listing.declarations).push(count_line(listing.temp_reg_count as nat + 1))
}

/// The lines of the patched listing.
pub open spec fn patched_lines(listing: Listing, src: nat, fresh: nat) -> Seq<Seq<char>> {
    listing.header + listing.input_signature + listing.output_signature + patched_declarations(
        listing,
    ) + injected(src, fresh) + redirected(listing.code_lines, src, fresh)
}

/// Appends the characters of `text` to `out`.
fn push_text(out: &mut Vec<char>, text: &str)
    ensures
        final(out)@ == old(out)@ + text@,
{
    let chars = chars_of(text);
    append(out, chars.as_slice(), 0, chars.len());
    assert(chars@.subrange(0, chars@.len() as int) =~= chars@);
}

/// The access prefix of the register `number` of the bank `bank`.
pub fn prefix_of(bank: char, number: usize) -> (out: Vec<char>)
    ensures
        out@ == register_prefix(bank, number as nat),
{
    let mut out: Vec<char> = Vec::new();
    out.push(bank);
    let digits = to_decimal(number as u128);
    append(&mut out, digits.as_slice(), 0, digits.len());
    assert(digits@.subrange(0, digits@.len() as int) =~= digits@);
    out.push('.');
    assert(out@ =~= register_prefix(bank, number as nat));
    out
}

/// Appends the line made of `a`, `x`, `b`, `y` and `c`, in this order.
fn push_instruction(out: &mut Vec<char>, a: &str, x: &[char], b: &str, y: &[char], c: &str)
    ensures
        final(out)@ == old(out)@ + finished(a@ + x@ + b@ + y@ + c@),
{
    let mut line: Vec<char> = Vec::new();
    push_text(&mut line, a);
    append(&mut line, x, 0, x.len());
    push_text(&mut line, b);
    append(&mut line, y, 0, y.len());
    push_text(&mut line, c);
    assert(x@.subrange(0, x@.len() as int) =~= x@);
    assert(y@.subrange(0, y@.len() as int) =~= y@);
    assert(line@ =~= a@ + x@ + b@ + y@ + c@);
    push_line(out, line.as_slice());
}

/// Appends each line of `lines` as it is written.
fn push_lines(out: &mut Vec<char>, lines: &Vec<String>)
    ensures
        final(out)@ == old(out)@ + join_lines(string_views(lines@)),
{
    let ghost all = string_views(lines@);
    let mut i: usize = 0;
    assert(all.take(0) =~= Seq::<Seq<char>>::empty());
    assert(out@ =~= old(out)@ + join_lines(all.take(0)));
    while i < lines.len()
        invariant
            i <= lines@.len(),
            all == string_views(lines@),
            out@ == old(out)@ + join_lines(all.take(i as int)),
        decreases lines@.len() - i,
    {
        let chars = chars_of(lines[i].as_str());
        let ghost before = out@;
        push_line(out, chars.as_slice());
        proof {
            assert(all.take(i + 1).drop_last() =~= all.take(i as int));
            assert(all.take(i + 1).last() == chars@);
            assert(out@ =~= old(out)@ + join_lines(all.take(i + 1)));
        }
        i += 1;
    }
    assert(all.take(i as int) =~= all);
}

/// Appends the declarations that are kept.
fn push_kept_declarations(out: &mut Vec<char>, declarations: &Vec<String>)
    ensures
        final(out)@ == old(out)@ + join_lines(kept_declarations(string_views(declarations@))),
{
    let ghost all = string_views(declarations@);
    let mut i: usize = 0;
    assert(all.take(0) =~= Seq::<Seq<char>>::empty());
    assert(out@ =~= old(out)@ + join_lines(kept_declarations(all.take(0))));
    while i < declarations.len()
        invariant
            i <= declarations@.len(),
            all == string_views(declarations@),
            out@ == old(out)@ + join_lines(kept_declarations(all.take(i as int))),
        decreases declarations@.len() - i,
    {
        let chars = chars_of(declarations[i].as_str());
        let text = text_of(chars.as_slice());
        proof {
            assert(all.take(i + 1).drop_last() =~= all.take(i as int));
            assert(all.take(i + 1).last() == chars@);
        }
        if !begins_with(text.as_slice(), COUNT_KEYWORD) {
            push_line(out, chars.as_slice());
            proof {
                let kept = kept_declarations(all.take(i + 1));
                assert(kept.drop_last() =~= kept_declarations(all.take(i as int)));
                assert(out@ =~= old(out)@ + join_lines(kept));
            }
        }
        i += 1;
    }
    assert(all.take(i as int) =~= all);
}

/// Appends the lines of the code, each redirected from the input register
/// to the scratch register.
fn push_redirected(out: &mut Vec<char>, code: &Vec<String>, src: usize, fresh: usize)
    ensures
        final(out)@ == old(out)@ + join_lines(
            redirected(string_views(code@), src as nat, fresh as nat),
        ),
{
    let ghost all = redirected(string_views(code@), src as nat, fresh as nat);
    let pattern = prefix_of('v', src);
    let replacement = prefix_of('r', fresh);
    let mut i: usize = 0;
    assert(all.take(0) =~= Seq::<Seq<char>>::empty());
    assert(out@ =~= old(out)@ + join_lines(all.take(0)));
    while i < code.len()
        invariant
            i <= code@.len(),
            all == redirected(string_views(code@), src as nat, fresh as nat),
            pattern@ == register_prefix('v', src as nat),
            replacement@ == register_prefix('r', fresh as nat),
            out@ == old(out)@ + join_lines(all.take(i as int)),
        decreases code@.len() - i,
    {
        let chars = chars_of(code[i].as_str());
        let fixed = replace(chars.as_slice(), pattern.as_slice(), replacement.as_slice());
        push_line(out, fixed.as_slice());
        proof {
            assert(all.take(i + 1).drop_last() =~= all.take(i as int));
            assert(all.take(i + 1).last() == fixed@);
            assert(out@ =~= old(out)@ + join_lines(all.take(i + 1)));
        }
        i += 1;
    }
    assert(all.take(i as int) =~= all);
}

/// Appends the line that declares `count` scratch registers.
fn push_count_line(out: &mut Vec<char>, count: u128)
    ensures
        final(out)@ == old(out)@ + finished(count_line(count as nat)),
{
    let mut line: Vec<char> = Vec::new();
    push_text(&mut line, "dcl_temps ");
    let digits = to_decimal(count);
    append(&mut line, digits.as_slice(), 0, digits.len());
    assert(digits@.subrange(0, digits@.len() as int) =~= digits@);
    assert(line@ =~= count_line(count as nat));
    push_line(out, line.as_slice());
}

/// Appends the four instructions that rebuild the coordinate.
fn push_injected(out: &mut Vec<char>, src: usize, fresh: usize)
    ensures
        final(out)@ == old(out)@ + join_lines(injected(src as nat, fresh as nat)),
{
    let r = prefix_of('r', fresh);
    let v = prefix_of('v', src);
    push_instruction(out, "mul ", r.as_slice(), "z, ", v.as_slice(), "x, l(15.937500)");
    push_instruction(out, "frc ", r.as_slice(), "x, ", r.as_slice(), "z");
    push_instruction(out, "round_ni ", r.as_slice(), "w, ", r.as_slice(), "z");
    push_instruction(out, "mul ", r.as_slice(), "y, ", r.as_slice(), "w, l(0.062500)");
    proof {
        let lines = injected(src as nat, fresh as nat);
        lemma_join_four(lines);
        assert(out@ =~= old(out)@ + join_lines(lines));
    }
}

/// The text of four lines is each of them as it is written.
proof fn lemma_join_four(lines: Seq<Seq<char>>)
    requires
        lines.len() == 4,
    ensures
        join_lines(lines) == finished(lines[0]) + finished(lines[1]) + finished(lines[2])
            + finished(lines[3]),
{
    let three = lines.drop_last();
    let two = three.drop_last();
    let one = two.drop_last();
    assert(one.drop_last() =~= Seq::<Seq<char>>::empty());
    assert(join_lines(one.drop_last()) =~= Seq::<char>::empty());
    assert(join_lines(one) =~= finished(lines[0]));
    assert(join_lines(two) =~= finished(lines[0]) + finished(lines[1]));
    assert(join_lines(three) =~= finished(lines[0]) + finished(lines[1]) + finished(lines[2]));
    assert(join_lines(lines) =~= finished(lines[0]) + finished(lines[1]) + finished(lines[2])
        + finished(lines[3]));
}

/// The text of the patched listing is the text of its parts, one after the
/// other.
pub proof fn lemma_patched_text(listing: Listing, src: nat, fresh: nat)
    ensures
        join_lines(patched_lines(listing, src, fresh)) == join_lines(listing.header) + join_lines(
            listing.input_signature,
        ) + join_lines(listing.output_signature) + join_lines(
            kept_declarations(listing.declarations),
        ) + finished(count_line(listing.temp_reg_count as nat + 1)) + join_lines(
            injected(src, fresh),
        ) + join_lines(redirected(listing.code_lines, src, fresh)),
{
    let a = listing.header;
    let b = listing.input_signature;
    let c = listing.output_signature;
    let d = patched_declarations(listing);
    let e = injected(src, fresh);
    let f = redirected(listing.code_lines, src, fresh);
    assert(d.drop_last() =~= kept_declarations(listing.declarations));
    assert(join_lines(d) =~= join_lines(kept_declarations(listing.declarations)) + finished(
        count_line(listing.temp_reg_count as nat + 1),
    ));
    lemma_join_lines_concat(a, b);
    lemma_join_lines_concat(a + b, c);
    lemma_join_lines_concat(a + b + c, d);
    lemma_join_lines_concat(a + b + c + d, e);
    lemma_join_lines_concat(a + b + c + d + e, f);
    assert(join_lines(a + b + c + d + e + f) =~= join_lines(a) + join_lines(b) + join_lines(c)
        + join_lines(kept_declarations(listing.declarations)) + finished(
        count_line(listing.temp_reg_count as nat + 1),
    ) + join_lines(e) + join_lines(f));
}

/// Writes the patched listing. Header and signatures are copied with their
/// line endings; so are the declarations but for those of the count of
/// scratch registers, in whose place one line declares one register more;
/// then come the four
/// instructions that rebuild the coordinate of the input register
/// `texcoord1_reg` in the scratch register `new_temp_reg`; then the code, in
/// which each access to a component of the input register has become an
/// access to the scratch register.
pub fn fix_shader_code(shader_info: &ShaderInfo, texcoord1_reg: usize, new_temp_reg: usize) -> (out:
    String)
    ensures
        out@ == join_lines(patched_lines(shader_info@, texcoord1_reg as nat, new_temp_reg as nat)),
        join_lines(
            shader_info@.header + shader_info@.input_signature + shader_info@.output_signature,
        ).is_prefix_of(out@),
{
    proof {
        lemma_head_regions_unchanged(shader_info@, texcoord1_reg as nat, new_temp_reg as nat);
    }
    let mut out: Vec<char> = Vec::new();
    push_lines(&mut out, &shader_info.header);
    push_lines(&mut out, &shader_info.input_signature);
    push_lines(&mut out, &shader_info.output_signature);
    push_kept_declarations(&mut out, &shader_info.declarations);
    push_count_line(&mut out, shader_info.temp_reg_count as u128 + 1);
    push_injected(&mut out, texcoord1_reg, new_temp_reg);
    push_redirected(&mut out, &shader_info.code_lines, texcoord1_reg, new_temp_reg);
    proof {
        lemma_patched_text(shader_info@, texcoord1_reg as nat, new_temp_reg as nat);
        let listing = shader_info@;
        assert(out@ =~= join_lines(listing.header) + join_lines(listing.input_signature)
            + join_lines(listing.output_signature) + join_lines(
            kept_declarations(listing.declarations),
        ) + finished(count_line(listing.temp_reg_count as nat + 1)) + join_lines(
            injected(texcoord1_reg as nat, new_temp_reg as nat),
        ) + join_lines(
            redirected(listing.code_lines, texcoord1_reg as nat, new_temp_reg as nat),
        ));
    }
    string_of(out.as_slice())
}

} // verus!
