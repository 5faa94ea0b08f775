//! What holds of every patched listing: the count is declared once and is
//! one more, the head of the listing is copied, and the code reaches the
//! scratch register wherever it reached the input register.

use crate::count::{
    apart, begins_none, count, count_in_lines, head_unique, lemma_count_in_instruction,
    lemma_count_in_lines_concat, lemma_count_without_head, lemma_replace_counts,
};
use crate::decimal::{decimal, digits_value, is_digit, lemma_decimal_round_trip};
use crate::lines::{join_lines, lemma_join_lines_concat, line_text};
use crate::listing::{all_lines, is_count_declaration, Listing, COUNT_KEYWORD};
use crate::rewrite::{
    count_line, injected, kept_declarations, patched_declarations, patched_lines, redirect,
    redirected, register_prefix,
};
use crate::text::occurs;
use vstd::prelude::*;

verus! {

/// None of the declarations that are kept declares the count.
pub proof fn lemma_kept_declare_no_count(declarations: Seq<Seq<char>>)
    ensures
        forall|i: int|
            0 <= i < kept_declarations(declarations).len() ==> !is_count_declaration(
                line_text(#[trigger] kept_declarations(declarations)[i]),
            ),
    decreases declarations.len(),
{
    if declarations.len() > 0 {
        lemma_kept_declare_no_count(declarations.drop_last());
        let kept = kept_declarations(declarations);
        let earlier = kept_declarations(declarations.drop_last());
        assert forall|i: int| 0 <= i < kept.len() implies !is_count_declaration(
            line_text(#[trigger] kept[i]),
        ) by {
            if i < earlier.len() {
                assert(kept[i] == earlier[i]);
            }
        }
    }
}

/// The patched listing declares the count of scratch registers once, in the
/// last of its declarations, and the count it declares, written in decimal
/// after the keyword and one blank, is the count of the listing plus one.
pub proof fn lemma_count_declared_once(listing: Listing)
    ensures
        ({
            let declared = patched_declarations(listing);
            let last = declared.len() - 1;
            &&& declared.len() > 0
            &&& is_count_declaration(line_text(declared[last]))
            &&& forall|i: int|
                0 <= i < last ==> !is_count_declaration(line_text(#[trigger] declared[i]))
            &&& declared[last].skip(10) == decimal(listing.temp_reg_count as nat + 1)
            &&& digits_value(declared[last].skip(10)) == listing.temp_reg_count + 1
        }),
{
    let declared = patched_declarations(listing);
    let count = listing.temp_reg_count as nat + 1;
    let line = count_line(count);
    reveal_strlit("dcl_temps");
    reveal_strlit("dcl_temps ");
    lemma_kept_declare_no_count(listing.declarations);
    lemma_decimal_round_trip(count);
    assert(line.subrange(0, 9) =~= COUNT_KEYWORD@);
    assert(line.skip(10) =~= decimal(count));
    assert(line.last() == decimal(count).last());
    assert(is_digit(decimal(count)[decimal(count).len() - 1]));
    assert(line_text(line) == line);
}

/// The patched listing begins with the header, the input signature and the
/// output signature of the listing, line for line, and its text begins with
/// their text.
pub proof fn lemma_head_regions_unchanged(listing: Listing, src: nat, fresh: nat)
    ensures
        ({
            let head = listing.header + listing.input_signature + listing.output_signature;
            &&& head.is_prefix_of(patched_lines(listing, src, fresh))
            &&& join_lines(head).is_prefix_of(join_lines(patched_lines(listing, src, fresh)))
        }),
{
    let head = listing.header + listing.input_signature + listing.output_signature;
    let tail = patched_declarations(listing) + injected(src, fresh) + redirected(
        listing.code_lines,
        src,
        fresh,
    );
    assert(patched_lines(listing, src, fresh) =~= head + tail);
    lemma_join_lines_concat(head, tail);
}

/// The access prefixes of an input register and of a scratch register
/// cannot overlap: each begins with the letter of its bank, which stands
/// nowhere else in either.
pub proof fn lemma_prefixes_apart(src: nat, fresh: nat)
    ensures
        apart(register_prefix('v', src), register_prefix('r', fresh)),
{
    let v = register_prefix('v', src);
    let r = register_prefix('r', fresh);
    lemma_decimal_round_trip(src);
    lemma_decimal_round_trip(fresh);
    assert forall|i: int| 0 < i < v.len() implies #[trigger] v[i] != 'v' && v[i] != 'r' by {
        if i < v.len() - 1 {
            assert(v[i] == decimal(src)[i - 1]);
            assert(is_digit(decimal(src)[i - 1]));
        }
    }
    assert forall|i: int| 0 < i < r.len() implies #[trigger] r[i] != 'v' && r[i] != 'r' by {
        if i < r.len() - 1 {
            assert(r[i] == decimal(fresh)[i - 1]);
            assert(is_digit(decimal(fresh)[i - 1]));
        }
    }
    assert(v[0] == 'v');
    assert(r[0] == 'r');
}

/// A redirected line holds no access to the input register any more, and
/// holds as many accesses to the scratch register as the line held to either
/// register.
pub proof fn lemma_redirect_counts(line: Seq<char>, src: nat, fresh: nat)
    ensures
        !occurs(redirect(line, src, fresh), register_prefix('v', src)),
        count(redirect(line, src, fresh), register_prefix('v', src)) == 0,
        count(redirect(line, src, fresh), register_prefix('r', fresh)) == count(
            line,
            register_prefix('r', fresh),
        ) + count(line, register_prefix('v', src)),
{
    lemma_prefixes_apart(src, fresh);
    lemma_replace_counts(line, register_prefix('v', src), register_prefix('r', fresh));
}

/// The redirected code holds no access to the input register, and as many
/// accesses to the scratch register as the code held to either register.
pub proof fn lemma_redirected_counts(code: Seq<Seq<char>>, src: nat, fresh: nat)
    ensures
        count_in_lines(redirected(code, src, fresh), register_prefix('v', src)) == 0,
        count_in_lines(redirected(code, src, fresh), register_prefix('r', fresh))
            == count_in_lines(code, register_prefix('r', fresh)) + count_in_lines(
            code,
            register_prefix('v', src),
        ),
    decreases code.len(),
{
    if code.len() > 0 {
        lemma_redirected_counts(code.drop_last(), src, fresh);
        lemma_redirect_counts(code.last(), src, fresh);
        assert(redirected(code, src, fresh).drop_last() =~= redirected(
            code.drop_last(),
            src,
            fresh,
        ));
    }
}

/// None of the fixed texts of the four instructions lets an access prefix of
/// the bank `bank` begin in it, for the banks `r` and `v`.
proof fn lemma_fillers_begin_none(bank: char, number: nat)
    requires
        bank == 'r' || bank == 'v',
    ensures
        ({
            let needle = register_prefix(bank, number);
            &&& needle.len() >= 2
            &&& head_unique(needle)
            &&& begins_none("mul "@, needle)
            &&& begins_none("frc "@, needle)
            &&& begins_none("round_ni "@, needle)
            &&& begins_none("z, "@, needle)
            &&& begins_none("x, "@, needle)
            &&& begins_none("w, "@, needle)
            &&& begins_none("y, "@, needle)
            &&& begins_none("z"@, needle)
            &&& begins_none("x, l(15.937500)"@, needle)
            &&& begins_none("w, l(0.062500)"@, needle)
        }),
{
    let needle = register_prefix(bank, number);
    lemma_prefixes_apart(number, number);
    lemma_decimal_round_trip(number);
    assert(needle[0] == bank);
    assert(needle[1] == decimal(number)[0]);
    assert(is_digit(decimal(number)[0]));
    reveal_strlit("mul ");
    reveal_strlit("frc ");
    reveal_strlit("round_ni ");
    reveal_strlit("z, ");
    reveal_strlit("x, ");
    reveal_strlit("w, ");
    reveal_strlit("y, ");
    reveal_strlit("z");
    reveal_strlit("x, l(15.937500)");
    reveal_strlit("w, l(0.062500)");
}

/// The four instructions access the scratch register seven times and the
/// input register once.
pub proof fn lemma_injected_counts(src: nat, fresh: nat)
    ensures
        count_in_lines(injected(src, fresh), register_prefix('r', fresh)) == 7,
        count_in_lines(injected(src, fresh), register_prefix('v', src)) == 1,
{
    let r = register_prefix('r', fresh);
    let v = register_prefix('v', src);
    let lines = injected(src, fresh);
    lemma_prefixes_apart(src, fresh);
    lemma_fillers_begin_none('r', fresh);
    lemma_fillers_begin_none('v', src);
    assert(r[0] == 'r' && v[0] == 'v');
    assert(r != v);
    lemma_count_in_instruction("mul "@, r, "z, "@, v, "x, l(15.937500)"@, r);
    lemma_count_in_instruction("frc "@, r, "x, "@, r, "z"@, r);
    lemma_count_in_instruction("round_ni "@, r, "w, "@, r, "z"@, r);
    lemma_count_in_instruction("mul "@, r, "y, "@, r, "w, l(0.062500)"@, r);
    lemma_count_in_instruction("mul "@, r, "z, "@, v, "x, l(15.937500)"@, v);
    lemma_count_in_instruction("frc "@, r, "x, "@, r, "z"@, v);
    lemma_count_in_instruction("round_ni "@, r, "w, "@, r, "z"@, v);
    lemma_count_in_instruction("mul "@, r, "y, "@, r, "w, l(0.062500)"@, v);
    let three = lines.drop_last();
    let two = three.drop_last();
    let one = two.drop_last();
    assert(one.drop_last() =~= Seq::<Seq<char>>::empty());
    assert(count_in_lines(one.drop_last(), r) == 0);
    assert(count_in_lines(one.drop_last(), v) == 0);
    assert(count_in_lines(one, r) == 1);
    assert(count_in_lines(two, r) == 3);
    assert(count_in_lines(three, r) == 5);
    assert(count_in_lines(one, v) == 1);
    assert(count_in_lines(two, v) == 1);
    assert(count_in_lines(three, v) == 1);
}

/// The declarations that are kept hold no more occurrences than all of them.
pub proof fn lemma_kept_count_bound(declarations: Seq<Seq<char>>, needle: Seq<char>)
    ensures
        count_in_lines(kept_declarations(declarations), needle) <= count_in_lines(
            declarations,
            needle,
        ),
    decreases declarations.len(),
{
    if declarations.len() > 0 {
        lemma_kept_count_bound(declarations.drop_last(), needle);
        if !is_count_declaration(line_text(declarations.last())) {
            assert(kept_declarations(declarations).drop_last() =~= kept_declarations(
                declarations.drop_last(),
            ));
        }
    }
}

/// The accesses to the scratch register in the patched listing: those that
/// the lines copied from the listing held, the seven of the four
/// instructions, and one for each access of the code to either register.
pub proof fn lemma_patched_counts(listing: Listing, src: nat, fresh: nat)
    ensures
        count_in_lines(patched_lines(listing, src, fresh), register_prefix('r', fresh))
            == count_in_lines(
            listing.header + listing.input_signature + listing.output_signature,
            register_prefix('r', fresh),
        ) + count_in_lines(kept_declarations(listing.declarations), register_prefix('r', fresh))
            + 7 + count_in_lines(listing.code_lines, register_prefix('r', fresh))
            + count_in_lines(listing.code_lines, register_prefix('v', src)),
{
    let r = register_prefix('r', fresh);
    let head = listing.header + listing.input_signature + listing.output_signature;
    let declared = patched_declarations(listing);
    let added = injected(src, fresh);
    let code = redirected(listing.code_lines, src, fresh);
    let line = count_line(listing.temp_reg_count as nat + 1);
    lemma_count_in_lines_concat(head, declared, r);
    lemma_count_in_lines_concat(head + declared, added, r);
    lemma_count_in_lines_concat(head + declared + added, code, r);
    lemma_injected_counts(src, fresh);
    lemma_redirected_counts(listing.code_lines, src, fresh);
    assert(declared.drop_last() =~= kept_declarations(listing.declarations));
    assert(count(line, r) == 0) by {
        reveal_strlit("dcl_temps ");
        lemma_decimal_round_trip(listing.temp_reg_count as nat + 1);
        let digits = decimal(listing.temp_reg_count as nat + 1);
        assert(r[0] == 'r');
        assert forall|i: int| 0 <= i < line.len() implies #[trigger] line[i] != 'r' by {
            if i >= 10 {
                assert(line[i] == digits[i - 10]);
                assert(is_digit(digits[i - 10]));
            }
        }
        lemma_count_without_head(line, r);
    }
}

/// Where no line of the listing accesses the scratch register, the patched
/// listing accesses it once for each access of the code to the input
/// register and seven times in the four instructions, and its code accesses
/// the input register no more.
pub proof fn lemma_fresh_register_counts(listing: Listing, src: nat, fresh: nat)
    requires
        count_in_lines(all_lines(listing), register_prefix('r', fresh)) == 0,
    ensures
        count_in_lines(patched_lines(listing, src, fresh), register_prefix('r', fresh))
            == count_in_lines(listing.code_lines, register_prefix('v', src)) + 7,
        count_in_lines(redirected(listing.code_lines, src, fresh), register_prefix('v', src))
            == 0,
{
    let r = register_prefix('r', fresh);
    let head = listing.header + listing.input_signature + listing.output_signature;
    lemma_count_in_lines_concat(head, listing.declarations, r);
    lemma_count_in_lines_concat(head + listing.declarations, listing.code_lines, r);
    lemma_kept_count_bound(listing.declarations, r);
    lemma_patched_counts(listing, src, fresh);
    lemma_redirected_counts(listing.code_lines, src, fresh);
}

} // verus!
