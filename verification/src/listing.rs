//! A shader listing taken apart: its five regions, the registers that its
//! input signature binds, and its count of scratch registers. A line is
//! held with the line ending that it came with; what it says is the line
//! without that ending.

use crate::decimal::{parse_decimal, read_decimal};
use crate::error::ShaderError;
use crate::lines::{
    concat_lines, lemma_split_keeps_text, line_text, line_views, lines_of, split_lines,
    string_views, text_of,
};
use crate::pattern::{capture_groups, group_views, regex_captures, regex_compiles};
use crate::section::{
    advance_chars, begins_with, lemma_section_never_goes_back, rank, section_after, Section,
};
use crate::text::{chars_of, occurs_at, string_of};
use vstd::prelude::*;

verus! {

/// The expression that a row of the input signature matches: after the
/// comment mark and one blank, a name, an index, a write mask and a register
/// number, with blanks between them; behind the register number come blanks
/// or the end of the line.
pub const ROW_PATTERN: &'static str =
    "^\\/\\/\\s(\\w+)\\s+(\\d+)\\s+(\\w+)\\s+(\\d+)(?:\\s+|$)";

/// The text that the declaration of the count of scratch registers begins
/// with.
pub const COUNT_KEYWORD: &'static str = "dcl_temps";

/// The expression that the declaration of the count of scratch registers
/// matches: the keyword, blanks, the count, and nothing but blanks behind it.
pub const COUNT_PATTERN: &'static str = "^dcl_temps\\s+(\\d+)\\s*$";

/// A register of the input signature and the semantic bound to it.
#[derive(Clone, Debug, PartialEq, Eq)]
pub struct InputRegister {
    pub name: String,
    pub index: usize,
    pub mask: String,
    pub reg: usize,
}

/// What an `InputRegister` holds, as plain values.
pub struct Binding {
    pub name: Seq<char>,
    pub index: usize,
    pub mask: Seq<char>,
    pub reg: usize,
}

impl View for InputRegister {
    type V = Binding;

    open spec fn view(&self) -> Binding {
        Binding { name: self.name@, index: self.index, mask: self.mask@, reg: self.reg }
    }
}

/// The bindings that the registers of `registers` hold.
pub open spec fn binding_views(registers: Seq<InputRegister>) -> Seq<Binding> {
    Seq::new(registers.len(), |i: int| registers[i]@)
}

/// A listing taken apart. Each region holds its lines with their line
/// endings.
#[derive(Clone, Debug, PartialEq, Eq)]
pub struct ShaderInfo {
    pub header: Vec<String>,
    pub input_signature: Vec<String>,
    pub output_signature: Vec<String>,
    pub declarations: Vec<String>,
    pub code_lines: Vec<String>,
    pub input_registers: Vec<InputRegister>,
    pub temp_reg_count: usize,
}

/// What a `ShaderInfo` holds, as plain values.
pub struct Listing {
    pub header: Seq<Seq<char>>,
    pub input_signature: Seq<Seq<char>>,
    pub output_signature: Seq<Seq<char>>,
    pub declarations: Seq<Seq<char>>,
    pub code_lines: Seq<Seq<char>>,
    pub input_registers: Seq<Binding>,
    pub temp_reg_count: usize,
}

impl View for ShaderInfo {
    type V = Listing;

    open spec fn view(&self) -> Listing {
        Listing {
            header: string_views(self.header@),
            input_signature: string_views(self.input_signature@),
            output_signature: string_views(self.output_signature@),
            declarations: string_views(self.declarations@),
            code_lines: string_views(self.code_lines@),
            input_registers: binding_views(self.input_registers@),
            temp_reg_count: self.temp_reg_count,
        }
    }
}

/// The listing with nothing in it.
pub open spec fn empty_listing() -> Listing {
    Listing {
        header: Seq::empty(),
        input_signature: Seq::empty(),
        output_signature: Seq::empty(),
        declarations: Seq::empty(),
        code_lines: Seq::empty(),
        input_registers: Seq::empty(),
        temp_reg_count: 0,
    }
}

/// All the lines of `listing`, region after region.
pub open spec fn all_lines(listing: Listing) -> Seq<Seq<char>> {
    listing.header + listing.input_signature + listing.output_signature + listing.declarations
        + listing.code_lines
}

/// The binding that the captured groups of a signature row write down. The
/// row is malformed where a group is missing or a number cannot be read.
pub open spec fn binding_of(groups: Seq<Option<Seq<char>>>) -> Result<Binding, ShaderError> {
    if groups.len() == 5 && groups[1] is Some && groups[2] is Some && groups[3] is Some
        && groups[4] is Some && parse_decimal(groups[2]->0) is Some && parse_decimal(
        groups[4]->0,
    ) is Some {
        Ok(
            Binding {
                name: groups[1]->0,
                index: parse_decimal(groups[2]->0)->0,
                mask: groups[3]->0,
                reg: parse_decimal(groups[4]->0)->0,
            },
        )
    } else {
        Err(ShaderError::Malformed)
    }
}

/// The count that the captured groups of a count declaration write down.
pub open spec fn count_of(groups: Seq<Option<Seq<char>>>) -> Result<usize, ShaderError> {
    if groups.len() == 2 && groups[1] is Some && parse_decimal(groups[1]->0) is Some {
        Ok(parse_decimal(groups[1]->0)->0)
    } else {
        Err(ShaderError::Malformed)
    }
}

/// What `line` says as a row of the input signature: nothing where it is no
/// such row, else its binding.
pub open spec fn row_binding(line: Seq<char>) -> Result<Option<Binding>, ShaderError> {
    if !regex_compiles(ROW_PATTERN@) {
        Err(ShaderError::Pattern)
    } else {
        match regex_captures(ROW_PATTERN@, line) {
            None => Ok(None),
            Some(groups) => match binding_of(groups) {
                Ok(binding) => Ok(Some(binding)),
                Err(e) => Err(e),
            },
        }
    }
}

/// Whether `line` declares the count of scratch registers: it begins with
/// the keyword.
pub open spec fn is_count_declaration(line: Seq<char>) -> bool {
    occurs_at(line, COUNT_KEYWORD@, 0)
}

/// What `line` says of the count of scratch registers: nothing where it is
/// no declaration of the count, else the count. A declaration of the count
/// that does not hold a count that can be read is malformed.
pub open spec fn row_count(line: Seq<char>) -> Result<Option<usize>, ShaderError> {
    if !is_count_declaration(line) {
        Ok(None)
    } else if !regex_compiles(COUNT_PATTERN@) {
        Err(ShaderError::Pattern)
    } else {
        match regex_captures(COUNT_PATTERN@, line) {
            None => Err(ShaderError::Malformed),
            Some(groups) => match count_of(groups) {
                Ok(count) => Ok(Some(count)),
                Err(e) => Err(e),
            },
        }
    }
}

/// A scan in progress: the region of the last line read and what has been
/// gathered so far.
pub struct Scan {
    pub section: Section,
    pub listing: Listing,
}

/// The scan before the first line.
pub open spec fn scan_start() -> Scan {
    Scan { section: Section::Header, listing: empty_listing() }
}

/// `listing` with what a line that belongs to `section` and says `text`
/// declares: a binding in the input signature, a count in the declarations.
pub open spec fn note_line(listing: Listing, section: Section, text: Seq<char>) -> Result<
    Listing,
    ShaderError,
> {
    match section {
        Section::InputSignature => match row_binding(text) {
            Err(e) => Err(e),
            Ok(None) => Ok(listing),
            Ok(Some(binding)) => Ok(
                Listing { input_registers: listing.input_registers.push(binding), ..listing },
            ),
        },
        Section::Declarations => match row_count(text) {
            Err(e) => Err(e),
            Ok(None) => Ok(listing),
            Ok(Some(count)) => Ok(Listing { temp_reg_count: count, ..listing }),
        },
        _ => Ok(listing),
    }
}

/// `listing` with `line` added at the end of the region `section`.
pub open spec fn file_line(listing: Listing, section: Section, line: Seq<char>) -> Listing {
    match section {
        Section::Header => Listing { header: listing.header.push(line), ..listing },
        Section::InputSignature => Listing {
            input_signature: listing.input_signature.push(line),
            ..listing
        },
        Section::OutputSignature => Listing {
            output_signature: listing.output_signature.push(line),
            ..listing
        },
        Section::Declarations => Listing {
            declarations: listing.declarations.push(line),
            ..listing
        },
        Section::Code => Listing { code_lines: listing.code_lines.push(line), ..listing },
    }
}

/// The scan after one more line. What the line says decides its region;
/// the line is read as a line of that region and filed there, with its line
/// ending.
pub open spec fn scan_line(scan: Scan, line: Seq<char>) -> Result<Scan, ShaderError> {
    let text = line_text(line);
    let section = section_after(scan.section, text);
    match note_line(scan.listing, section, text) {
        Err(e) => Err(e),
        Ok(noted) => Ok(Scan { section, listing: file_line(noted, section, line) }),
    }
}

/// The scan after all of `lines`, or the first failure on the way.
pub open spec fn scan_lines(lines: Seq<Seq<char>>) -> Result<Scan, ShaderError>
    decreases lines.len(),
{
    if lines.len() == 0 {
        Ok(scan_start())
    } else {
        match scan_lines(lines.drop_last()) {
            Err(e) => Err(e),
            Ok(scan) => scan_line(scan, lines.last()),
        }
    }
}

/// The listing that `content` holds.
pub open spec fn parse_listing(content: Seq<char>) -> Result<Listing, ShaderError> {
    match scan_lines(split_lines(content)) {
        Err(e) => Err(e),
        Ok(scan) => Ok(scan.listing),
    }
}

/// The characters of a captured group.
fn group_chars(groups: &Vec<Option<String>>, i: usize) -> (r: Option<Vec<char>>)
    requires
        i < groups@.len(),
    ensures
        match r {
            Some(chars) => group_views(groups@)[i as int] == Some(chars@),
            None => group_views(groups@)[i as int] is None,
        },
{
    match &groups[i] {
        Some(text) => Some(chars_of(text.as_str())),
        None => None,
    }
}

/// Reads the binding of a signature row from its captured groups.
pub fn read_binding(groups: &Vec<Option<String>>) -> (r: Result<InputRegister, ShaderError>)
    ensures
        match r {
            Ok(register) => binding_of(group_views(groups@)) == Ok::<Binding, ShaderError>(
                register@,
            ),
            Err(e) => binding_of(group_views(groups@)) == Err::<Binding, ShaderError>(e),
        },
{
    if groups.len() != 5 {
        return Err(ShaderError::Malformed);
    }
    let name = match group_chars(groups, 1) {
        Some(chars) => string_of(chars.as_slice()),
        None => { return Err(ShaderError::Malformed); },
    };
    let index = match group_chars(groups, 2) {
        Some(chars) => match read_decimal(chars.as_slice()) {
            Some(number) => number,
            None => { return Err(ShaderError::Malformed); },
        },
        None => { return Err(ShaderError::Malformed); },
    };
    let mask = match group_chars(groups, 3) {
        Some(chars) => string_of(chars.as_slice()),
        None => { return Err(ShaderError::Malformed); },
    };
    let reg = match group_chars(groups, 4) {
        Some(chars) => match read_decimal(chars.as_slice()) {
            Some(number) => number,
            None => { return Err(ShaderError::Malformed); },
        },
        None => { return Err(ShaderError::Malformed); },
    };
    Ok(InputRegister { name, index, mask, reg })
}

/// Reads the count of scratch registers from the captured groups of its
/// declaration.
pub fn read_count(groups: &Vec<Option<String>>) -> (r: Result<usize, ShaderError>)
    ensures
        r == count_of(group_views(groups@)),
{
    if groups.len() != 2 {
        return Err(ShaderError::Malformed);
    }
    match group_chars(groups, 1) {
        Some(chars) => match read_decimal(chars.as_slice()) {
            Some(number) => Ok(number),
            None => Err(ShaderError::Malformed),
        },
        None => Err(ShaderError::Malformed),
    }
}

/// Reads what a line that belongs to `section` and says `text` declares.
fn note(info: &mut ShaderInfo, section: Section, text: &[char]) -> (r: Result<(), ShaderError>)
    ensures
        match r {
            Ok(()) => note_line(old(info)@, section, text@) == Ok::<Listing, ShaderError>(
                final(info)@,
            ),
            Err(e) => note_line(old(info)@, section, text@) == Err::<Listing, ShaderError>(e),
        },
{
    match section {
        Section::InputSignature => {
            let line = string_of(text);
            match capture_groups(ROW_PATTERN, line.as_str()) {
                Err(e) => Err(e),
                Ok(None) => Ok(()),
                Ok(Some(groups)) => match read_binding(&groups) {
                    Err(e) => Err(e),
                    Ok(register) => {
                        info.input_registers.push(register);
                        assert(binding_views(info.input_registers@) =~= binding_views(
                            old(info).input_registers@,
                        ).push(register@));
                        Ok(())
                    },
                },
            }
        },
        Section::Declarations => {
            if !begins_with(text, COUNT_KEYWORD) {
                return Ok(());
            }
            let line = string_of(text);
            match capture_groups(COUNT_PATTERN, line.as_str()) {
                Err(e) => Err(e),
                Ok(None) => Err(ShaderError::Malformed),
                Ok(Some(groups)) => match read_count(&groups) {
                    Err(e) => Err(e),
                    Ok(count) => {
                        info.temp_reg_count = count;
                        Ok(())
                    },
                },
            }
        },
        _ => Ok(()),
    }
}

/// Files `line` at the end of the region `section`.
fn file(info: &mut ShaderInfo, section: Section, line: String)
    ensures
        final(info)@ == file_line(old(info)@, section, line@),
{
    match section {
        Section::Header => {
            info.header.push(line);
            assert(string_views(info.header@) =~= string_views(old(info).header@).push(line@));
        },
        Section::InputSignature => {
            info.input_signature.push(line);
            assert(string_views(info.input_signature@) =~= string_views(
                old(info).input_signature@,
            ).push(line@));
        },
        Section::OutputSignature => {
            info.output_signature.push(line);
            assert(string_views(info.output_signature@) =~= string_views(
                old(info).output_signature@,
            ).push(line@));
        },
        Section::Declarations => {
            info.declarations.push(line);
            assert(string_views(info.declarations@) =~= string_views(
                old(info).declarations@,
            ).push(line@));
        },
        Section::Code => {
            info.code_lines.push(line);
            assert(string_views(info.code_lines@) =~= string_views(old(info).code_lines@).push(
                line@,
            ));
        },
    }
}

/// Takes a listing apart: splits `content` into lines, files each line in its
/// region, with its line ending, and gathers the register bindings of the
/// input signature and the count of scratch registers. Fails on the first
/// line that holds a number that cannot be read. The regions, one after the
/// other, hold the very characters of `content`.
pub fn parse_shader_info(content: &str) -> (r: Result<ShaderInfo, ShaderError>)
    ensures
        match r {
            Ok(info) => parse_listing(content@) == Ok::<Listing, ShaderError>(info@),
            Err(e) => parse_listing(content@) == Err::<Listing, ShaderError>(e),
        },
        r matches Ok(info) ==> all_lines(info@) == split_lines(content@) && concat_lines(
            all_lines(info@),
        ) == content@,
{
    proof {
        lemma_regions_partition(content@);
    }
    let text = chars_of(content);
    let lines = lines_of(text.as_slice());
    let mut info = ShaderInfo {
        header: Vec::new(),
        input_signature: Vec::new(),
        output_signature: Vec::new(),
        declarations: Vec::new(),
        code_lines: Vec::new(),
        input_registers: Vec::new(),
        temp_reg_count: 0,
    };
    let mut section = Section::Header;
    let ghost all = split_lines(content@);
    assert(info@ == empty_listing()) by {
        assert(info@.header =~= Seq::<Seq<char>>::empty());
        assert(info@.input_signature =~= Seq::<Seq<char>>::empty());
        assert(info@.output_signature =~= Seq::<Seq<char>>::empty());
        assert(info@.declarations =~= Seq::<Seq<char>>::empty());
        assert(info@.code_lines =~= Seq::<Seq<char>>::empty());
        assert(info@.input_registers =~= Seq::<Binding>::empty());
    }
    assert(all.take(0) =~= Seq::<Seq<char>>::empty());
    let mut k: usize = 0;
    while k < lines.len()
        invariant
            k <= lines@.len(),
            line_views(lines@) == all,
            all == split_lines(content@),
            scan_lines(all.take(k as int)) == Ok::<Scan, ShaderError>(
                Scan { section, listing: info@ },
            ),
        decreases lines@.len() - k,
    {
        let line = string_of(lines[k].as_slice());
        let text = text_of(lines[k].as_slice());
        proof {
            assert(all.take(k + 1).drop_last() =~= all.take(k as int));
            assert(all.take(k + 1).last() == line@);
        }
        section = advance_chars(section, text.as_slice());
        match note(&mut info, section, text.as_slice()) {
            Err(e) => {
                proof {
                    lemma_scan_failure_stays(all, k + 1);
                }
                return Err(e);
            },
            Ok(()) => {},
        }
        file(&mut info, section, line);
        k += 1;
    }
    assert(all.take(k as int) =~= all);
    Ok(info)
}

/// A scan that has failed on the first `k` lines fails in the same way on all
/// of them.
pub proof fn lemma_scan_failure_stays(lines: Seq<Seq<char>>, k: int)
    requires
        0 <= k <= lines.len(),
        scan_lines(lines.take(k)) is Err,
    ensures
        scan_lines(lines) == scan_lines(lines.take(k)),
    decreases lines.len() - k,
{
    if k == lines.len() {
        assert(lines.take(k) =~= lines);
    } else {
        assert(lines.take(k + 1).drop_last() =~= lines.take(k));
        lemma_scan_failure_stays(lines, k + 1);
    }
}

/// Whether the regions that follow `section` are empty.
pub open spec fn later_regions_empty(listing: Listing, section: Section) -> bool {
    &&& rank(section) < 1 ==> listing.input_signature.len() == 0
    &&& rank(section) < 2 ==> listing.output_signature.len() == 0
    &&& rank(section) < 3 ==> listing.declarations.len() == 0
    &&& rank(section) < 4 ==> listing.code_lines.len() == 0
}

/// The regions of a scan hold the lines that were read, each of them once
/// and in the order in which they came, and no region behind that of the
/// last line holds anything.
pub proof fn lemma_regions_hold_all_lines(lines: Seq<Seq<char>>)
    ensures
        scan_lines(lines) matches Ok(scan) ==> all_lines(scan.listing) == lines
            && later_regions_empty(scan.listing, scan.section),
    decreases lines.len(),
{
    if lines.len() == 0 {
        assert(all_lines(empty_listing()) =~= lines);
    } else {
        lemma_regions_hold_all_lines(lines.drop_last());
        match scan_lines(lines.drop_last()) {
            Err(_) => {},
            Ok(before) => {
                let line = lines.last();
                let section = section_after(before.section, line_text(line));
                match note_line(before.listing, section, line_text(line)) {
                    Err(_) => {},
                    Ok(noted) => {
                        lemma_section_never_goes_back(before.section, line_text(line));
                        let after = file_line(noted, section, line);
                        assert(all_lines(noted) == all_lines(before.listing));
                        assert(all_lines(after) =~= all_lines(noted).push(line));
                        assert(lines =~= lines.drop_last().push(line));
                    },
                }
            },
        }
    }
}

/// Taking a text apart and putting the five regions one after the other
/// gives back the lines of the text, and with them its very characters.
pub proof fn lemma_regions_partition(content: Seq<char>)
    ensures
        parse_listing(content) matches Ok(listing) ==> all_lines(listing) == split_lines(content)
            && concat_lines(all_lines(listing)) == content,
{
    lemma_regions_hold_all_lines(split_lines(content));
    lemma_split_keeps_text(content);
}

/// Whether the line at place `k` of `lines` belongs to the input signature.
pub open spec fn in_signature(lines: Seq<Seq<char>>, k: int) -> bool {
    scan_lines(lines.take(k)) matches Ok(before) && section_after(
        before.section,
        line_text(lines[k]),
    ) == Section::InputSignature
}

/// A scan that succeeds has succeeded on every beginning of its lines, and
/// the bindings gathered on the way stay where they are.
pub proof fn lemma_bindings_stay(lines: Seq<Seq<char>>, m: int)
    requires
        0 <= m <= lines.len(),
        scan_lines(lines) is Ok,
    ensures
        scan_lines(lines.take(m)) is Ok,
        scan_lines(lines.take(m))->Ok_0.listing.input_registers.is_prefix_of(
            scan_lines(lines)->Ok_0.listing.input_registers,
        ),
    decreases lines.len() - m,
{
    if m == lines.len() {
        assert(lines.take(m) =~= lines);
    } else {
        lemma_bindings_stay(lines, m + 1);
        assert(lines.take(m + 1).drop_last() =~= lines.take(m));
    }
}

/// A row of the input signature that writes down a binding leaves that
/// binding among the registers of the listing.
pub proof fn lemma_row_is_bound(lines: Seq<Seq<char>>, k: int)
    requires
        0 <= k < lines.len(),
        scan_lines(lines) is Ok,
        in_signature(lines, k),
        row_binding(line_text(lines[k])) matches Ok(Some(_)),
    ensures
        scan_lines(lines)->Ok_0.listing.input_registers.contains(
            row_binding(line_text(lines[k]))->Ok_0->0,
        ),
{
    let binding = row_binding(line_text(lines[k]))->Ok_0->0;
    lemma_bindings_stay(lines, k + 1);
    assert(lines.take(k + 1).drop_last() =~= lines.take(k));
    let before = scan_lines(lines.take(k))->Ok_0;
    let after = scan_lines(lines.take(k + 1))->Ok_0;
    let at = before.listing.input_registers.len() as int;
    assert(after.listing.input_registers[at] == binding);
    assert(scan_lines(lines)->Ok_0.listing.input_registers[at] == binding);
}

} // verus!
