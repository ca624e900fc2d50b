//! The sections of an assembly program and how their names are written.
use vstd::prelude::*;
use crate::lines::{starts_with, range_starts_with};
use crate::text::chars_of;

verus! {

/// The sections of the program.
#[derive(Debug, PartialEq, Eq, Clone, Copy, Structural)]
pub enum SectionName {
    /// The section that holds the code.
    Text,
    Data,
    Rodata,
    Bss,
}

/// How the name of a section is written.
pub open spec fn section_text(n: SectionName) -> Seq<char> {
    match n {
        SectionName::Text => ".text"@,
        SectionName::Data => ".data"@,
        SectionName::Rodata => ".rodata"@,
        SectionName::Bss => ".bss"@,
    }
}

/// The section whose name `s` begins with, and the length of that name; names are tried in
/// the order `.text`, `.data`, `.rodata`, `.bss`.
pub open spec fn section_prefix(s: Seq<char>) -> Option<(nat, SectionName)> {
    if starts_with(s, ".text"@) {
        Some((section_text(SectionName::Text).len(), SectionName::Text))
    } else if starts_with(s, ".data"@) {
        Some((section_text(SectionName::Data).len(), SectionName::Data))
    } else if starts_with(s, ".rodata"@) {
        Some((section_text(SectionName::Rodata).len(), SectionName::Rodata))
    } else if starts_with(s, ".bss"@) {
        Some((section_text(SectionName::Bss).len(), SectionName::Bss))
    } else {
        None
    }
}

impl SectionName {
    /// The name of the section as it is written, such as `.text`.
    pub fn to_string(&self) -> (res: String)
        ensures
            res@ == section_text(*self),
    {
        match self {
            SectionName::Text => ".text".to_owned(),
            SectionName::Data => ".data".to_owned(),
            SectionName::Rodata => ".rodata".to_owned(),
            SectionName::Bss => ".bss".to_owned(),
        }
    }
}

/// The section whose name `s[start..end]` begins with, and the length of that name.
pub fn section_at(s: &Vec<char>, start: usize, end: usize) -> (res: Option<(usize, SectionName)>)
    requires
        start <= end <= s@.len(),
    ensures
        match res {
            Some((k, n)) => section_prefix(s@.subrange(start as int, end as int)) == Some((k as nat, n)),
            None => section_prefix(s@.subrange(start as int, end as int)) is None,
        },
{
    let text = chars_of(".text");
    let data = chars_of(".data");
    let rodata = chars_of(".rodata");
    let bss = chars_of(".bss");
    if range_starts_with(s, start, end, &text) {
        Some((text.len(), SectionName::Text))
    } else if range_starts_with(s, start, end, &data) {
        Some((data.len(), SectionName::Data))
    } else if range_starts_with(s, start, end, &rodata) {
        Some((rodata.len(), SectionName::Rodata))
    } else if range_starts_with(s, start, end, &bss) {
        Some((bss.len(), SectionName::Bss))
    } else {
        None
    }
}

/// Reads the name of a section at the start of `code`: gives how many characters the name
/// takes and the section, or `None` where `code` begins with no section name.
pub fn parse_section(code: &str) -> (res: Option<(usize, SectionName)>)
    ensures
        match res {
            Some((k, n)) => section_prefix(code@) == Some((k as nat, n)),
            None => section_prefix(code@) is None,
        },
{
    let s = chars_of(code);
    assert(s@.subrange(0, s@.len() as int) =~= code@);
    section_at(&s, 0, s.len())
}

/// A section's written name reads back as that section, all of it.
pub proof fn lemma_section_roundtrip(n: SectionName)
    ensures
        section_prefix(section_text(n)) == Some((section_text(n).len(), n)),
{
    reveal_strlit(".text");
    reveal_strlit(".data");
    reveal_strlit(".rodata");
    reveal_strlit(".bss");
    let t = section_text(n);
    assert(t.take(t.len() as int) =~= t);
    assert(".text"@[1] == 't');
    assert(".data"@[1] == 'd');
    assert(".rodata"@[1] == 'r');
    assert(".bss"@[1] == 'b');
}

} // verus!
