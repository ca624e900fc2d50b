//! Assembling a program into a clef file: its lines read, its pseudo-instructions expanded, split
//! into sections, each instruction read against the instruction set, and each section laid out
//! and rendered.
use vstd::prelude::*;

use crate::asm_param::{convert_instruction, convertible, converted, names_view};
use crate::assembly::{
    DirectiveView, Line, LineView, expand_lines, li_expandable, line_views, preprocess, program_of, program_readable,
    replace_complex_pseudo, Directive,
};
use crate::clef::{Architecture, Clef, Os, Section};
use crate::object::{SectionLine, emit_section, emitted, section_ready};
use crate::pseudo::{replace_simple_pseudo, simple_replaced, table_view};
use crate::section::SectionName;
use crate::simple_instruction::Template;

verus! {

/// The lines split into sections: a section directive starts one, and every other line goes to
/// the last one started. Lines before the first section directive belong to none.
pub open spec fn sections_of(ls: Seq<LineView>) -> Seq<(SectionName, Seq<LineView>)>
    decreases ls.len(),
{
    if ls.len() == 0 {
        Seq::empty()
    } else {
        let prev = sections_of(ls.drop_last());
        match ls.last() {
            LineView::Directive(DirectiveView::Section(n)) => prev.push((n, Seq::empty())),
            l => if prev.len() == 0 {
                prev
            } else {
                prev.update(prev.len() - 1, (prev.last().0, prev.last().1.push(l)))
            },
        }
    }
}

/// The program starts with a section directive, or is empty.
pub open spec fn starts_with_section(ls: Seq<LineView>) -> bool {
    ls.len() == 0 || ls[0] matches LineView::Directive(DirectiveView::Section(_))
}

/// Every instruction of the lines can be read against the instruction set.
pub open spec fn all_convertible(ls: Seq<LineView>, templates: Seq<Template>, registers: Seq<(Seq<char>, u8)>,
    csrs: Seq<(Seq<char>, u16)>) -> bool {
    forall|j: int| 0 <= j < ls.len() ==> (#[trigger] ls[j] matches LineView::Instruction(name, params)
        ==> convertible(name, params, templates, registers, csrs))
}

/// `sl` is line `l` read: the same tag or export, or the instruction read.
pub open spec fn line_converted(sl: SectionLine, l: LineView, templates: Seq<Template>, registers: Seq<(Seq<char>, u8)>,
    csrs: Seq<(Seq<char>, u16)>) -> bool {
    match l {
        LineView::Tag(t) => sl matches SectionLine::Tag(s) && s@ == t,
        LineView::Directive(DirectiveView::Global(g)) => sl matches SectionLine::Global(s) && s@ == g,
        LineView::Instruction(name, params) => sl matches SectionLine::Instruction(ins)
            && converted(ins, name, params, templates, registers, csrs),
        LineView::Directive(DirectiveView::Section(_)) => false,
    }
}

/// Each of `sls` is the matching line of `ls` read.
pub open spec fn lines_converted(sls: Seq<SectionLine>, ls: Seq<LineView>, templates: Seq<Template>,
    registers: Seq<(Seq<char>, u8)>, csrs: Seq<(Seq<char>, u16)>) -> bool {
    &&& sls.len() == ls.len()
    &&& forall|j: int| 0 <= j < ls.len() ==> line_converted(#[trigger] sls[j], ls[j], templates, registers, csrs)
}

/// Each of `secs` is the lines of the matching section read.
pub open spec fn program_converted(secs: Seq<Seq<SectionLine>>, sections: Seq<(SectionName, Seq<LineView>)>,
    templates: Seq<Template>, registers: Seq<(Seq<char>, u8)>, csrs: Seq<(Seq<char>, u16)>) -> bool {
    &&& secs.len() == sections.len()
    &&& forall|k: int| 0 <= k < sections.len() ==> lines_converted(#[trigger] secs[k], sections[k].1, templates, registers, csrs)
}

/// The lines of a program once both kinds of pseudo-instruction are expanded.
pub open spec fn expanded(code: Seq<char>, pseudo_simple: Seq<(Seq<char>, Seq<char>)>) -> Seq<LineView> {
    simple_replaced(expand_lines(program_of(code)), pseudo_simple)
}

/// The lines of one section, each read: tags and exports as they are, instructions against
/// the instruction set.
fn convert_lines(lines: &Vec<Line>, templates: &[Template], registers: &[(String, u8)], csrs: &[(String, u16)])
    -> (res: Option<Vec<SectionLine>>)
    requires
        forall|j: int| 0 <= j < lines@.len() ==> !((#[trigger] lines@[j])@ matches LineView::Directive(DirectiveView::Section(_))),
    ensures
        match res {
            Some(sls) => lines_converted(sls@, line_views(lines@), templates@, names_view(registers@), names_view(csrs@)),
            None => !all_convertible(line_views(lines@), templates@, names_view(registers@), names_view(csrs@)),
        },
{
    let mut sls: Vec<SectionLine> = Vec::new();
    let mut j: usize = 0;
    while j < lines.len()
        invariant
            j <= lines@.len(),
            forall|q: int| 0 <= q < lines@.len() ==> !((#[trigger] lines@[q])@ matches LineView::Directive(DirectiveView::Section(_))),
            lines_converted(sls@, line_views(lines@).take(j as int), templates@, names_view(registers@), names_view(csrs@)),
        decreases lines@.len() - j,
    {
        let ghost before = sls@;
        assert(line_views(lines@)[j as int] == lines@[j as int]@);
        let sl = match &lines[j] {
            Line::Tag(t) => SectionLine::Tag(t.clone()),
            Line::Directive(Directive::Global(g)) => SectionLine::Global(g.clone()),
            Line::Instruction(u) => match convert_instruction(u, templates, registers, csrs) {
                Some(ins) => SectionLine::Instruction(ins),
                None => {
                    assert(!all_convertible(line_views(lines@), templates@, names_view(registers@), names_view(csrs@))) by {
                        assert(line_views(lines@)[j as int] matches LineView::Instruction(name, params));
                    }
                    return None;
                },
            },
            Line::Directive(Directive::Section(_)) => {
                assert(false);
                return None;
            },
        };
        sls.push(sl);
        proof {
            assert forall|q: int| 0 <= q < j + 1 implies line_converted(#[trigger] sls@[q], line_views(lines@).take(j + 1)[q],
                templates@, names_view(registers@), names_view(csrs@)) by {
                if q < j {
                    assert(sls@[q] == before[q]);
                    assert(line_views(lines@).take(j + 1)[q] == line_views(lines@).take(j as int)[q]);
                }
            }
        }
        j = j + 1;
    }
    assert(line_views(lines@).take(lines@.len() as int) =~= line_views(lines@));
    Some(sls)
}

/// The lines split into sections, as the lines themselves.
fn split_sections(lines: &Vec<Line>) -> (res: Vec<(SectionName, Vec<Line>)>)
    ensures
        res@.len() == sections_of(line_views(lines@)).len(),
        forall|k: int| 0 <= k < res@.len() ==> (#[trigger] res@[k]).0 == sections_of(line_views(lines@))[k].0
            && line_views(res@[k].1@) == sections_of(line_views(lines@))[k].1,
{
    let mut res: Vec<(SectionName, Vec<Line>)> = Vec::new();
    let mut j: usize = 0;
    while j < lines.len()
        invariant
            j <= lines@.len(),
            res@.len() == sections_of(line_views(lines@).take(j as int)).len(),
            forall|k: int| 0 <= k < res@.len() ==> (#[trigger] res@[k]).0 == sections_of(line_views(lines@).take(j as int))[k].0
                && line_views(res@[k].1@) == sections_of(line_views(lines@).take(j as int))[k].1,
        decreases lines@.len() - j,
    {
        let ghost prefix = line_views(lines@).take(j + 1);
        assert(prefix.drop_last() =~= line_views(lines@).take(j as int));
        assert(prefix.last() == lines@[j as int]@);
        let ghost before = res@;
        match &lines[j] {
            Line::Directive(Directive::Section(n)) => {
                res.push((*n, Vec::new()));
                proof {
                    assert forall|k: int| 0 <= k < res@.len() implies (#[trigger] res@[k]).0 == sections_of(prefix)[k].0
                        && line_views(res@[k].1@) == sections_of(prefix)[k].1 by {
                        if k < before.len() {
                            assert(res@[k] == before[k]);
                        } else {
                            assert(line_views(res@[k].1@) =~= Seq::<LineView>::empty());
                        }
                    }
                }
            },
            line => {
                if res.len() > 0 {
                    let last = res.len() - 1;
                    let (n, mut section_lines) = res.remove(last);
                    let ghost old_lines = section_lines@;
                    section_lines.push(line.duplicate());
                    res.push((n, section_lines));
                    proof {
                        assert(line_views(section_lines@) =~= line_views(old_lines).push(lines@[j as int]@));
                        assert forall|k: int| 0 <= k < res@.len() implies (#[trigger] res@[k]).0 == sections_of(prefix)[k].0
                            && line_views(res@[k].1@) == sections_of(prefix)[k].1 by {
                            if k < last {
                                assert(res@[k] == before[k]);
                            }
                        }
                    }
                }
            },
        }
        j = j + 1;
    }
    assert(line_views(lines@).take(lines@.len() as int) =~= line_views(lines@));
    res
}

/// Assembles a program into a clef file for RISC-V on bare metal: reads its lines, expands
/// `li` and the simple pseudo-instructions of `pseudo_simple`, splits the lines into sections,
/// reads each instruction against `templates`, `registers` and `csrs`, and emits each section
/// in order. `None` where the program does not start with a section directive or an
/// instruction cannot be read.
pub fn emit_clef(asm_code: &str, templates: &[Template], pseudo_simple: &[(String, String)], registers: &[(String, u8)],
    csrs: &[(String, u16)]) -> (res: Option<Clef>)
    requires
        program_readable(asm_code@),
        forall|k: int| 0 <= k < program_of(asm_code@).len() ==> li_expandable(#[trigger] program_of(asm_code@)[k]),
        forall|secs: Seq<Seq<SectionLine>>| #[trigger] program_converted(secs,
            sections_of(expanded(asm_code@, table_view(pseudo_simple@))), templates@, names_view(registers@), names_view(csrs@))
            ==> forall|k: int| 0 <= k < secs.len() ==> section_ready(#[trigger] secs[k]),
    ensures
        ({
            let ls = expanded(asm_code@, table_view(pseudo_simple@));
            let sections = sections_of(ls);
            &&& res is None <==> !starts_with_section(ls)
                || !all_convertible(ls, templates@, names_view(registers@), names_view(csrs@))
            &&& res matches Some(c) ==> c.architecture == Architecture::RiscV && c.os == Os::BareMetal
                && c.sections@.len() == sections.len()
                && exists|secs: Seq<Seq<SectionLine>>| program_converted(secs, sections, templates@, names_view(registers@),
                    names_view(csrs@))
                    && forall|k: int| 0 <= k < sections.len() ==> emitted(sections[k].0, secs[k], #[trigger] c.sections@[k])
        }),
{
    let preprocessed = preprocess(asm_code);
    proof {
        assert forall|k: int| 0 <= k < preprocessed@.len() implies li_expandable(#[trigger] preprocessed@[k]@) by {
            assert(line_views(preprocessed@)[k] == preprocessed@[k]@);
        }
    }
    let complex_replaced = replace_complex_pseudo(&preprocessed);
    let simple = replace_simple_pseudo(&complex_replaced, pseudo_simple);
    let ghost ls = expanded(asm_code@, table_view(pseudo_simple@));
    assert(line_views(simple@) == ls);
    if simple.len() > 0 {
        let first_is_section = match &simple[0] {
            Line::Directive(Directive::Section(_)) => true,
            _ => false,
        };
        assert(first_is_section == (ls[0] matches LineView::Directive(DirectiveView::Section(_))));
        if !first_is_section {
            return None;
        }
    }
    let split = split_sections(&simple);
    let ghost sections = sections_of(ls);
    proof {
        lemma_sections_cover(ls);
    }
    let mut converted_sections: Vec<(SectionName, Vec<SectionLine>)> = Vec::new();
    let mut k: usize = 0;
    while k < split.len()
        invariant
            k <= split@.len(),
            split@.len() == sections.len(),
            sections == sections_of(ls),
            ls == expanded(asm_code@, table_view(pseudo_simple@)),
            starts_with_section(ls),
            forall|q: int| 0 <= q < split@.len() ==> (#[trigger] split@[q]).0 == sections[q].0
                && line_views(split@[q].1@) == sections[q].1,
            forall|q: int, j: int| 0 <= q < sections.len() && 0 <= j < sections[q].1.len()
                ==> !(#[trigger] sections[q].1[j] matches LineView::Directive(DirectiveView::Section(_))),
            all_convertible(ls, templates@, names_view(registers@), names_view(csrs@))
                <==> forall|q: int| 0 <= q < sections.len() ==> all_convertible(#[trigger] sections[q].1, templates@,
                    names_view(registers@), names_view(csrs@)),
            converted_sections@.len() == k,
            forall|q: int| 0 <= q < k ==> (#[trigger] converted_sections@[q]).0 == sections[q].0
                && lines_converted(converted_sections@[q].1@, sections[q].1, templates@, names_view(registers@), names_view(csrs@)),
            forall|q: int| 0 <= q < k ==> all_convertible(#[trigger] sections[q].1, templates@, names_view(registers@),
                names_view(csrs@)),
        decreases split@.len() - k,
    {
        let (name, section_lines) = (&split[k].0, &split[k].1);
        proof {
            assert forall|j: int| 0 <= j < section_lines@.len() implies !((#[trigger] section_lines@[j])@ matches
                LineView::Directive(DirectiveView::Section(_))) by {
                assert(line_views(section_lines@)[j] == section_lines@[j]@);
            }
        }
        match convert_lines(section_lines, templates, registers, csrs) {
            Some(sls) => {
                proof {
                    lemma_converted_convertible(sls@, sections[k as int].1, templates@, names_view(registers@), names_view(csrs@));
                }
                converted_sections.push((*name, sls));
            },
            None => {
                assert(!all_convertible(sections[k as int].1, templates@, names_view(registers@), names_view(csrs@)));
                return None;
            },
        }
        k = k + 1;
    }
    let ghost secs = converted_sections@.map_values(|p: (SectionName, Vec<SectionLine>)| p.1@);
    assert(program_converted(secs, sections, templates@, names_view(registers@), names_view(csrs@))) by {
        assert forall|q: int| 0 <= q < sections.len() implies lines_converted(#[trigger] secs[q], sections[q].1, templates@,
            names_view(registers@), names_view(csrs@)) by {
            assert(secs[q] == converted_sections@[q].1@);
        }
    }
    let mut result = Clef::new(Architecture::RiscV, Os::BareMetal);
    let mut rest = converted_sections;
    let ghost n = sections.len() as int;
    let ghost mut done: int = 0;
    while rest.len() > 0
        invariant
            0 <= done <= n,
            n == sections.len(),
            rest@.len() == n - done,
            forall|q: int| 0 <= q < rest@.len() ==> (#[trigger] rest@[q]).0 == sections[q + done].0
                && rest@[q].1@ == secs[q + done],
            forall|q: int| 0 <= q < secs.len() ==> section_ready(#[trigger] secs[q]),
            secs.len() == n,
            result.architecture == Architecture::RiscV,
            result.os == Os::BareMetal,
            result.sections@.len() == done,
            forall|q: int| 0 <= q < done ==> emitted(sections[q].0, secs[q], #[trigger] result.sections@[q]),
        decreases rest@.len(),
    {
        let ghost old_rest = rest@;
        let (name, sls) = rest.remove(0);
        assert(old_rest[0].1@ == secs[done]);
        assert(section_ready(secs[done]));
        let section = emit_section(name, sls);
        let ghost before = result.sections@;
        result.sections.push(section);
        proof {
            assert forall|q: int| 0 <= q < rest@.len() implies (#[trigger] rest@[q]).0 == sections[q + done + 1].0
                && rest@[q].1@ == secs[q + done + 1] by {
                assert(rest@[q] == old_rest[q + 1]);
            }
            assert forall|q: int| 0 <= q < done + 1 implies emitted(sections[q].0, secs[q], #[trigger] result.sections@[q]) by {
                if q < done {
                    assert(result.sections@[q] == before[q]);
                }
            }
            done = done + 1;
        }
    }
    Some(result)
}

/// Where a program starts with a section directive, its sections hold every line but the
/// section directives, and all its instructions can be read exactly where those of each section
/// can.
proof fn lemma_sections_cover(ls: Seq<LineView>)
    requires
        starts_with_section(ls),
    ensures
        forall|q: int, j: int| 0 <= q < sections_of(ls).len() && 0 <= j < sections_of(ls)[q].1.len()
            ==> !(#[trigger] sections_of(ls)[q].1[j] matches LineView::Directive(DirectiveView::Section(_))),
        forall|templates: Seq<Template>, registers: Seq<(Seq<char>, u8)>, csrs: Seq<(Seq<char>, u16)>|
            #[trigger] all_convertible(ls, templates, registers, csrs) <==> forall|q: int| 0 <= q < sections_of(ls).len()
                ==> all_convertible(#[trigger] sections_of(ls)[q].1, templates, registers, csrs),
        ls.len() > 0 ==> sections_of(ls).len() > 0,
    decreases ls.len(),
{
    if ls.len() > 0 {
        let rest = ls.drop_last();
        if rest.len() > 0 {
            assert(rest[0] == ls[0]);
        }
        lemma_sections_cover(rest);
        let prev = sections_of(rest);
        let cur = sections_of(ls);
        if rest.len() == 0 {
            assert(ls.last() == ls[0]);
        }
        assert forall|templates: Seq<Template>, registers: Seq<(Seq<char>, u8)>, csrs: Seq<(Seq<char>, u16)>|
            #[trigger] all_convertible(ls, templates, registers, csrs) <==> forall|q: int| 0 <= q < cur.len()
                ==> all_convertible(#[trigger] cur[q].1, templates, registers, csrs) by {
            let whole = all_convertible(ls, templates, registers, csrs);
            let each = forall|q: int| 0 <= q < cur.len() ==> all_convertible(#[trigger] cur[q].1, templates, registers, csrs);
            assert(all_convertible(rest, templates, registers, csrs) <==> forall|q: int| 0 <= q < prev.len()
                ==> all_convertible(#[trigger] prev[q].1, templates, registers, csrs));
            let last_ok = ls.last() matches LineView::Instruction(name, params) ==> convertible(name, params, templates, registers, csrs);
            assert(whole <==> all_convertible(rest, templates, registers, csrs) && last_ok) by {
                if whole {
                    assert forall|j: int| 0 <= j < rest.len() implies (#[trigger] rest[j] matches LineView::Instruction(name, params)
                        ==> convertible(name, params, templates, registers, csrs)) by {
                        assert(rest[j] == ls[j]);
                    }
                    assert(ls[ls.len() - 1] == ls.last());
                }
                if all_convertible(rest, templates, registers, csrs) && last_ok {
                    assert forall|j: int| 0 <= j < ls.len() implies (#[trigger] ls[j] matches LineView::Instruction(name, params)
                        ==> convertible(name, params, templates, registers, csrs)) by {
                        if j < rest.len() {
                            assert(rest[j] == ls[j]);
                        }
                    }
                }
            }
            match ls.last() {
                LineView::Directive(DirectiveView::Section(n)) => {
                    assert(all_convertible(Seq::<LineView>::empty(), templates, registers, csrs));
                    assert(each <==> forall|q: int| 0 <= q < prev.len() ==> all_convertible(#[trigger] prev[q].1, templates, registers, csrs)) by {
                        if forall|q: int| 0 <= q < prev.len() ==> all_convertible(#[trigger] prev[q].1, templates, registers, csrs) {
                            assert forall|q: int| 0 <= q < cur.len() implies all_convertible(#[trigger] cur[q].1, templates, registers, csrs) by {
                                if q < prev.len() {
                                    assert(cur[q] == prev[q]);
                                }
                            }
                        }
                        if each {
                            assert forall|q: int| 0 <= q < prev.len() implies all_convertible(#[trigger] prev[q].1, templates, registers, csrs) by {
                                assert(cur[q] == prev[q]);
                            }
                        }
                    }
                },
                l => {
                    let last = prev.len() - 1;
                    let grown = prev.last().1.push(l);
                    assert(cur[last].1 == grown);
                    assert(all_convertible(grown, templates, registers, csrs) <==> all_convertible(prev.last().1, templates, registers, csrs) && last_ok) by {
                        if all_convertible(grown, templates, registers, csrs) {
                            assert forall|j: int| 0 <= j < prev.last().1.len() implies (#[trigger] prev.last().1[j] matches LineView::Instruction(name, params)
                                ==> convertible(name, params, templates, registers, csrs)) by {
                                assert(grown[j] == prev.last().1[j]);
                            }
                            assert(grown[grown.len() - 1] == l);
                        }
                    }
                    assert(each <==> (forall|q: int| 0 <= q < prev.len() ==> all_convertible(#[trigger] prev[q].1, templates, registers, csrs)) && last_ok) by {
                        if each {
                            assert forall|q: int| 0 <= q < prev.len() implies all_convertible(#[trigger] prev[q].1, templates, registers, csrs) by {
                                if q < last {
                                    assert(cur[q] == prev[q]);
                                } else {
                                    assert(all_convertible(cur[last].1, templates, registers, csrs));
                                }
                            }
                            assert(all_convertible(cur[last].1, templates, registers, csrs));
                        }
                        if (forall|q: int| 0 <= q < prev.len() ==> all_convertible(#[trigger] prev[q].1, templates, registers, csrs)) && last_ok {
                            assert forall|q: int| 0 <= q < cur.len() implies all_convertible(#[trigger] cur[q].1, templates, registers, csrs) by {
                                if q < last {
                                    assert(cur[q] == prev[q]);
                                } else {
                                    assert(all_convertible(prev[last].1, templates, registers, csrs));
                                }
                            }
                        }
                    }
                },
            }
        }
        match ls.last() {
            LineView::Directive(DirectiveView::Section(n)) => {
                assert forall|q: int, j: int| 0 <= q < cur.len() && 0 <= j < cur[q].1.len()
                    implies !(#[trigger] cur[q].1[j] matches LineView::Directive(DirectiveView::Section(_))) by {
                    assert(cur[q] == prev[q]);
                }
            },
            l => {
                let last = prev.len() - 1;
                assert forall|q: int, j: int| 0 <= q < cur.len() && 0 <= j < cur[q].1.len()
                    implies !(#[trigger] cur[q].1[j] matches LineView::Directive(DirectiveView::Section(_))) by {
                    if q < last {
                        assert(cur[q] == prev[q]);
                    } else if j < prev[last].1.len() {
                        assert(cur[q].1[j] == prev[last].1[j]);
                    }
                }
            },
        }
    }
}

/// Lines that are read make an instruction of each line that is one, which can be read.
proof fn lemma_converted_convertible(sls: Seq<SectionLine>, ls: Seq<LineView>, templates: Seq<Template>,
    registers: Seq<(Seq<char>, u8)>, csrs: Seq<(Seq<char>, u16)>)
    requires
        lines_converted(sls, ls, templates, registers, csrs),
    ensures
        all_convertible(ls, templates, registers, csrs),
{
    assert forall|j: int| 0 <= j < ls.len() implies (#[trigger] ls[j] matches LineView::Instruction(name, params)
        ==> convertible(name, params, templates, registers, csrs)) by {
        assert(line_converted(sls[j], ls[j], templates, registers, csrs));
        match ls[j] {
            LineView::Instruction(name, params) => {
                let ins = sls[j]->Instruction_0;
                assert forall|q: int| 0 <= q < params.len() implies crate::asm_param::read_param(#[trigger] params[q],
                    registers, csrs) is Some by {
                    assert(crate::asm_param::param_view(ins.params@[q]) is Some);
                }
            },
            _ => {},
        }
    }
}

} // verus!
