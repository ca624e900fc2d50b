//! Laying out one section of an assembly program: where each instruction goes, which symbols
//! the section defines and exports, and which symbols it still waits for.
use vstd::prelude::*;

use crate::clef::{Bits, PendingSymbol, Section, SectionMeta, Symbol};
use crate::fill::{decided_values, fits_after};
use crate::param::ParsedParam;
use crate::section::{SectionName, section_text};
use crate::simple_instruction::{known_value, known_values, params_fit};
use crate::template::rendered;
use crate::name_map::NameMap;
use crate::param::{distance_to, Param};
use crate::simple_instruction::{kind_fits, parts_bit_count, resolved_to, waits_for, SimpleInstruction};

verus! {

/// A line of one section, its instruction already read against the instruction set.
#[derive(Debug, Clone)]
pub enum SectionLine {
    /// A tag, naming the offset of what follows it.
    Tag(String),
    /// An instruction.
    Instruction(SimpleInstruction),
    /// A directive that exports a symbol.
    Global(String),
}

/// How many bytes an instruction takes.
pub open spec fn instruction_bytes(ins: SimpleInstruction) -> nat {
    parts_bit_count(ins.template.parts@, ins.template.parts@.len()) / 8
}

/// How many bytes a line takes.
pub open spec fn line_bytes(line: SectionLine) -> nat {
    match line {
        SectionLine::Instruction(ins) => instruction_bytes(ins),
        _ => 0,
    }
}

/// How many bytes the first `k` lines take: the offset of line `k`.
pub open spec fn bytes_before(lines: Seq<SectionLine>, k: int) -> nat
    decreases k,
{
    if k <= 0 {
        0
    } else {
        bytes_before(lines, k - 1) + line_bytes(lines[k - 1])
    }
}

/// The offset of each tag among the first `k` lines, by name; a later tag of a name counts.
pub open spec fn tag_offsets(lines: Seq<SectionLine>, k: int) -> Map<Seq<char>, u32>
    decreases k,
{
    if k <= 0 {
        Map::empty()
    } else {
        match lines[k - 1] {
            SectionLine::Tag(name) => tag_offsets(lines, k - 1).insert(name@, bytes_before(lines, k - 1) as u32),
            _ => tag_offsets(lines, k - 1),
        }
    }
}

/// The instructions among the first `k` lines, each with its offset.
pub open spec fn placed(lines: Seq<SectionLine>, k: int) -> Seq<(SimpleInstruction, u32)>
    decreases k,
{
    if k <= 0 {
        Seq::empty()
    } else {
        match lines[k - 1] {
            SectionLine::Instruction(ins) => placed(lines, k - 1).push((ins, bytes_before(lines, k - 1) as u32)),
            _ => placed(lines, k - 1),
        }
    }
}

/// The names exported among the first `k` lines, in order.
pub open spec fn globals(lines: Seq<SectionLine>, k: int) -> Seq<Seq<char>>
    decreases k,
{
    if k <= 0 {
        Seq::empty()
    } else {
        match lines[k - 1] {
            SectionLine::Global(name) => globals(lines, k - 1).push(name@),
            _ => globals(lines, k - 1),
        }
    }
}

/// The name of the symbol that the first unresolved parameter waits for.
pub open spec fn pending_name(params: Seq<Param>) -> Option<Seq<char>>
    decreases params.len(),
{
    if params.len() == 0 {
        None
    } else {
        match params[0] {
            Param::Unresolved(s) => Some(s@),
            _ => pending_name(params.drop_first()),
        }
    }
}

/// `after` is `before` with every parameter that waits for `name` resolved to `d`.
pub open spec fn decided_params(before: Seq<Param>, after: Seq<Param>, name: Seq<char>, d: i32) -> bool {
    &&& after.len() == before.len()
    &&& forall|j: int| 0 <= j < before.len() && waits_for(before[j], name) ==> resolved_to(#[trigger] after[j], name, d)
    &&& forall|j: int| 0 <= j < before.len() && !waits_for(before[j], name) ==> #[trigger] after[j] == before[j]
}

/// `after` is `before` as the section leaves it: placed at `offset`, and, where the section
/// defines the symbol it waits for, with that symbol resolved.
pub open spec fn settled(before: SimpleInstruction, offset: u32, tags: Map<Seq<char>, u32>, after: SimpleInstruction) -> bool {
    &&& after.template == before.template
    &&& after.offset_bytes == Some(offset)
    &&& match pending_name(before.params@) {
        Some(name) => if tags.contains_key(name) {
            decided_params(before.params@, after.params@, name, distance_to(tags[name], offset))
        } else {
            after.params@ == before.params@
        },
        None => after.params@ == before.params@,
    }
}

/// The offsets of the placed instructions that wait for `name`, in order.
pub open spec fn waiting_offsets(placed: Seq<(SimpleInstruction, u32)>, name: Seq<char>) -> Seq<u32>
    decreases placed.len(),
{
    if placed.len() == 0 {
        Seq::empty()
    } else {
        let rest = waiting_offsets(placed.drop_last(), name);
        if pending_name(placed.last().0.params@) == Some(name) {
            rest.push(placed.last().1)
        } else {
            rest
        }
    }
}

/// An instruction whose first unresolved parameter is at `i` waits for that parameter's name.
proof fn lemma_pending_name_at(params: Seq<Param>, i: int)
    requires
        0 <= i < params.len(),
        params[i] is Unresolved,
        forall|j: int| 0 <= j < i ==> !(#[trigger] params[j] is Unresolved),
    ensures
        pending_name(params) == Some(params[i]->Unresolved_0@),
    decreases i,
{
    if i > 0 {
        assert(!(params[0] is Unresolved));
        let rest = params.drop_first();
        assert forall|j: int| 0 <= j < i - 1 implies !(#[trigger] rest[j] is Unresolved) by {
            assert(rest[j] == params[j + 1]);
        }
        lemma_pending_name_at(rest, i - 1);
    }
}

/// An instruction with no unresolved parameter waits for nothing.
proof fn lemma_pending_name_none(params: Seq<Param>)
    requires
        forall|j: int| 0 <= j < params.len() ==> !(#[trigger] params[j] is Unresolved),
    ensures
        pending_name(params) is None,
    decreases params.len(),
{
    if params.len() > 0 {
        assert(!(params[0] is Unresolved));
        let rest = params.drop_first();
        assert forall|j: int| 0 <= j < rest.len() implies !(#[trigger] rest[j] is Unresolved) by {
            assert(rest[j] == params[j + 1]);
        }
        lemma_pending_name_none(rest);
    }
}

/// The offsets grow with the lines.
proof fn lemma_bytes_before_grows(lines: Seq<SectionLine>, k: int, m: int)
    requires
        k <= m,
    ensures
        bytes_before(lines, k) <= bytes_before(lines, m),
    decreases m - k,
{
    if k < m {
        lemma_bytes_before_grows(lines, k, m - 1);
    }
}

/// Where some placed instruction waits for `name`, one of them does.
proof fn lemma_waiting_offsets_witness(placed: Seq<(SimpleInstruction, u32)>, name: Seq<char>)
    requires
        waiting_offsets(placed, name).len() > 0,
    ensures
        exists|m: int| 0 <= m < placed.len() && pending_name((#[trigger] placed[m]).0.params@) == Some(name),
    decreases placed.len(),
{
    let rest = placed.drop_last();
    if pending_name(placed.last().0.params@) == Some(name) {
        assert(pending_name(placed[placed.len() - 1].0.params@) == Some(name));
    } else {
        lemma_waiting_offsets_witness(rest, name);
        let m = choose|m: int| 0 <= m < rest.len() && pending_name((#[trigger] rest[m]).0.params@) == Some(name);
        assert(placed[m] == rest[m]);
    }
}

/// The instruction waits for a symbol that the section does not define.
pub open spec fn waits_undefined(ins: SimpleInstruction, tags: Map<Seq<char>, u32>) -> bool {
    pending_name(ins.params@) is Some && !tags.contains_key(pending_name(ins.params@)->0)
}

/// Some group is for `name`.
pub open spec fn has_group(groups: Seq<PendingSymbol>, name: Seq<char>) -> bool {
    exists|g: int| 0 <= g < groups.len() && (#[trigger] groups[g]).name@ == name
}

/// The groups of pending symbols after the first `i` placed instructions: distinct names, none
/// defined by the section, each with the offsets of the instructions that wait for it, and one
/// for every name waited for and not defined.
pub open spec fn groups_of(groups: Seq<PendingSymbol>, placed: Seq<(SimpleInstruction, u32)>, tags: Map<Seq<char>, u32>) -> bool {
    &&& forall|a: int, b: int| 0 <= a < b < groups.len() ==> (#[trigger] groups[a]).name@ != (#[trigger] groups[b]).name@
    &&& forall|g: int| 0 <= g < groups.len() ==> !tags.contains_key((#[trigger] groups[g]).name@)
        && groups[g].pending_instructions_offset_bytes@ == waiting_offsets(placed, groups[g].name@)
        && groups[g].pending_instructions_offset_bytes@.len() > 0
    &&& forall|m: int| 0 <= m < placed.len() && waits_undefined((#[trigger] placed[m]).0, tags)
        ==> has_group(groups, pending_name(placed[m].0.params@)->0)
}

/// Lays out one section: places each instruction after those before it, resolves the symbols
/// that the instructions wait for where the section defines them, and gives the exported
/// symbols, in the order they are exported, and the symbols still waited for, each with the
/// offsets of the instructions that wait for it.
pub fn parse_single_section(lines: Vec<SectionLine>) -> (res: (Vec<SimpleInstruction>, Vec<Symbol>, Vec<PendingSymbol>))
    requires
        forall|i: int| 0 <= i < lines@.len() ==> (#[trigger] lines@[i] matches SectionLine::Instruction(ins)
            ==> parts_bit_count(ins.template.parts@, ins.template.parts@.len()) <= usize::MAX),
        bytes_before(lines@, lines@.len() as int) <= u32::MAX,
        forall|k: int| 0 <= k < globals(lines@, lines@.len() as int).len()
            ==> tag_offsets(lines@, lines@.len() as int).contains_key(#[trigger] globals(lines@, lines@.len() as int)[k]),
    ensures
        ({
            let all = lines@;
            let placed = placed(all, all.len() as int);
            let tags = tag_offsets(all, all.len() as int);
            let exported = globals(all, all.len() as int);
            &&& res.0@.len() == placed.len()
            &&& forall|i: int| 0 <= i < placed.len() ==> settled(placed[i].0, placed[i].1, tags, #[trigger] res.0@[i])
            &&& res.1@.len() == exported.len()
            &&& forall|k: int| 0 <= k < exported.len() ==> (#[trigger] res.1@[k]).name@ == exported[k]
                && res.1@[k].offset_bytes == tags[exported[k]]
            &&& groups_of(res.2@, placed, tags)
        }),
{
    let ghost all = lines@;
    let ghost n = all.len() as int;
    let mut rest = lines;
    let mut current: u32 = 0;
    let mut instructions: Vec<SimpleInstruction> = Vec::new();
    let mut all_symbols: NameMap<u32> = NameMap::new();
    let mut exported_names: Vec<String> = Vec::new();
    let ghost mut k: int = 0;
    while rest.len() > 0
        invariant
            0 <= k <= n,
            n == all.len(),
            rest@ == all.skip(k),
            forall|i: int| 0 <= i < all.len() ==> (#[trigger] all[i] matches SectionLine::Instruction(ins)
                ==> parts_bit_count(ins.template.parts@, ins.template.parts@.len()) <= usize::MAX),
            bytes_before(all, n) <= u32::MAX,
            current == bytes_before(all, k),
            all_symbols.wf(),
            all_symbols@ == tag_offsets(all, k),
            instructions@.len() == placed(all, k).len(),
            forall|i: int| 0 <= i < instructions@.len() ==> (#[trigger] instructions@[i]).template == placed(all, k)[i].0.template
                && instructions@[i].params@ == placed(all, k)[i].0.params@
                && instructions@[i].offset_bytes == Some(placed(all, k)[i].1),
            exported_names@.map_values(|s: String| s@) == globals(all, k),
        decreases rest@.len(),
    {
        proof {
            lemma_bytes_before_grows(all, k + 1, n);
            assert(rest@[0] == all[k]);
        }
        let line = rest.remove(0);
        let ghost before = instructions@;
        match line {
            SectionLine::Tag(tag) => {
                all_symbols.insert(tag, current);
            },
            SectionLine::Instruction(ins) => {
                let mut instruction = ins;
                instruction.set_offset_bytes(current);
                let bits = instruction.bit_count();
                let bytes = (bits / 8) as u32;
                current = current + bytes;
                instructions.push(instruction);
                proof {
                    assert forall|i: int| 0 <= i < instructions@.len() implies (#[trigger] instructions@[i]).template
                        == placed(all, k + 1)[i].0.template && instructions@[i].params@ == placed(all, k + 1)[i].0.params@
                        && instructions@[i].offset_bytes == Some(placed(all, k + 1)[i].1) by {
                        if i < before.len() {
                            assert(instructions@[i] == before[i]);
                        }
                    }
                }
            },
            SectionLine::Global(name) => {
                exported_names.push(name);
                proof {
                    assert(exported_names@.map_values(|s: String| s@) =~= globals(all, k + 1));
                }
            },
        }
        proof {
            assert(rest@ =~= all.skip(k + 1));
            k = k + 1;
        }
    }
    let ghost tags = tag_offsets(all, n);
    let ghost placed_all = placed(all, n);
    let ghost exported = globals(all, n);
    assert(k == n);

    let mut exported_symbols: Vec<Symbol> = Vec::new();
    let mut g: usize = 0;
    while g < exported_names.len()
        invariant
            g <= exported_names@.len(),
            all_symbols.wf(),
            all_symbols@ == tags,
            exported_names@.map_values(|s: String| s@) == exported,
            forall|j: int| 0 <= j < exported.len() ==> tags.contains_key(#[trigger] exported[j]),
            exported_symbols@.len() == g,
            forall|j: int| 0 <= j < g ==> (#[trigger] exported_symbols@[j]).name@ == exported[j]
                && exported_symbols@[j].offset_bytes == tags[exported[j]],
        decreases exported_names@.len() - g,
    {
        let name = &exported_names[g];
        assert(name@ == exported[g as int]);
        let offset_bytes = match all_symbols.get(name.as_str()) {
            Some(o) => *o,
            None => 0,
        };
        exported_symbols.push(Symbol { name: name.clone(), offset_bytes });
        g = g + 1;
    }

    let mut remaining = instructions;
    let mut settled_instructions: Vec<SimpleInstruction> = Vec::new();
    let mut groups: Vec<PendingSymbol> = Vec::new();
    let ghost mut i: int = 0;
    while remaining.len() > 0
        invariant
            0 <= i <= placed_all.len(),
            remaining@.len() + i == placed_all.len(),
            forall|m: int| 0 <= m < remaining@.len() ==> (#[trigger] remaining@[m]).template == placed_all[m + i].0.template
                && remaining@[m].params@ == placed_all[m + i].0.params@
                && remaining@[m].offset_bytes == Some(placed_all[m + i].1),
            all_symbols.wf(),
            all_symbols@ == tags,
            settled_instructions@.len() == i,
            forall|m: int| 0 <= m < i ==> settled(placed_all[m].0, placed_all[m].1, tags, #[trigger] settled_instructions@[m]),
            groups_of(groups@, placed_all.take(i), tags),
        decreases remaining@.len(),
    {
        let ghost done = placed_all.take(i);
        let ghost next = placed_all.take(i + 1);
        proof {
            assert(next.drop_last() =~= done);
            assert(next.last() == placed_all[i]);
        }
        let mut instruction = remaining.remove(0);
        assert(instruction.params@ == placed_all[i].0.params@);
        let ghost old_params = instruction.params@;
        let ghost offset = placed_all[i].1;
        match instruction.pending_symbol() {
            Some(pending) => {
                proof {
                    let j = choose|j: int| 0 <= j < old_params.len() && (#[trigger] old_params[j]) is Unresolved
                        && (forall|l: int| 0 <= l < j ==> !(#[trigger] old_params[l] is Unresolved))
                        && pending.name@ == old_params[j]->Unresolved_0@;
                    lemma_pending_name_at(old_params, j);
                }
                match all_symbols.get(pending.name.as_str()) {
                    Some(o) => {
                        let symbol = Symbol { name: pending.name, offset_bytes: *o };
                        instruction.decide_symbol(&symbol);
                        proof {
                            assert forall|m: int| 0 <= m < groups@.len() implies waiting_offsets(next, (#[trigger] groups@[m]).name@)
                                == waiting_offsets(done, groups@[m].name@) by {}
                            assert forall|m: int| 0 <= m < next.len() && waits_undefined((#[trigger] next[m]).0, tags) implies
                                has_group(groups@, pending_name(next[m].0.params@)->0) by {
                                if m < done.len() {
                                    assert(next[m] == done[m]);
                                }
                            }
                        }
                    },
                    None => {
                        let offset_bytes = instruction.offset_bytes();
                        let ghost name = pending.name@;
                        let mut found: Option<usize> = None;
                        let mut s: usize = 0;
                        while s < groups.len()
                            invariant
                                s <= groups@.len(),
                                found matches Some(f) ==> f < groups@.len() && groups@[f as int].name@ == name,
                                found is None ==> forall|t: int| 0 <= t < s ==> (#[trigger] groups@[t]).name@ != name,
                                pending.name@ == name,
                            decreases groups@.len() - s,
                        {
                            if found.is_none() && groups[s].name == pending.name {
                                found = Some(s);
                            }
                            s = s + 1;
                        }
                        let ghost old_groups = groups@;
                        match found {
                            Some(f) => {
                                let mut group = groups.remove(f);
                                group.pending_instructions_offset_bytes.push(offset_bytes);
                                groups.insert(f, group);
                                proof {
                                    assert(groups@ =~= old_groups.update(f as int, group));
                                    assert forall|a: int, b: int| 0 <= a < b < groups@.len() implies
                                        (#[trigger] groups@[a]).name@ != (#[trigger] groups@[b]).name@ by {
                                        assert(old_groups[a].name@ != old_groups[b].name@);
                                    }
                                    assert forall|t: int| 0 <= t < groups@.len() implies !tags.contains_key((#[trigger] groups@[t]).name@)
                                        && groups@[t].pending_instructions_offset_bytes@ == waiting_offsets(next, groups@[t].name@)
                                        && groups@[t].pending_instructions_offset_bytes@.len() > 0 by {
                                        assert(old_groups[t].pending_instructions_offset_bytes@ == waiting_offsets(done, old_groups[t].name@));
                                    }
                                    assert forall|m: int| 0 <= m < next.len() && waits_undefined((#[trigger] next[m]).0, tags) implies
                                has_group(groups@, pending_name(next[m].0.params@)->0) by {
                                        if m < done.len() {
                                            assert(next[m] == done[m]);
                                            let nm = pending_name(next[m].0.params@)->0;
                                            {
                                                let t = choose|t: int| 0 <= t < old_groups.len() && (#[trigger] old_groups[t]).name@ == nm;
                                                assert(groups@[t].name@ == nm);
                                            }
                                        } else {
                                            assert(groups@[f as int].name@ == name);
                                        }
                                    }
                                }
                            },
                            None => {
                                let mut offsets: Vec<u32> = Vec::new();
                                offsets.push(offset_bytes);
                                let group = PendingSymbol { name: pending.name, pending_instructions_offset_bytes: offsets };
                                groups.push(group);
                                proof {
                                    if waiting_offsets(done, name).len() > 0 {
                                        lemma_waiting_offsets_witness(done, name);
                                        let m = choose|m: int| 0 <= m < done.len() && pending_name((#[trigger] done[m]).0.params@) == Some(name);
                                        let t = choose|t: int| 0 <= t < old_groups.len() && (#[trigger] old_groups[t]).name@ == name;
                                        assert(false);
                                    }
                                    assert(waiting_offsets(next, name) =~= seq![offset_bytes]);
                                    assert forall|a: int, b: int| 0 <= a < b < groups@.len() implies
                                        (#[trigger] groups@[a]).name@ != (#[trigger] groups@[b]).name@ by {
                                        if b == old_groups.len() {
                                            assert(old_groups[a].name@ != name);
                                        } else {
                                            assert(old_groups[a].name@ != old_groups[b].name@);
                                        }
                                    }
                                    assert forall|t: int| 0 <= t < groups@.len() implies !tags.contains_key((#[trigger] groups@[t]).name@)
                                        && groups@[t].pending_instructions_offset_bytes@ == waiting_offsets(next, groups@[t].name@)
                                        && groups@[t].pending_instructions_offset_bytes@.len() > 0 by {
                                        if t < old_groups.len() {
                                            assert(groups@[t] == old_groups[t]);
                                            assert(old_groups[t].name@ != name);
                                        }
                                    }
                                    assert forall|m: int| 0 <= m < next.len() && waits_undefined((#[trigger] next[m]).0, tags) implies
                                has_group(groups@, pending_name(next[m].0.params@)->0) by {
                                        if m < done.len() {
                                            assert(next[m] == done[m]);
                                            let nm = pending_name(next[m].0.params@)->0;
                                            {
                                                let t = choose|t: int| 0 <= t < old_groups.len() && (#[trigger] old_groups[t]).name@ == nm;
                                                assert(groups@[t].name@ == nm);
                                            }
                                        } else {
                                            assert(groups@[old_groups.len() as int].name@ == name);
                                        }
                                    }
                                }
                            },
                        }
                    },
                }
            },
            None => {
                proof {
                    lemma_pending_name_none(old_params);
                    assert forall|m: int| 0 <= m < groups@.len() implies waiting_offsets(next, (#[trigger] groups@[m]).name@)
                        == waiting_offsets(done, groups@[m].name@) by {}
                    assert forall|m: int| 0 <= m < next.len() && waits_undefined((#[trigger] next[m]).0, tags) implies
                                has_group(groups@, pending_name(next[m].0.params@)->0) by {
                        if m < done.len() {
                            assert(next[m] == done[m]);
                        }
                    }
                }
            },
        }
        settled_instructions.push(instruction);
        proof {
            i = i + 1;
        }
    }
    assert(placed_all.take(i) =~= placed_all);
    (settled_instructions, exported_symbols, groups)
}

/// The values an instruction placed at `offset` is rendered from once the section settles it:
/// those that wait for a symbol the section defines become the distance to it.
pub open spec fn settled_values(ins: SimpleInstruction, offset: u32, tags: Map<Seq<char>, u32>) -> Seq<ParsedParam> {
    match pending_name(ins.params@) {
        Some(name) => if tags.contains_key(name) {
            decided_values(ins.params@, name, distance_to(tags[name], offset))
        } else {
            known_values(ins.params@)
        },
        None => known_values(ins.params@),
    }
}

/// The template of an instruction placed at `offset` can render it once the section settles it.
pub open spec fn settled_fits(ins: SimpleInstruction, offset: u32, tags: Map<Seq<char>, u32>) -> bool {
    match pending_name(ins.params@) {
        Some(name) => if tags.contains_key(name) {
            fits_after(ins.template.parts@, ins.params@, name, distance_to(tags[name], offset), offset as u64)
        } else {
            params_fit(ins.template.parts@, ins.params@, offset as u64)
        },
        None => params_fit(ins.template.parts@, ins.params@, offset as u64),
    }
}

/// The binary forms of the first `k` placed instructions, one after the other.
pub open spec fn rendered_section(placed: Seq<(SimpleInstruction, u32)>, tags: Map<Seq<char>, u32>, k: int) -> Seq<bool>
    decreases k,
{
    if k <= 0 {
        Seq::empty()
    } else {
        let (ins, offset) = placed[k - 1];
        rendered_section(placed, tags, k - 1)
            + rendered(ins.template.parts@, settled_values(ins, offset, tags), offset as u64, ins.template.parts@.len())
    }
}

/// A settled instruction can be rendered, and renders the settled values.
proof fn lemma_settled_renders(before: SimpleInstruction, offset: u32, tags: Map<Seq<char>, u32>, after: SimpleInstruction)
    requires
        settled(before, offset, tags, after),
        settled_fits(before, offset, tags),
    ensures
        params_fit(after.template.parts@, after.params@, offset as u64),
        known_values(after.params@) == settled_values(before, offset, tags),
{
    match pending_name(before.params@) {
        Some(name) => if tags.contains_key(name) {
            let d = distance_to(tags[name], offset);
            let parts = before.template.parts@;
            assert forall|j: int| 0 <= j < after.params@.len() implies #[trigger] known_value(after.params@[j])
                == decided_values(before.params@, name, d)[j] && (waits_for(before.params@[j], name) ==>
                after.params@[j] matches Param::Resolved(_, crate::param::Decided::Immediate(_))) by {
                if waits_for(before.params@[j], name) {
                    assert(resolved_to(after.params@[j], name, d));
                }
            }
            assert(known_values(after.params@) =~= decided_values(before.params@, name, d));
            assert forall|k: int| 0 <= k < parts.len() implies match #[trigger] parts[k] {
                crate::template::TemplatePart::ParamTransformer(id, t) => id < after.params@.len() && t.well_formed()
                    && kind_fits(t, after.params@[id as int]) && t.accepts(offset as u64, known_value(after.params@[id as int])),
                _ => true,
            } by {
                match parts[k] {
                    crate::template::TemplatePart::ParamTransformer(id, t) => {
                        assert(known_value(after.params@[id as int]) == decided_values(before.params@, name, d)[id as int]);
                    },
                    _ => {},
                }
            }
        } else {
        },
        None => {},
    }
}

/// The lines of a section can be laid out and rendered: each template's bit count fits in a
/// `usize`, the section's bytes in a `u32`, each exported name is a tag, and each settled
/// instruction can be rendered.
pub open spec fn section_ready(lines: Seq<SectionLine>) -> bool {
    &&& forall|i: int| 0 <= i < lines.len() ==> (#[trigger] lines[i] matches SectionLine::Instruction(ins)
        ==> parts_bit_count(ins.template.parts@, ins.template.parts@.len()) <= usize::MAX)
    &&& bytes_before(lines, lines.len() as int) <= u32::MAX
    &&& forall|k: int| 0 <= k < globals(lines, lines.len() as int).len()
        ==> tag_offsets(lines, lines.len() as int).contains_key(#[trigger] globals(lines, lines.len() as int)[k])
    &&& forall|i: int| 0 <= i < placed(lines, lines.len() as int).len() ==> ({
        let p = #[trigger] placed(lines, lines.len() as int)[i];
        settled_fits(p.0, p.1, tag_offsets(lines, lines.len() as int))
    })
}

/// `res` is the section `current_section` emitted from `lines`: named as written, linkable,
/// not loaded; its symbols those exported, at their tags; its pending symbols grouped by name;
/// its content the settled instructions rendered one after the other.
pub open spec fn emitted(current_section: SectionName, lines: Seq<SectionLine>, res: Section) -> bool {
    let placed = placed(lines, lines.len() as int);
    let tags = tag_offsets(lines, lines.len() as int);
    let exported = globals(lines, lines.len() as int);
    &&& res.meta.name@ == section_text(current_section)
    &&& res.meta.linkable
    &&& res.meta.loadable is None
    &&& res.meta.symbols@.len() == exported.len()
    &&& forall|k: int| 0 <= k < exported.len() ==> (#[trigger] res.meta.symbols@[k]).name@ == exported[k]
        && res.meta.symbols@[k].offset_bytes == tags[exported[k]]
    &&& groups_of(res.meta.pending_symbols@, placed, tags)
    &&& res.content@ == rendered_section(placed, tags, placed.len() as int)
}

/// Emits one section: lays it out, then renders each settled instruction after the one before.
/// The section is named as written, such as `.text`, and linkable.
pub fn emit_section(current_section: SectionName, lines: Vec<SectionLine>) -> (res: Section)
    requires
        section_ready(lines@),
    ensures
        emitted(current_section, lines@, res),
{
    let ghost all = lines@;
    let ghost placed_all = placed(all, all.len() as int);
    let ghost tags = tag_offsets(all, all.len() as int);
    let (instructions, symbols, pending_symbols) = parse_single_section(lines);
    let mut content: Vec<bool> = Vec::new();
    let mut i: usize = 0;
    while i < instructions.len()
        invariant
            i <= instructions@.len(),
            instructions@.len() == placed_all.len(),
            forall|m: int| 0 <= m < placed_all.len() ==> settled(placed_all[m].0, placed_all[m].1, tags, #[trigger] instructions@[m]),
            forall|m: int| 0 <= m < placed_all.len() ==> settled_fits((#[trigger] placed_all[m]).0, placed_all[m].1, tags),
            content@ == rendered_section(placed_all, tags, i as int),
        decreases instructions@.len() - i,
    {
        let ghost before = placed_all[i as int];
        assert(settled(before.0, before.1, tags, instructions@[i as int]));
        assert(settled_fits(before.0, before.1, tags));
        proof {
            lemma_settled_renders(before.0, before.1, tags, instructions@[i as int]);
        }
        let mut binary = instructions[i].render().to_bools();
        content.append(&mut binary);
        i = i + 1;
    }
    Section {
        meta: SectionMeta {
            name: current_section.to_string(),
            linkable: true,
            loadable: None,
            symbols,
            pending_symbols,
        },
        content: Bits::from_bools(content),
    }
}

} // verus!
