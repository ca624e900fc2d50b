//! Linking sections of the same name: one placed after the other, its symbols moved along, and
//! the symbols that either waits for resolved where the other defines them.
use vstd::prelude::*;

use crate::clef::{Architecture, Bits, Clef, Os, PendingSymbol, Section, SectionMeta, Symbol};
use crate::fill::{PendingView, fill_pending_symbol, filled, pending_view, unnamed};
use crate::simple_instruction::Template;

verus! {

/// A section as a value: its name, placement, symbols, pending symbols and content.
pub struct SectionView {
    pub name: String,
    pub linkable: bool,
    pub loadable: Option<u32>,
    pub symbols: Seq<Symbol>,
    pub pending: Seq<PendingView>,
    pub content: Seq<bool>,
}

/// The section as a value.
pub open spec fn section_view(s: Section) -> SectionView {
    SectionView {
        name: s.meta.name,
        linkable: s.meta.linkable,
        loadable: s.meta.loadable,
        symbols: s.meta.symbols@,
        pending: pending_view(s.meta.pending_symbols@),
        content: s.content@,
    }
}

/// The section that goes first: a loadable one, else the first given.
pub open spec fn leading(a: SectionView, b: SectionView) -> SectionView {
    if b.loadable is Some { b } else { a }
}

/// The section that goes second.
pub open spec fn trailing(a: SectionView, b: SectionView) -> SectionView {
    if b.loadable is Some { a } else { b }
}

/// How far the second section moves: the bytes of the first, its bit count cut to 32 bits.
pub open spec fn shift_of(first: SectionView) -> u32 {
    ((first.content.len() as u32) / 8) as u32
}

/// The symbols moved `by` bytes along.
pub open spec fn shifted(symbols: Seq<Symbol>, by: u32) -> Seq<Symbol> {
    Seq::new(symbols.len(), |i: int| Symbol { name: symbols[i].name, offset_bytes: (symbols[i].offset_bytes + by) as u32 })
}

/// The pending symbols with their offsets moved `by` bytes along.
pub open spec fn shifted_pending(pending: Seq<PendingView>, by: u32) -> Seq<PendingView> {
    Seq::new(pending.len(), |i: int| (pending[i].0, pending[i].1.map_values(|o: u32| (o + by) as u32)))
}

/// Every offset of the section moved `by` bytes along fits in a `u32`.
pub open spec fn shift_fits(section: SectionView, by: u32) -> bool {
    &&& forall|i: int| 0 <= i < section.symbols.len() ==> (#[trigger] section.symbols[i]).offset_bytes + by <= u32::MAX
    &&& forall|i: int, j: int| 0 <= i < section.pending.len() && 0 <= j < section.pending[i].1.len()
        ==> (#[trigger] section.pending[i].1[j]) + by <= u32::MAX
}

/// The symbols of the joined section: those of the first, then those of the second moved along.
pub open spec fn joined_symbols(a: SectionView, b: SectionView) -> Seq<Symbol> {
    leading(a, b).symbols + shifted(trailing(a, b).symbols, shift_of(leading(a, b)))
}

/// The pending symbols of the joined section before any is resolved.
pub open spec fn joined_pending(a: SectionView, b: SectionView) -> Seq<PendingView> {
    leading(a, b).pending + shifted_pending(trailing(a, b).pending, shift_of(leading(a, b)))
}

/// The content of the joined section before any symbol is resolved.
pub open spec fn joined_content(a: SectionView, b: SectionView) -> Seq<bool> {
    leading(a, b).content + trailing(a, b).content
}

/// Two sections can be joined: they have the same name, the offsets moved along fit, and every
/// instruction that waits for a symbol the joined section defines can be refilled.
pub open spec fn mergeable(a: SectionView, b: SectionView, templates: Seq<Template>) -> bool {
    &&& a.name@ == b.name@
    &&& shift_fits(trailing(a, b), shift_of(leading(a, b)))
    &&& filled(templates, joined_symbols(a, b), joined_pending(a, b), joined_pending(a, b).len() as int, joined_content(a, b))
        is Some
}

/// The joined section: named and placed as the first, with the symbols of both, the pending
/// symbols that neither defines, and the content of both with every other pending symbol
/// resolved in place.
pub open spec fn merged(a: SectionView, b: SectionView, templates: Seq<Template>) -> SectionView {
    let symbols = joined_symbols(a, b);
    let pending = joined_pending(a, b);
    SectionView {
        name: leading(a, b).name,
        linkable: leading(a, b).linkable,
        loadable: leading(a, b).loadable,
        symbols,
        pending: unnamed(symbols, pending, pending.len() as int),
        content: filled(templates, symbols, pending, pending.len() as int, joined_content(a, b))->0,
    }
}

/// Moves the symbols `by` bytes along.
fn shift_symbols(symbols: &Vec<Symbol>, by: u32) -> (res: Vec<Symbol>)
    requires
        forall|i: int| 0 <= i < symbols@.len() ==> (#[trigger] symbols@[i]).offset_bytes + by <= u32::MAX,
    ensures
        res@ == shifted(symbols@, by),
{
    let mut res: Vec<Symbol> = Vec::new();
    let mut i: usize = 0;
    while i < symbols.len()
        invariant
            i <= symbols@.len(),
            forall|k: int| 0 <= k < symbols@.len() ==> (#[trigger] symbols@[k]).offset_bytes + by <= u32::MAX,
            res@ == shifted(symbols@, by).take(i as int),
        decreases symbols@.len() - i,
    {
        let symbol = &symbols[i];
        res.push(Symbol { name: symbol.name.clone(), offset_bytes: symbol.offset_bytes + by });
        i = i + 1;
        assert(res@ =~= shifted(symbols@, by).take(i as int));
    }
    assert(shifted(symbols@, by).take(symbols@.len() as int) =~= shifted(symbols@, by));
    res
}

/// Moves the offsets of the pending symbols `by` bytes along.
fn shift_pending(pending: &Vec<PendingSymbol>, by: u32) -> (res: Vec<PendingSymbol>)
    requires
        forall|i: int, j: int| 0 <= i < pending@.len() && 0 <= j < pending@[i].pending_instructions_offset_bytes@.len()
            ==> (#[trigger] pending@[i].pending_instructions_offset_bytes@[j]) + by <= u32::MAX,
    ensures
        pending_view(res@) == shifted_pending(pending_view(pending@), by),
{
    let mut res: Vec<PendingSymbol> = Vec::new();
    let mut i: usize = 0;
    while i < pending.len()
        invariant
            i <= pending@.len(),
            forall|a: int, b: int| 0 <= a < pending@.len() && 0 <= b < pending@[a].pending_instructions_offset_bytes@.len()
                ==> (#[trigger] pending@[a].pending_instructions_offset_bytes@[b]) + by <= u32::MAX,
            pending_view(res@) == shifted_pending(pending_view(pending@), by).take(i as int),
        decreases pending@.len() - i,
    {
        let p = &pending[i];
        let mut offsets: Vec<u32> = Vec::new();
        let mut j: usize = 0;
        while j < p.pending_instructions_offset_bytes.len()
            invariant
                j <= p.pending_instructions_offset_bytes@.len(),
                i < pending@.len(),
                *p == pending@[i as int],
                forall|b: int| 0 <= b < p.pending_instructions_offset_bytes@.len()
                    ==> (#[trigger] p.pending_instructions_offset_bytes@[b]) + by <= u32::MAX,
                offsets@ == p.pending_instructions_offset_bytes@.map_values(|o: u32| (o + by) as u32).take(j as int),
            decreases p.pending_instructions_offset_bytes@.len() - j,
        {
            offsets.push(p.pending_instructions_offset_bytes[j] + by);
            j = j + 1;
            assert(offsets@ =~= p.pending_instructions_offset_bytes@.map_values(|o: u32| (o + by) as u32).take(j as int));
        }
        assert(offsets@ =~= p.pending_instructions_offset_bytes@.map_values(|o: u32| (o + by) as u32));
        let ghost before = res@;
        res.push(PendingSymbol { name: p.name.clone(), pending_instructions_offset_bytes: offsets });
        i = i + 1;
        assert(pending_view(res@) =~= pending_view(before).push(pending_view(res@).last()));
        assert(pending_view(res@) =~= shifted_pending(pending_view(pending@), by).take(i as int));
    }
    assert(shifted_pending(pending_view(pending@), by).take(pending@.len() as int) =~= shifted_pending(pending_view(pending@), by));
    res
}

impl Section {
    /// Joins two sections of the same name: a loadable one first, the other placed after it with
    /// its symbols and waiting instructions moved along by the bytes of the first; the content
    /// one after the other, the symbols and pending symbols of both, and then every pending
    /// symbol that the joined section defines resolved in place.
    pub fn merge(self, other: Section, architecture: Architecture, templates: &[Template]) -> (res: Section)
        requires
            architecture == Architecture::RiscV,
            mergeable(section_view(self), section_view(other), templates@),
        ensures
            section_view(res) == merged(section_view(self), section_view(other), templates@),
    {
        let ghost a = section_view(self);
        let ghost b = section_view(other);
        let (first, second) = if other.meta.loadable.is_some() { (other, self) } else { (self, other) };
        assert(section_view(first) == leading(a, b) && section_view(second) == trailing(a, b));
        let self_bytes = (#[verifier::truncate] (first.content.len() as u32)) / 8;
        let Section { meta, content } = first;
        let SectionMeta { name, linkable, loadable, symbols, pending_symbols } = meta;
        let mut content = content;
        let mut other_content = second.content;
        let moved_symbols = shift_symbols(&second.meta.symbols, self_bytes);
        proof {
            let ps = second.meta.pending_symbols@;
            assert forall|i: int, j: int| 0 <= i < ps.len() && 0 <= j < ps[i].pending_instructions_offset_bytes@.len()
                implies (#[trigger] ps[i].pending_instructions_offset_bytes@[j]) + self_bytes <= u32::MAX by {
                assert(pending_view(ps)[i] == (ps[i].name, ps[i].pending_instructions_offset_bytes@));
                assert(trailing(a, b).pending[i].1[j] == ps[i].pending_instructions_offset_bytes@[j]);
            }
        }
        let moved_pending = shift_pending(&second.meta.pending_symbols, self_bytes);
        content.append(&mut other_content);
        let mut symbols = symbols;
        let mut moved_symbols = moved_symbols;
        symbols.append(&mut moved_symbols);
        let mut pending_symbols = pending_symbols;
        let ghost first_pending = pending_symbols@;
        let mut moved_pending = moved_pending;
        let ghost shifted_part = moved_pending@;
        pending_symbols.append(&mut moved_pending);
        assert(pending_view(pending_symbols@) =~= pending_view(first_pending) + pending_view(shifted_part));
        assert(pending_view(pending_symbols@) == joined_pending(a, b));
        assert(symbols@ == joined_symbols(a, b));
        assert(content@ == joined_content(a, b));
        let mut bits = content.to_bools();
        let remaining = match architecture {
            Architecture::RiscV => fill_pending_symbol(templates, symbols.as_slice(), pending_symbols.as_slice(), &mut bits),
            _ => {
                assert(false);
                Vec::new()
            },
        };
        let content = Bits::from_bools(bits);
        let res = Section {
            meta: SectionMeta { name, linkable, loadable, symbols, pending_symbols: remaining },
            content,
        };
        assert(section_view(res) =~= merged(a, b, templates@));
        res
    }
}

/// The position of the first section named `name`.
pub open spec fn first_same_name(sections: Seq<SectionView>, name: Seq<char>) -> Option<int>
    decreases sections.len(),
{
    if sections.len() == 0 {
        None
    } else {
        match first_same_name(sections.drop_last(), name) {
            Some(i) => Some(i),
            None => if sections.last().name@ == name { Some(sections.len() - 1) } else { None },
        }
    }
}

/// The sections after one more section `o` is merged in: the first of the same name joined
/// with it, alone; or `o` alone where none has its name. `None` where the join cannot be made:
/// sections are joined for RISC-V only.
pub open spec fn merge_step(sections: Seq<SectionView>, o: SectionView, templates: Seq<Template>, architecture: Architecture)
    -> Option<Seq<SectionView>> {
    match first_same_name(sections, o.name@) {
        Some(i) => if architecture == Architecture::RiscV && mergeable(sections[i], o, templates) {
            Some(seq![merged(sections[i], o, templates)])
        } else {
            None
        },
        None => Some(seq![o]),
    }
}

/// The sections after the first `k` of `others` are merged in, in order.
pub open spec fn merged_sections(sections: Seq<SectionView>, others: Seq<SectionView>, k: int, templates: Seq<Template>,
    architecture: Architecture) -> Option<Seq<SectionView>>
    decreases k,
{
    if k <= 0 {
        Some(sections)
    } else {
        match merged_sections(sections, others, k - 1, templates, architecture) {
            Some(s) => merge_step(s, others[k - 1], templates, architecture),
            None => None,
        }
    }
}

/// The sections as values.
pub open spec fn section_views(sections: Seq<Section>) -> Seq<SectionView> {
    sections.map_values(|s: Section| section_view(s))
}

/// Where merging the first `m` sections in succeeds, merging fewer does.
proof fn lemma_merged_prefix(sections: Seq<SectionView>, others: Seq<SectionView>, k: int, m: int, templates: Seq<Template>,
    architecture: Architecture)
    requires
        k <= m,
        merged_sections(sections, others, m, templates, architecture) is Some,
    ensures
        merged_sections(sections, others, k, templates, architecture) is Some,
    decreases m - k,
{
    if k < m {
        lemma_merged_prefix(sections, others, k, m - 1, templates, architecture);
    }
}

/// The position of the first of `sections` named `name`.
fn find_section(sections: &Vec<Section>, name: &String) -> (res: Option<usize>)
    ensures
        match res {
            Some(i) => i < sections@.len() && first_same_name(section_views(sections@), name@) == Some(i as int),
            None => first_same_name(section_views(sections@), name@) is None,
        },
{
    let mut i: usize = 0;
    while i < sections.len()
        invariant
            i <= sections@.len(),
            first_same_name(section_views(sections@).take(i as int), name@) is None,
        decreases sections@.len() - i,
    {
        assert(section_views(sections@).take(i + 1).drop_last() =~= section_views(sections@).take(i as int));
        if sections[i].meta.name == *name {
            proof {
                lemma_first_same_name_prefix(section_views(sections@), name@, i as int + 1);
            }
            return Some(i);
        }
        i = i + 1;
    }
    assert(section_views(sections@).take(sections@.len() as int) =~= section_views(sections@));
    None
}

/// Where the first `k` sections hold one named `name`, the first of them is the first of all.
proof fn lemma_first_same_name_prefix(sections: Seq<SectionView>, name: Seq<char>, k: int)
    requires
        0 <= k <= sections.len(),
        first_same_name(sections.take(k), name) is Some,
    ensures
        first_same_name(sections, name) == first_same_name(sections.take(k), name),
    decreases sections.len() - k,
{
    if k < sections.len() {
        assert(sections.take(k + 1).drop_last() =~= sections.take(k));
        lemma_first_same_name_prefix(sections, name, k + 1);
    } else {
        assert(sections.take(k) =~= sections);
    }
}

impl Clef {
    /// Merges `other` into this clef file: each of its sections, in order, is joined with the
    /// first section of the same name, which then stands alone, or stands alone itself where no
    /// section has its name. Either way the other sections held so far are dropped, so files of
    /// more than one section do not keep them.
    pub fn merge(self, other: Clef, templates: &[Template]) -> (res: Clef)
        requires
            self.architecture == other.architecture,
            self.os == other.os,
            merged_sections(section_views(self.sections@), section_views(other.sections@), other.sections@.len() as int,
                templates@, self.architecture) is Some,
        ensures
            res.architecture == self.architecture,
            res.os == self.os,
            section_views(res.sections@) == merged_sections(section_views(self.sections@), section_views(other.sections@),
                other.sections@.len() as int, templates@, self.architecture)->0,
    {
        let ghost start = section_views(self.sections@);
        let ghost others_all = section_views(other.sections@);
        let ghost n = other.sections@.len() as int;
        let Clef { architecture, os, sections } = self;
        let mut sections = sections;
        let mut others = other.sections;
        let ghost mut k: int = 0;
        while others.len() > 0
            invariant
                0 <= k <= n,
                n == others_all.len(),
                others@.len() == n - k,
                section_views(others@) == others_all.skip(k),
                merged_sections(start, others_all, n, templates@, architecture) is Some,
                merged_sections(start, others_all, k, templates@, architecture) == Some(section_views(sections@)),
            decreases others@.len(),
        {
            proof {
                lemma_merged_prefix(start, others_all, k + 1, n, templates@, architecture);
                assert(section_views(others@)[0] == others_all[k]);
            }
            let ghost old_others = others@;
            let other_section = others.remove(0);
            proof {
                assert forall|j: int| 0 <= j < others@.len() implies #[trigger] section_views(others@)[j] == others_all.skip(k + 1)[j] by {
                    assert(others@[j] == old_others[j + 1]);
                    assert(section_views(old_others)[j + 1] == others_all.skip(k)[j + 1]);
                }
                assert(section_views(others@) =~= others_all.skip(k + 1));
            }
            let ghost current = section_views(sections@);
            let mut result_sections: Vec<Section> = Vec::new();
            match find_section(&sections, &other_section.meta.name) {
                Some(i) => {
                    let self_section = sections.remove(i);
                    assert(section_view(self_section) == current[i as int]);
                    assert(architecture == Architecture::RiscV);
                    result_sections.push(self_section.merge(other_section, architecture, templates));
                },
                None => {
                    result_sections.push(other_section);
                },
            }
            sections = result_sections;
            proof {
                assert(section_views(sections@) =~= merge_step(current, others_all[k], templates@, architecture)->0);
                k = k + 1;
            }
        }
        Clef { architecture, os, sections }
    }
}

/// The sections after the first `k` files are merged, in order, into a file with none.
pub open spec fn linked_sections(inputs: Seq<Clef>, k: int, templates: Seq<Template>) -> Option<Seq<SectionView>>
    decreases k,
{
    if k <= 0 {
        Some(Seq::empty())
    } else {
        match linked_sections(inputs, k - 1, templates) {
            Some(s) => merged_sections(s, section_views(inputs[k - 1].sections@), inputs[k - 1].sections@.len() as int,
                templates, Architecture::RiscV),
            None => None,
        }
    }
}

/// The position of the first section named `.text`.
pub open spec fn text_section(sections: Seq<SectionView>) -> Option<int> {
    first_same_name(sections, ".text"@)
}

/// Where merging the first `m` files succeeds, merging fewer does.
proof fn lemma_linked_prefix(inputs: Seq<Clef>, k: int, m: int, templates: Seq<Template>)
    requires
        k <= m,
        linked_sections(inputs, m, templates) is Some,
    ensures
        linked_sections(inputs, k, templates) is Some,
    decreases m - k,
{
    if k < m {
        lemma_linked_prefix(inputs, k, m - 1, templates);
    }
}

/// Links clef files for RISC-V on bare metal: merges each, in order, into a file with no
/// section, then loads its first `.text` section at `0x8000_0000`.
pub fn link(inputs: Vec<Clef>, templates: &[Template]) -> (res: Clef)
    requires
        forall|k: int| 0 <= k < inputs@.len() ==> (#[trigger] inputs@[k]).architecture == Architecture::RiscV
            && inputs@[k].os == Os::BareMetal,
        linked_sections(inputs@, inputs@.len() as int, templates@) matches Some(s) && text_section(s) is Some,
    ensures
        res.architecture == Architecture::RiscV,
        res.os == Os::BareMetal,
        ({
            let s = linked_sections(inputs@, inputs@.len() as int, templates@)->0;
            let t = text_section(s)->0;
            section_views(res.sections@) == s.update(t, SectionView { loadable: Some(0x8000_0000u32), ..s[t] })
        }),
{
    let ghost all = inputs@;
    let ghost n = all.len() as int;
    let mut result = Clef::new(Architecture::RiscV, Os::BareMetal);
    assert(section_views(result.sections@) =~= Seq::<SectionView>::empty());
    let mut rest = inputs;
    let ghost mut k: int = 0;
    while rest.len() > 0
        invariant
            0 <= k <= n,
            n == all.len(),
            rest@ == all.skip(k),
            forall|j: int| 0 <= j < all.len() ==> (#[trigger] all[j]).architecture == Architecture::RiscV
                && all[j].os == Os::BareMetal,
            linked_sections(all, n, templates@) is Some,
            result.architecture == Architecture::RiscV,
            result.os == Os::BareMetal,
            linked_sections(all, k, templates@) == Some(section_views(result.sections@)),
        decreases rest@.len(),
    {
        proof {
            lemma_linked_prefix(all, k + 1, n, templates@);
            assert(rest@[0] == all[k]);
        }
        let next = rest.remove(0);
        result = result.merge(next, templates);
        proof {
            assert(rest@ =~= all.skip(k + 1));
            k = k + 1;
        }
    }
    assert(k == n);
    let ghost before = section_views(result.sections@);
    let found = find_section(&result.sections, &".text".to_string());
    let mut sections = result.sections;
    match found {
        Some(i) => {
            let mut text = sections.remove(i);
            text.meta.loadable = Some(0x8000_0000u32);
            sections.insert(i, text);
            assert(section_views(sections@) =~= before.update(i as int, SectionView { loadable: Some(0x8000_0000u32), ..before[i as int] }));
        },
        None => {
            assert(false);
        },
    }
    Clef { architecture: Architecture::RiscV, os: Os::BareMetal, sections }
}

} // verus!
