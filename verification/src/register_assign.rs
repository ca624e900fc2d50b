//! Grouping of logical registers that phi nodes tie together, and the constants phi nodes
//! load at the end of their source blocks.
use vstd::prelude::*;

use crate::ir::{BasicBlock, FunctionDefinition, IRStatement, Phi, PhiSource, Quantity, RegisterName, all_statements, lemma_all_statements_step};
use crate::name_map::NameMap;
use crate::number_text::{joined, push_decimal_u64, push_joined, push_text};
use crate::text::decimal;

verus! {

/// How a logical register is mapped to real hardware register or memory.
#[derive(Clone, Debug, PartialEq, Eq)]
pub enum RegisterAssign {
    /// The logical register is mapped to a hardware register.
    Register(String),
    /// The logical register is mapped to a set of hardware register.
    MultipleRegisters(Vec<String>),
    /// The logical register is an alias to some stack space created by alloca.
    StackRef(usize),
    /// The logical register is spilled to the stack.
    StackValue(usize),
}

/// Where a logical register is kept, as a value.
pub enum AssignView {
    Register(Seq<char>),
    MultipleRegisters(Seq<Seq<char>>),
    StackRef(usize),
    StackValue(usize),
}

impl View for RegisterAssign {
    type V = AssignView;

    open spec fn view(&self) -> AssignView {
        match self {
            RegisterAssign::Register(r) => AssignView::Register(r@),
            RegisterAssign::MultipleRegisters(rs) => AssignView::MultipleRegisters(rs@.map_values(|r: String| r@)),
            RegisterAssign::StackRef(o) => AssignView::StackRef(*o),
            RegisterAssign::StackValue(o) => AssignView::StackValue(*o),
        }
    }
}

/// The names held by a list of registers.
pub open spec fn name_set(names: Seq<RegisterName>) -> Set<Seq<char>> {
    Set::new(|n: Seq<char>| exists|k: int| 0 <= k < names.len() && #[trigger] names[k].0@ == n)
}

/// No name occurs twice in the list.
pub open spec fn no_repeats(names: Seq<RegisterName>) -> bool {
    forall|i: int, j: int| 0 <= i < j < names.len() ==> names[i].0@ != names[j].0@
}

/// The source reads the register named `n`.
pub open spec fn reads_register(source: PhiSource, n: Seq<char>) -> bool {
    source.value matches Quantity::RegisterName(r) && r.0@ == n
}

/// The registers a phi node ties together: its target and every register it reads.
pub open spec fn phi_names(phi: Phi) -> Set<Seq<char>> {
    Set::new(|n: Seq<char>| n == phi.to.0@ || exists|k: int| 0 <= k < phi.from@.len() && reads_register(#[trigger] phi.from@[k], n))
}

/// The position of the first group that shares a register with `names`.
pub open spec fn first_meeting(groups: Seq<Set<Seq<char>>>, names: Set<Seq<char>>) -> Option<int>
    decreases groups.len(),
{
    if groups.len() == 0 {
        None
    } else {
        match first_meeting(groups.drop_last(), names) {
            Some(i) => Some(i),
            None => if groups.last().disjoint(names) { None } else { Some(groups.len() - 1) },
        }
    }
}

/// Adds `names` to the first group that shares a register with them, or as a group of its own.
pub open spec fn merge_group(groups: Seq<Set<Seq<char>>>, names: Set<Seq<char>>) -> Seq<Set<Seq<char>>> {
    match first_meeting(groups, names) {
        Some(i) => groups.update(i, groups[i].union(names)),
        None => groups.push(names),
    }
}

/// The groups of registers the phi nodes among `statements` tie together, in order.
pub open spec fn phi_groups(statements: Seq<IRStatement>) -> Seq<Set<Seq<char>>>
    decreases statements.len(),
{
    if statements.len() == 0 {
        Seq::empty()
    } else {
        let groups = phi_groups(statements.drop_last());
        match statements.last() {
            IRStatement::Phi(phi) => merge_group(groups, phi_names(phi)),
            _ => groups,
        }
    }
}

/// The groups held by lists of registers.
pub open spec fn group_sets(groups: Seq<Vec<RegisterName>>) -> Seq<Set<Seq<char>>> {
    groups.map_values(|g: Vec<RegisterName>| name_set(g@))
}

/// Whether `names` holds a register named like `name`.
pub(crate) fn has_name(names: &Vec<RegisterName>, name: &RegisterName) -> (res: bool)
    ensures
        res == name_set(names@).contains(name.0@),
{
    let mut i: usize = 0;
    while i < names.len()
        invariant
            i <= names@.len(),
            forall|k: int| 0 <= k < i ==> names@[k].0@ != name.0@,
        decreases names@.len() - i,
    {
        if names[i].0 == name.0 {
            assert(names@[i as int].0@ == name.0@);
            return true;
        }
        i = i + 1;
    }
    false
}

/// Adds `name` to `names` unless a register of that name is there already.
pub(crate) fn insert_name(names: &mut Vec<RegisterName>, name: RegisterName)
    requires
        no_repeats(old(names)@),
    ensures
        no_repeats(final(names)@),
        name_set(final(names)@) == name_set(old(names)@).insert(name.0@),
{
    if !has_name(names, &name) {
        let ghost before = names@;
        names.push(name);
        proof {
            assert(names@[before.len() as int].0@ == name.0@);
            assert forall|n: Seq<char>| name_set(names@).contains(n) <==> name_set(before).insert(name.0@).contains(n) by {
                if name_set(names@).contains(n) {
                    let k = choose|k: int| 0 <= k < names@.len() && #[trigger] names@[k].0@ == n;
                    if k < before.len() {
                        assert(before[k].0@ == n);
                    }
                }
                if name_set(before).contains(n) {
                    let k = choose|k: int| 0 <= k < before.len() && #[trigger] before[k].0@ == n;
                    assert(names@[k].0@ == n);
                }
            }
            assert(name_set(names@) =~= name_set(before).insert(name.0@));
        }
    } else {
        assert(name_set(names@) =~= name_set(names@).insert(name.0@));
    }
}

/// The registers a phi node ties together, each once.
fn phi_name_list(phi: &Phi) -> (res: Vec<RegisterName>)
    ensures
        no_repeats(res@),
        name_set(res@) == phi_names(*phi),
{
    let mut names: Vec<RegisterName> = Vec::new();
    let mut i: usize = 0;
    while i < phi.from.len()
        invariant
            i <= phi.from@.len(),
            no_repeats(names@),
            name_set(names@) == Set::new(|n: Seq<char>| exists|k: int| 0 <= k < i && reads_register(#[trigger] phi.from@[k], n)),
        decreases phi.from@.len() - i,
    {
        let ghost before = name_set(names@);
        if let Quantity::RegisterName(r) = &phi.from[i].value {
            insert_name(&mut names, r.duplicate());
        }
        proof {
            let next = Set::new(|n: Seq<char>| exists|k: int| 0 <= k < i + 1 && reads_register(#[trigger] phi.from@[k], n));
            assert forall|n: Seq<char>| name_set(names@).contains(n) <==> next.contains(n) by {
                if before.contains(n) {
                    let k = choose|k: int| 0 <= k < i && reads_register(#[trigger] phi.from@[k], n);
                    assert(0 <= k < i + 1);
                }
                if next.contains(n) {
                    let k = choose|k: int| 0 <= k < i + 1 && reads_register(#[trigger] phi.from@[k], n);
                    if k < i {
                        assert(before.contains(n));
                    }
                }
            }
            assert(name_set(names@) =~= next);
        }
        i = i + 1;
    }
    let ghost from_names = name_set(names@);
    insert_name(&mut names, phi.to.duplicate());
    assert(name_set(names@) =~= phi_names(*phi));
    names
}

/// Whether `a` and `b` share a register name.
fn meets(a: &Vec<RegisterName>, b: &Vec<RegisterName>) -> (res: bool)
    ensures
        res == !name_set(a@).disjoint(name_set(b@)),
{
    let mut i: usize = 0;
    while i < b.len()
        invariant
            i <= b@.len(),
            forall|k: int| 0 <= k < i ==> !name_set(a@).contains(#[trigger] b@[k].0@),
        decreases b@.len() - i,
    {
        if has_name(a, &b[i]) {
            assert(name_set(b@).contains(b@[i as int].0@));
            return true;
        }
        i = i + 1;
    }
    assert forall|n: Seq<char>| name_set(a@).contains(n) implies !name_set(b@).contains(n) by {
        if name_set(b@).contains(n) {
            let k = choose|k: int| 0 <= k < b@.len() && #[trigger] b@[k].0@ == n;
            assert(!name_set(a@).contains(b@[k].0@));
        }
    }
    false
}

/// Adds the registers of `names` that `group` lacks.
fn extend_group(group: &mut Vec<RegisterName>, names: &Vec<RegisterName>)
    requires
        no_repeats(old(group)@),
    ensures
        no_repeats(final(group)@),
        name_set(final(group)@) == name_set(old(group)@).union(name_set(names@)),
{
    let mut i: usize = 0;
    while i < names.len()
        invariant
            i <= names@.len(),
            no_repeats(group@),
            name_set(group@) == name_set(old(group)@).union(name_set(names@.take(i as int))),
        decreases names@.len() - i,
    {
        let ghost before = name_set(group@);
        insert_name(group, names[i].duplicate());
        proof {
            assert forall|n: Seq<char>| name_set(names@.take(i as int + 1)).contains(n)
                <==> name_set(names@.take(i as int)).insert(names@[i as int].0@).contains(n) by {
                if name_set(names@.take(i as int + 1)).contains(n) {
                    let k = choose|k: int| 0 <= k < i + 1 && #[trigger] names@.take(i as int + 1)[k].0@ == n;
                    if k < i {
                        assert(names@.take(i as int)[k].0@ == n);
                    }
                }
                if name_set(names@.take(i as int)).contains(n) {
                    let k = choose|k: int| 0 <= k < i && #[trigger] names@.take(i as int)[k].0@ == n;
                    assert(names@.take(i as int + 1)[k].0@ == n);
                }
                if n == names@[i as int].0@ {
                    assert(names@.take(i as int + 1)[i as int].0@ == n);
                }
            }
            assert(name_set(names@.take(i as int + 1)) =~= name_set(names@.take(i as int)).insert(names@[i as int].0@));
            assert(name_set(group@) =~= name_set(old(group)@).union(name_set(names@.take(i as int + 1))));
        }
        i = i + 1;
    }
    assert(names@.take(i as int) =~= names@);
}

/// What `first_meeting` finds: the first group that shares a register.
pub proof fn lemma_first_meeting(groups: Seq<Set<Seq<char>>>, names: Set<Seq<char>>)
    ensures
        first_meeting(groups, names) matches Some(i) ==> 0 <= i < groups.len() && !groups[i].disjoint(names)
            && forall|m: int| 0 <= m < i ==> (#[trigger] groups[m]).disjoint(names),
        first_meeting(groups, names) is None ==> forall|m: int| 0 <= m < groups.len() ==> (#[trigger] groups[m]).disjoint(names),
    decreases groups.len(),
{
    if groups.len() > 0 {
        lemma_first_meeting(groups.drop_last(), names);
        assert forall|m: int| 0 <= m < groups.len() - 1 implies groups.drop_last()[m] == groups[m] by {}
    }
}

/// Every group of `groups` holds each register once.
pub open spec fn groups_no_repeats(groups: Seq<Vec<RegisterName>>) -> bool {
    forall|k: int| 0 <= k < groups.len() ==> no_repeats((#[trigger] groups[k])@)
}

/// Adds the registers a phi node ties together to the groups.
fn merge_phi(groups: &mut Vec<Vec<RegisterName>>, phi: &Phi)
    requires
        groups_no_repeats(old(groups)@),
    ensures
        groups_no_repeats(final(groups)@),
        group_sets(final(groups)@) == merge_group(group_sets(old(groups)@), phi_names(*phi)),
{
    let phied = phi_name_list(phi);
    let ghost gs = group_sets(groups@);
    let ghost names = phi_names(*phi);
    proof {
        lemma_first_meeting(gs, names);
    }
    let mut k: usize = 0;
    let mut found = false;
    while k < groups.len() && !found
        invariant
            k <= groups@.len(),
            gs == group_sets(groups@),
            name_set(phied@) == names,
            forall|m: int| 0 <= m < k ==> (#[trigger] gs[m]).disjoint(names),
            found ==> k < groups@.len() && !gs[k as int].disjoint(names),
        decreases groups@.len() - k, if found { 0int } else { 1int },
    {
        if meets(&groups[k], &phied) {
            found = true;
        } else {
            k = k + 1;
        }
    }
    if found {
        assert(!gs[k as int].disjoint(names));
        assert(first_meeting(gs, names) == Some(k as int)) by {
            match first_meeting(gs, names) {
                Some(i) => {
                    if i < k {
                        assert(gs[i].disjoint(names));
                    }
                    if i > k {
                        assert(gs[k as int].disjoint(names));
                    }
                },
                None => {
                    assert(gs[k as int].disjoint(names));
                },
            }
        }
        let ghost before = groups@;
        extend_group(&mut groups[k], &phied);
        proof {
            assert(group_sets(groups@) =~= gs.update(k as int, gs[k as int].union(names)));
            assert forall|m: int| 0 <= m < groups@.len() implies no_repeats((#[trigger] groups@[m])@) by {
                if m != k {
                    assert(groups@[m] == before[m]);
                }
            }
        }
    } else {
        assert(first_meeting(gs, names) is None) by {
            if let Some(i) = first_meeting(gs, names) {
                assert(gs[i].disjoint(names));
            }
        }
        let ghost before = groups@;
        groups.push(phied);
        proof {
            assert(group_sets(groups@) =~= gs.push(names));
            assert forall|m: int| 0 <= m < groups@.len() implies no_repeats((#[trigger] groups@[m])@) by {
                if m < before.len() {
                    assert(groups@[m] == before[m]);
                }
            }
        }
    }
}

/// Groups the registers that phi nodes tie together: the registers a phi node reads and the one
/// it writes join the first group that holds one of them, or form a group of their own.
pub fn collect_phied_registers(ir_code: &FunctionDefinition) -> (res: Vec<Vec<RegisterName>>)
    ensures
        groups_no_repeats(res@),
        group_sets(res@) == phi_groups(ir_code.statements()),
{
    let mut groups: Vec<Vec<RegisterName>> = Vec::new();
    let ghost blocks = ir_code.content@;
    let mut i: usize = 0;
    assert(group_sets(groups@) =~= phi_groups(all_statements(blocks.take(0))));
    while i < ir_code.content.len()
        invariant
            blocks == ir_code.content@,
            i <= blocks.len(),
            groups_no_repeats(groups@),
            group_sets(groups@) == phi_groups(all_statements(blocks.take(i as int))),
        decreases blocks.len() - i,
    {
        let block = &ir_code.content[i];
        let ghost done = all_statements(blocks.take(i as int));
        let mut j: usize = 0;
        assert(done + block.content@.take(0) =~= done);
        while j < block.content.len()
            invariant
                blocks == ir_code.content@,
                i < blocks.len(),
                *block == blocks[i as int],
                done == all_statements(blocks.take(i as int)),
                j <= block.content@.len(),
                groups_no_repeats(groups@),
                group_sets(groups@) == phi_groups(done + block.content@.take(j as int)),
            decreases block.content@.len() - j,
        {
            let ghost next = done + block.content@.take(j as int + 1);
            assert(next.drop_last() =~= done + block.content@.take(j as int));
            assert(next.last() == block.content@[j as int]);
            if let IRStatement::Phi(phi) = &block.content[j] {
                merge_phi(&mut groups, phi);
            }
            j = j + 1;
        }
        proof {
            assert(block.content@.take(j as int) =~= block.content@);
            lemma_all_statements_step(blocks, i as int);
        }
        i = i + 1;
    }
    assert(blocks.take(i as int) =~= blocks);
    groups
}

/// Two assignments name the same place.
pub open spec fn same_assign(a: RegisterAssign, b: RegisterAssign) -> bool {
    match (a, b) {
        (RegisterAssign::Register(x), RegisterAssign::Register(y)) => x@ == y@,
        (RegisterAssign::MultipleRegisters(x), RegisterAssign::MultipleRegisters(y)) =>
            x@.map_values(|r: String| r@) == y@.map_values(|r: String| r@),
        (RegisterAssign::StackRef(x), RegisterAssign::StackRef(y)) => x == y,
        (RegisterAssign::StackValue(x), RegisterAssign::StackValue(y)) => x == y,
        _ => false,
    }
}

impl RegisterAssign {
    /// A copy of this assignment.
    pub fn duplicate(&self) -> (res: Self)
        ensures
            same_assign(res, *self),
    {
        match self {
            RegisterAssign::Register(r) => RegisterAssign::Register(r.clone()),
            RegisterAssign::MultipleRegisters(rs) => {
                let copy = rs.clone();
                assert(copy@.map_values(|r: String| r@) =~= rs@.map_values(|r: String| r@));
                RegisterAssign::MultipleRegisters(copy)
            },
            RegisterAssign::StackRef(o) => RegisterAssign::StackRef(*o),
            RegisterAssign::StackValue(o) => RegisterAssign::StackValue(*o),
        }
    }
}

/// `m` with `item` appended to the list under `key`, which starts empty.
pub open spec fn push_constant(m: Map<Seq<char>, Seq<(RegisterAssign, i64)>>, key: Seq<char>, item: (RegisterAssign, i64))
    -> Map<Seq<char>, Seq<(RegisterAssign, i64)>> {
    m.insert(key, (if m.contains_key(key) { m[key] } else { Seq::empty() }).push(item))
}

/// The constants of the first `k` sources of `phi` recorded in `m`: for each source that is a
/// number, the place of the phi's target and the number, under the source's block.
pub open spec fn phi_source_constants(m: Map<Seq<char>, Seq<(RegisterAssign, i64)>>, phi: Phi,
    assign: Map<Seq<char>, RegisterAssign>, k: nat) -> Map<Seq<char>, Seq<(RegisterAssign, i64)>>
    decreases k,
{
    if k == 0 {
        m
    } else {
        let before = phi_source_constants(m, phi, assign, (k - 1) as nat);
        let source = phi.from@[k - 1];
        match source.value {
            Quantity::NumberLiteral(n) => push_constant(before, source.block@, (assign[phi.to.0@], n)),
            _ => before,
        }
    }
}

/// The constants that the phi nodes among `statements` take from their source blocks, by block.
pub open spec fn phi_constants(statements: Seq<IRStatement>, assign: Map<Seq<char>, RegisterAssign>)
    -> Map<Seq<char>, Seq<(RegisterAssign, i64)>>
    decreases statements.len(),
{
    if statements.len() == 0 {
        Map::empty()
    } else {
        let before = phi_constants(statements.drop_last(), assign);
        match statements.last() {
            IRStatement::Phi(phi) => phi_source_constants(before, phi, assign, phi.from@.len()),
            _ => before,
        }
    }
}

/// A phi node with a number among its sources has its target assigned.
pub open spec fn phi_targets_assigned(statements: Seq<IRStatement>, assign: Map<Seq<char>, RegisterAssign>) -> bool {
    forall|i: int| 0 <= i < statements.len() ==> match #[trigger] statements[i] {
        IRStatement::Phi(phi) => (exists|k: int| 0 <= k < phi.from@.len() && (#[trigger] phi.from@[k]).value is NumberLiteral)
            ==> assign.contains_key(phi.to.0@),
        _ => true,
    }
}

/// The lists of `actual` are copies of those of `expected`.
pub open spec fn copies_constants(actual: Map<Seq<char>, Vec<(RegisterAssign, i64)>>,
    expected: Map<Seq<char>, Seq<(RegisterAssign, i64)>>) -> bool {
    &&& actual.dom() == expected.dom()
    &&& forall|key: Seq<char>| #[trigger] expected.contains_key(key) ==> {
        &&& actual[key]@.len() == expected[key].len()
        &&& forall|j: int| 0 <= j < expected[key].len() ==> same_assign(actual[key]@[j].0, #[trigger] expected[key][j].0)
            && actual[key]@[j].1 == expected[key][j].1
    }
}

/// Records in `result` the constants that `phi` takes from its source blocks.
fn record_phi_constants(result: &mut NameMap<Vec<(RegisterAssign, i64)>>, phi: &Phi,
    register_assign: &NameMap<RegisterAssign>, Ghost(expected): Ghost<Map<Seq<char>, Seq<(RegisterAssign, i64)>>>)
    requires
        old(result).wf(),
        register_assign.wf(),
        copies_constants(old(result)@, expected),
        (exists|k: int| 0 <= k < phi.from@.len() && (#[trigger] phi.from@[k]).value is NumberLiteral)
            ==> register_assign@.contains_key(phi.to.0@),
    ensures
        final(result).wf(),
        copies_constants(final(result)@, phi_source_constants(expected, *phi, register_assign@, phi.from@.len())),
{
    let mut i: usize = 0;
    while i < phi.from.len()
        invariant
            i <= phi.from@.len(),
            result.wf(),
            register_assign.wf(),
            copies_constants(result@, phi_source_constants(expected, *phi, register_assign@, i as nat)),
            (exists|k: int| 0 <= k < phi.from@.len() && (#[trigger] phi.from@[k]).value is NumberLiteral)
                ==> register_assign@.contains_key(phi.to.0@),
        decreases phi.from@.len() - i,
    {
        let source = &phi.from[i];
        if let Quantity::NumberLiteral(n) = source.value {
            assert(phi.from@[i as int].value is NumberLiteral);
            let place = match register_assign.get(phi.to.0.as_str()) {
                Some(a) => a.duplicate(),
                None => {
                    assert(false);
                    RegisterAssign::StackValue(0)
                },
            };
            let ghost before = result@;
            let ghost exp_before = phi_source_constants(expected, *phi, register_assign@, i as nat);
            result.push_to(source.block.clone(), (place, n));
            proof {
                let exp_after = phi_source_constants(expected, *phi, register_assign@, (i + 1) as nat);
                assert(exp_after == push_constant(exp_before, source.block@, (register_assign@[phi.to.0@], n)));
                assert(result@.dom() =~= exp_after.dom());
                assert forall|key: Seq<char>| #[trigger] exp_after.contains_key(key) implies {
                    &&& result@[key]@.len() == exp_after[key].len()
                    &&& forall|j: int| 0 <= j < exp_after[key].len() ==> same_assign(result@[key]@[j].0, #[trigger] exp_after[key][j].0)
                        && result@[key]@[j].1 == exp_after[key][j].1
                } by {
                    if key != source.block@ {
                        assert(result@[key] == before[key]);
                    }
                }
            }
        }
        i = i + 1;
    }
}

/// For each block, the places and constants that phi nodes take when control comes from it, in
/// the order of the phi nodes and their sources.
pub fn collect_phi_constant_assign(function: &FunctionDefinition, register_assign: &NameMap<RegisterAssign>)
    -> (res: NameMap<Vec<(RegisterAssign, i64)>>)
    requires
        register_assign.wf(),
        phi_targets_assigned(function.statements(), register_assign@),
    ensures
        res.wf(),
        copies_constants(res@, phi_constants(function.statements(), register_assign@)),
{
    let mut result: NameMap<Vec<(RegisterAssign, i64)>> = NameMap::new();
    let ghost blocks = function.content@;
    let ghost assign = register_assign@;
    let mut i: usize = 0;
    assert(copies_constants(result@, phi_constants(all_statements(blocks.take(0)), assign)));
    while i < function.content.len()
        invariant
            blocks == function.content@,
            assign == register_assign@,
            register_assign.wf(),
            phi_targets_assigned(all_statements(blocks), assign),
            i <= blocks.len(),
            result.wf(),
            copies_constants(result@, phi_constants(all_statements(blocks.take(i as int)), assign)),
        decreases blocks.len() - i,
    {
        let block = &function.content[i];
        let ghost done = all_statements(blocks.take(i as int));
        proof {
            lemma_all_statements_step(blocks, i as int);
            lemma_all_statements_prefix(blocks, i as int + 1);
        }
        let mut j: usize = 0;
        assert(done + block.content@.take(0) =~= done);
        while j < block.content.len()
            invariant
                blocks == function.content@,
                assign == register_assign@,
                register_assign.wf(),
                i < blocks.len(),
                *block == blocks[i as int],
                done == all_statements(blocks.take(i as int)),
                is_prefix(done + block.content@, all_statements(blocks)),
                phi_targets_assigned(all_statements(blocks), assign),
                j <= block.content@.len(),
                result.wf(),
                copies_constants(result@, phi_constants(done + block.content@.take(j as int), assign)),
            decreases block.content@.len() - j,
        {
            let ghost next = done + block.content@.take(j as int + 1);
            assert(next.drop_last() =~= done + block.content@.take(j as int));
            assert(next.last() == block.content@[j as int]);
            if let IRStatement::Phi(phi) = &block.content[j] {
                proof {
                    let all = all_statements(blocks);
                    let pos = done.len() + j;
                    assert(all[pos] == (done + block.content@)[pos]);
                    assert(all[pos] == IRStatement::Phi(*phi));
                }
                record_phi_constants(&mut result, phi, register_assign, Ghost(phi_constants(done + block.content@.take(j as int), assign)));
            }
            j = j + 1;
        }
        proof {
            assert(block.content@.take(j as int) =~= block.content@);
        }
        i = i + 1;
    }
    assert(blocks.take(i as int) =~= blocks);
    result
}

/// `a` is a prefix of `b`.
pub open spec fn is_prefix(a: Seq<IRStatement>, b: Seq<IRStatement>) -> bool {
    a.len() <= b.len() && b.take(a.len() as int) == a
}

/// The statements of a prefix of the blocks are a prefix of all statements.
proof fn lemma_all_statements_prefix(blocks: Seq<BasicBlock>, i: int)
    requires
        0 <= i <= blocks.len(),
    ensures
        is_prefix(all_statements(blocks.take(i)), all_statements(blocks)),
    decreases blocks.len() - i,
{
    if i < blocks.len() {
        lemma_all_statements_prefix(blocks, i + 1);
        lemma_all_statements_step(blocks, i);
        let a = all_statements(blocks.take(i));
        let b = all_statements(blocks.take(i + 1));
        let c = all_statements(blocks);
        assert(c.take(a.len() as int) =~= b.take(a.len() as int));
        assert(b.take(a.len() as int) =~= a);
    } else {
        assert(blocks.take(i) =~= blocks);
        assert(all_statements(blocks).take(all_statements(blocks).len() as int) =~= all_statements(blocks));
    }
}

/// How a place is shown: the register, the registers separated by `,`, or the stack offset
/// from `sp`.
pub open spec fn assign_text(a: AssignView) -> Seq<char> {
    match a {
        AssignView::Register(r) => r,
        AssignView::MultipleRegisters(rs) => joined(rs, ","@),
        AssignView::StackRef(o) => "alias to "@ + decimal(o as nat) + "(sp)"@,
        AssignView::StackValue(o) => decimal(o as nat) + "(sp)"@,
    }
}

impl RegisterAssign {
    /// The place as it is shown.
    pub fn to_string(&self) -> (res: String)
        ensures
            res@ == assign_text(self@),
    {
        let mut res = String::new();
        match self {
            RegisterAssign::Register(r) => push_text(&mut res, r.as_str()),
            RegisterAssign::MultipleRegisters(rs) => push_joined(&mut res, rs, ","),
            RegisterAssign::StackRef(o) => {
                push_text(&mut res, "alias to ");
                push_decimal_u64(&mut res, *o as u64);
                push_text(&mut res, "(sp)");
            },
            RegisterAssign::StackValue(o) => {
                push_decimal_u64(&mut res, *o as u64);
                push_text(&mut res, "(sp)");
            },
        }
        assert(res@ =~= assign_text(self@));
        res
    }
}

} // verus!
