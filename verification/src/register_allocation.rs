//! Assigning each logical register of a function a hardware register or a place on the stack.
use vstd::prelude::*;

use crate::ir::{FunctionDefinition, Parameter, RegisterName};
use crate::name_map::NameMap;
use crate::register_assign::{
    first_meeting, group_sets, groups_no_repeats, has_name, lemma_first_meeting, merge_group, name_set,
    phi_groups, phi_names, same_assign,
    AssignView, RegisterAssign,
};
use crate::register_groups::{
    active_block_intersection, first_apart, group_at, group_blocks, grouping, groups_recorded,
    in_some_group, lemma_first_apart, lemma_grouping_laws, live,
    place_register, register_groups, register_names, registers_needed, registers_recorded,
};
use crate::ir::IRStatement;
use crate::text::{decimal, push_decimal, string_push};

verus! {

/// How many bytes a value of `bits` bits takes.
pub open spec fn byte_size(bits: usize) -> int {
    (bits + 7) / 8
}

/// The name of register `id` of a bank, such as `t2` or `a0`.
pub open spec fn numbered(prefix: char, id: int) -> Seq<char> {
    seq![prefix] + decimal(id as nat)
}

/// The hardware registers `need` registers of a bank from `id` on stand for: one register where
/// `need` is 1, else the list of them.
pub open spec fn numbered_places(prefix: char, id: int, need: int) -> AssignView {
    if need == 1 {
        AssignView::Register(numbered(prefix, id))
    } else {
        AssignView::MultipleRegisters(Seq::new(need as nat, |k: int| numbered(prefix, id + k)))
    }
}

/// The places of a map of assignments, as values.
pub open spec fn assign_views(m: Map<Seq<char>, RegisterAssign>) -> Map<Seq<char>, AssignView> {
    m.map_values(|a: RegisterAssign| a@)
}

/// The registers that parameters are passed in: each parameter takes the next argument
/// registers `a0`, `a1`, ... its size needs. Gives the places and the next free register.
pub open spec fn param_places(params: Seq<Parameter>) -> (Map<Seq<char>, AssignView>, int)
    decreases params.len(),
{
    if params.len() == 0 {
        (Map::empty(), 0)
    } else {
        let prev = param_places(params.drop_last());
        let p = params.last();
        let need = registers_needed(p.size_bits);
        (prev.0.insert(p.name.0@, numbered_places('a', prev.1, need)), prev.1 + need)
    }
}

/// Whether the parameters' sizes can be rounded to bytes and their registers counted.
pub open spec fn params_fit(params: Seq<Parameter>) -> bool {
    &&& forall|k: int| 0 <= k < params.len() ==> (#[trigger] params[k]).size_bits + 7 <= usize::MAX
    &&& param_places(params).1 <= usize::MAX
}

/// The stack places of the registers that stand for stack space, in order from offset `stack`.
/// Gives the places and the stack space used up to the end.
pub open spec fn alloca_places(allocas: Seq<(RegisterName, usize)>, stack: int) -> (Map<Seq<char>, AssignView>, int)
    decreases allocas.len(),
{
    if allocas.len() == 0 {
        (Map::empty(), stack)
    } else {
        let prev = alloca_places(allocas.drop_last(), stack);
        let a = allocas.last();
        (prev.0.insert(a.0.0@, AssignView::StackRef(prev.1 as usize)), prev.1 + byte_size(a.1))
    }
}

/// Whether the sizes of the stack spaces can be rounded to bytes and they fit one after another.
pub open spec fn allocas_fit(allocas: Seq<(RegisterName, usize)>, stack: int) -> bool {
    &&& forall|k: int| 0 <= k < allocas.len() ==> (#[trigger] allocas[k]).1 + 7 <= usize::MAX
    &&& alloca_places(allocas, stack).1 <= usize::MAX
}

proof fn lemma_param_ids_grow(params: Seq<Parameter>, k: int)
    requires
        0 <= k <= params.len(),
    ensures
        param_places(params.take(k)).1 <= param_places(params).1,
        param_places(params.take(k)).1 >= 0,
    decreases params.len() - k,
{
    if k < params.len() {
        lemma_param_ids_grow(params.drop_last(), k);
        assert(params.drop_last().take(k) =~= params.take(k));
    } else {
        assert(params.take(k) =~= params);
    }
    lemma_param_ids_nonneg(params);
}

proof fn lemma_param_ids_nonneg(params: Seq<Parameter>)
    ensures
        param_places(params).1 >= 0,
    decreases params.len(),
{
    if params.len() > 0 {
        lemma_param_ids_nonneg(params.drop_last());
    }
}

proof fn lemma_alloca_stack_grows(allocas: Seq<(RegisterName, usize)>, stack: int, k: int)
    requires
        0 <= k <= allocas.len(),
    ensures
        stack <= alloca_places(allocas.take(k), stack).1 <= alloca_places(allocas, stack).1,
    decreases allocas.len() - k,
{
    if k < allocas.len() {
        lemma_alloca_stack_grows(allocas.drop_last(), stack, k);
        assert(allocas.drop_last().take(k) =~= allocas.take(k));
    } else {
        assert(allocas.take(k) =~= allocas);
        lemma_alloca_stack_starts(allocas, stack);
    }
}

proof fn lemma_alloca_stack_starts(allocas: Seq<(RegisterName, usize)>, stack: int)
    ensures
        stack <= alloca_places(allocas, stack).1,
    decreases allocas.len(),
{
    if allocas.len() > 0 {
        lemma_alloca_stack_starts(allocas.drop_last(), stack);
    }
}

/// The name of register `id` of a bank.
fn numbered_name(prefix: char, id: usize) -> (res: String)
    ensures
        res@ == numbered(prefix, id as int),
{
    let mut s = String::new();
    string_push(&mut s, prefix);
    push_decimal(&mut s, id);
    assert(s@ =~= numbered(prefix, id as int));
    s
}

/// The place made of `need` registers of a bank from `id` on.
fn numbered_assign(prefix: char, id: usize, need: usize) -> (res: RegisterAssign)
    requires
        id + need <= usize::MAX,
    ensures
        res@ == numbered_places(prefix, id as int, need as int),
{
    if need == 1 {
        RegisterAssign::Register(numbered_name(prefix, id))
    } else {
        let mut names: Vec<String> = Vec::new();
        let mut k: usize = 0;
        while k < need
            invariant
                k <= need,
                id + need <= usize::MAX,
                names@.map_values(|r: String| r@) == Seq::new(k as nat, |j: int| numbered(prefix, id + j)),
            decreases need - k,
        {
            let ghost before = names@;
            let nm = numbered_name(prefix, id + k);
            let ghost v = nm@;
            names.push(nm);
            assert(names@.map_values(|r: String| r@) =~= before.map_values(|r: String| r@).push(v));
            assert(names@.map_values(|r: String| r@) =~= Seq::new((k + 1) as nat, |j: int| numbered(prefix, id + j)));
            k = k + 1;
        }
        RegisterAssign::MultipleRegisters(names)
    }
}

/// Each parameter in the next argument registers its size needs, from `a0` on.
pub fn assign_param(params: &Vec<Parameter>) -> (res: NameMap<RegisterAssign>)
    requires
        params_fit(params@),
    ensures
        res.wf(),
        assign_views(res@) == param_places(params@).0,
{
    let mut result: NameMap<RegisterAssign> = NameMap::new();
    let mut current_used_id: usize = 0;
    let mut i: usize = 0;
    assert(assign_views(result@) =~= param_places(params@.take(0)).0);
    while i < params.len()
        invariant
            i <= params@.len(),
            params_fit(params@),
            result.wf(),
            assign_views(result@) == param_places(params@.take(i as int)).0,
            current_used_id == param_places(params@.take(i as int)).1,
        decreases params@.len() - i,
    {
        let param = &params[i];
        let ghost t = params@.take(i + 1);
        assert(t.drop_last() =~= params@.take(i as int));
        assert(t.last() == params@[i as int]);
        proof {
            lemma_param_ids_grow(params@, i + 1);
        }
        let type_bytes = (param.size_bits + 7) / 8;
        let need_registers = type_bytes / 4;
        let assigned = numbered_assign('a', current_used_id, need_registers);
        let ghost before = result@;
        result.insert(param.name.0.clone(), assigned);
        assert(assign_views(result@) =~= assign_views(before).insert(param.name.0@, assigned@));
        current_used_id = current_used_id + need_registers;
        i = i + 1;
    }
    assert(params@.take(params@.len() as int) =~= params@);
    result
}

/// Each register that stands for stack space gets the next stack space its size needs.
pub fn assign_alloca(allocaed_registers: &Vec<(RegisterName, usize)>, current_used_stack_space: &mut usize)
    -> (res: NameMap<RegisterAssign>)
    requires
        allocas_fit(allocaed_registers@, *old(current_used_stack_space) as int),
    ensures
        res.wf(),
        assign_views(res@) == alloca_places(allocaed_registers@, *old(current_used_stack_space) as int).0,
        *final(current_used_stack_space) == alloca_places(allocaed_registers@, *old(current_used_stack_space) as int).1,
{
    let ghost stack0 = *current_used_stack_space as int;
    let mut result: NameMap<RegisterAssign> = NameMap::new();
    let mut i: usize = 0;
    assert(assign_views(result@) =~= alloca_places(allocaed_registers@.take(0), stack0).0);
    while i < allocaed_registers.len()
        invariant
            i <= allocaed_registers@.len(),
            allocas_fit(allocaed_registers@, stack0),
            result.wf(),
            assign_views(result@) == alloca_places(allocaed_registers@.take(i as int), stack0).0,
            *current_used_stack_space == alloca_places(allocaed_registers@.take(i as int), stack0).1,
        decreases allocaed_registers@.len() - i,
    {
        let (register, bits) = (&allocaed_registers[i].0, allocaed_registers[i].1);
        let ghost t = allocaed_registers@.take(i + 1);
        assert(t.drop_last() =~= allocaed_registers@.take(i as int));
        assert(t.last() == allocaed_registers@[i as int]);
        proof {
            lemma_alloca_stack_grows(allocaed_registers@, stack0, i + 1);
        }
        let type_bytes = (bits + 7) / 8;
        let ghost before = result@;
        result.insert(register.0.clone(), RegisterAssign::StackRef(*current_used_stack_space));
        assert(assign_views(result@) =~= assign_views(before).insert(register.0@, AssignView::StackRef(*current_used_stack_space)));
        *current_used_stack_space = *current_used_stack_space + type_bytes;
        i = i + 1;
    }
    assert(allocaed_registers@.take(allocaed_registers@.len() as int) =~= allocaed_registers@);
    result
}

/// The names of the parameters and of the registers that stand for stack space.
pub open spec fn excluded_names(params: Seq<Parameter>, allocas: Seq<(RegisterName, usize)>) -> Set<Seq<char>> {
    Set::new(|n: Seq<char>|
        (exists|k: int| 0 <= k < params.len() && #[trigger] params[k].name.0@ == n)
        || (exists|k: int| 0 <= k < allocas.len() && #[trigger] allocas[k].0.0@ == n))
}

/// The names of `names` that are not in `excluded`, in order.
pub open spec fn considered(names: Seq<Seq<char>>, excluded: Set<Seq<char>>) -> Seq<Seq<char>>
    decreases names.len(),
{
    if names.len() == 0 {
        Seq::empty()
    } else {
        let prev = considered(names.drop_last(), excluded);
        if excluded.contains(names.last()) { prev } else { prev.push(names.last()) }
    }
}

/// Whether `name` is the name of a parameter or of a register that stands for stack space.
fn is_excluded(name: &RegisterName, params: &Vec<Parameter>, allocas: &Vec<(RegisterName, usize)>) -> (res: bool)
    ensures
        res == excluded_names(params@, allocas@).contains(name.0@),
{
    let mut i: usize = 0;
    while i < allocas.len()
        invariant
            i <= allocas@.len(),
            forall|k: int| 0 <= k < i ==> (#[trigger] allocas@[k]).0.0@ != name.0@,
        decreases allocas@.len() - i,
    {
        if allocas[i].0.0 == name.0 {
            assert(allocas@[i as int].0.0@ == name.0@);
            return true;
        }
        i = i + 1;
    }
    let mut j: usize = 0;
    while j < params.len()
        invariant
            j <= params@.len(),
            forall|k: int| 0 <= k < j ==> (#[trigger] params@[k]).name.0@ != name.0@,
        decreases params@.len() - j,
    {
        if params[j].name.0 == name.0 {
            assert(params@[j as int].name.0@ == name.0@);
            return true;
        }
        j = j + 1;
    }
    false
}

/// The registers to place: those of `registers` that are neither parameters nor stand for
/// stack space, in order.
fn considered_registers(registers: &Vec<RegisterName>, params: &Vec<Parameter>,
    allocas: &Vec<(RegisterName, usize)>) -> (res: Vec<RegisterName>)
    ensures
        register_names(res@) == considered(register_names(registers@), excluded_names(params@, allocas@)),
{
    let ghost names = register_names(registers@);
    let ghost excluded = excluded_names(params@, allocas@);
    let mut res: Vec<RegisterName> = Vec::new();
    let mut i: usize = 0;
    assert(register_names(res@) =~= considered(names.take(0), excluded));
    while i < registers.len()
        invariant
            i <= registers@.len(),
            names == register_names(registers@),
            excluded == excluded_names(params@, allocas@),
            register_names(res@) == considered(names.take(i as int), excluded),
        decreases registers@.len() - i,
    {
        let ghost t = names.take(i + 1);
        assert(t.drop_last() =~= names.take(i as int));
        assert(t.last() == registers@[i as int].0@);
        if !is_excluded(&registers[i], params, allocas) {
            let ghost before = res@;
            res.push(registers[i].duplicate());
            assert(register_names(res@) =~= register_names(before).push(registers@[i as int].0@));
        }
        i = i + 1;
    }
    assert(names.take(registers@.len() as int) =~= names);
    res
}

/// Inserts index `j` after every index of `sorted` whose key is at most that of `j`, and before
/// the rest.
pub open spec fn insert_index(sorted: Seq<usize>, j: usize, keys: Seq<usize>) -> Seq<usize>
    decreases sorted.len(),
{
    if sorted.len() == 0 {
        seq![j]
    } else if keys[sorted.last() as int] <= keys[j as int] {
        sorted.push(j)
    } else {
        insert_index(sorted.drop_last(), j, keys).push(sorted.last())
    }
}

/// The indices `0..n` in the order of their keys, indices with equal keys in their own order.
pub open spec fn sorted_indices(n: nat, keys: Seq<usize>) -> Seq<usize>
    decreases n,
{
    if n == 0 {
        Seq::empty()
    } else {
        insert_index(sorted_indices((n - 1) as nat, keys), (n - 1) as usize, keys)
    }
}

proof fn lemma_insert_index_at(s: Seq<usize>, j: usize, keys: Seq<usize>, p: int)
    requires
        0 <= p <= s.len(),
        forall|m: int| p <= m < s.len() ==> keys[#[trigger] s[m] as int] > keys[j as int],
        p > 0 ==> keys[s[p - 1] as int] <= keys[j as int],
    ensures
        insert_index(s, j, keys) == s.insert(p, j),
    decreases s.len(),
{
    if s.len() == 0 {
        assert(s.insert(p, j) =~= seq![j]);
    } else if p == s.len() {
        assert(s.insert(p, j) =~= s.push(j));
    } else {
        let d = s.drop_last();
        assert(keys[s[s.len() - 1] as int] > keys[j as int]);
        assert forall|m: int| p <= m < d.len() implies keys[#[trigger] d[m] as int] > keys[j as int] by {
            assert(d[m] == s[m]);
        }
        if p > 0 {
            assert(d[p - 1] == s[p - 1]);
        }
        lemma_insert_index_at(d, j, keys, p);
        assert(d.insert(p, j).push(s.last()) =~= s.insert(p, j));
    }
}

proof fn lemma_sorted_indices_range(n: nat, keys: Seq<usize>)
    requires
        n <= usize::MAX + 1,
    ensures
        sorted_indices(n, keys).len() == n,
        forall|i: int| 0 <= i < n ==> (#[trigger] sorted_indices(n, keys)[i]) < n,
    decreases n,
{
    if n > 0 {
        lemma_sorted_indices_range((n - 1) as nat, keys);
        lemma_insert_index_members(sorted_indices((n - 1) as nat, keys), (n - 1) as usize, keys);
    }
}

proof fn lemma_insert_index_members(s: Seq<usize>, j: usize, keys: Seq<usize>)
    ensures
        insert_index(s, j, keys).len() == s.len() + 1,
        forall|i: int| 0 <= i < s.len() + 1 ==> #[trigger] insert_index(s, j, keys)[i] == j
            || exists|m: int| 0 <= m < s.len() && s[m] == insert_index(s, j, keys)[i],
    decreases s.len(),
{
    if s.len() > 0 && keys[s.last() as int] > keys[j as int] {
        let d = s.drop_last();
        lemma_insert_index_members(d, j, keys);
        let r = insert_index(s, j, keys);
        assert forall|i: int| 0 <= i < s.len() + 1 implies #[trigger] r[i] == j
            || exists|m: int| 0 <= m < s.len() && s[m] == r[i] by {
            if i < s.len() {
                if insert_index(d, j, keys)[i] != j {
                    let m = choose|m: int| 0 <= m < d.len() && d[m] == insert_index(d, j, keys)[i];
                    assert(s[m] == r[i]);
                }
            } else {
                assert(s[s.len() - 1] == r[i]);
            }
        }
    } else if s.len() > 0 {
        let r = insert_index(s, j, keys);
        assert forall|i: int| 0 <= i < s.len() + 1 implies #[trigger] r[i] == j
            || exists|m: int| 0 <= m < s.len() && s[m] == r[i] by {
            if i < s.len() {
                assert(s[i] == r[i]);
            }
        }
    }
}

/// The indices of `keys` in the order of their keys, equal keys in their own order.
fn stable_order(keys: &Vec<usize>) -> (res: Vec<usize>)
    ensures
        res@ == sorted_indices(keys@.len(), keys@),
        forall|i: int| 0 <= i < res@.len() ==> (#[trigger] res@[i]) < keys@.len(),
{
    let mut sorted: Vec<usize> = Vec::new();
    let mut j: usize = 0;
    while j < keys.len()
        invariant
            j <= keys@.len(),
            sorted@ == sorted_indices(j as nat, keys@),
        decreases keys@.len() - j,
    {
        proof {
            lemma_sorted_indices_range(j as nat, keys@);
        }
        let mut p = sorted.len();
        while p > 0 && keys[sorted[p - 1]] > keys[j]
            invariant
                p <= sorted@.len(),
                j < keys@.len(),
                sorted@ == sorted_indices(j as nat, keys@),
                forall|i: int| 0 <= i < sorted@.len() ==> (#[trigger] sorted@[i]) < j,
                forall|m: int| p <= m < sorted@.len() ==> keys@[#[trigger] sorted@[m] as int] > keys@[j as int],
            decreases p,
        {
            p = p - 1;
        }
        proof {
            lemma_insert_index_at(sorted@, j, keys@, p as int);
        }
        sorted.insert(p, j);
        j = j + 1;
    }
    proof {
        lemma_sorted_indices_range(keys@.len(), keys@);
    }
    sorted
}

/// The number of blocks in which some register of `g` is live: the key groups are ordered by.
pub open spec fn sort_key(live_blocks: Map<Seq<char>, Vec<usize>>, g: Set<Seq<char>>) -> usize {
    group_blocks(live_blocks, g).len() as usize
}

/// The groups in the order of their keys, groups with equal keys in their own order.
pub open spec fn sort_groups(groups: Seq<Set<Seq<char>>>, live_blocks: Map<Seq<char>, Vec<usize>>) -> Seq<Set<Seq<char>>> {
    let keys = groups.map_values(|g: Set<Seq<char>>| sort_key(live_blocks, g));
    sorted_indices(groups.len(), keys).map_values(|j: usize| groups[j as int])
}

/// The place of a group whose value takes `bytes` bytes, with the next free temporary register
/// and the stack space used so far: the temporary registers it needs where they reach no
/// further than `t6`, else the next stack space. Gives the place and the new counts.
pub open spec fn group_place(bytes: int, next_t: int, stack: int) -> (AssignView, int, int) {
    let need = bytes / 4;
    if next_t + need - 1 <= 6 {
        (numbered_places('t', next_t, need), next_t + need, stack)
    } else {
        (AssignView::StackValue(stack as usize), next_t, stack + bytes)
    }
}

/// `m` with every register of `g` placed at `place`.
pub open spec fn with_group(m: Map<Seq<char>, AssignView>, g: Set<Seq<char>>, place: AssignView) -> Map<Seq<char>, AssignView> {
    m.union_prefer_right(Map::new(|n: Seq<char>| g.contains(n), |n: Seq<char>| place))
}

/// The places of the groups in order, each sized by its sample register, added to `m`. Gives
/// the places and the next free temporary register and the stack space used.
pub open spec fn place_groups(groups: Seq<Set<Seq<char>>>, samples: Seq<Seq<char>>, size_bits: Map<Seq<char>, usize>,
    m: Map<Seq<char>, AssignView>, next_t: int, stack: int) -> (Map<Seq<char>, AssignView>, int, int)
    decreases groups.len(),
{
    if groups.len() == 0 || samples.len() != groups.len() {
        (m, next_t, stack)
    } else {
        let prev = place_groups(groups.drop_last(), samples.drop_last(), size_bits, m, next_t, stack);
        let placed = group_place(byte_size(size_bits[samples.last()]), prev.1, prev.2);
        (with_group(prev.0, groups.last(), placed.0), placed.1, placed.2)
    }
}

/// Whether each sample is a register of the group at its position.
pub open spec fn samples_of(groups: Seq<Set<Seq<char>>>, samples: Seq<Seq<char>>) -> bool {
    samples.len() == groups.len() && forall|i: int| 0 <= i < groups.len() ==> (#[trigger] groups[i]).contains(samples[i])
}

/// The groups of a function's registers, ordered as they are placed: the registers that are
/// neither parameters nor stand for stack space, grouped, and ordered by the number of blocks
/// each group is live in.
pub open spec fn ordered_groups(statements: Seq<IRStatement>, params: Seq<Parameter>, allocas: Seq<(RegisterName, usize)>,
    registers: Seq<RegisterName>, live_blocks: Map<Seq<char>, Vec<usize>>, size_bits: Map<Seq<char>, usize>) -> Seq<Set<Seq<char>>> {
    let names = considered(register_names(registers), excluded_names(params, allocas));
    sort_groups(grouping(phi_groups(statements), live_blocks, size_bits, names), live_blocks)
}

/// Where each register of a function is kept and the stack space used, when each group is sized
/// by the register of `samples` at its position: parameters in argument registers, registers
/// that stand for stack space at their stack places, then the groups in order, from `t2` on.
pub open spec fn assignment(statements: Seq<IRStatement>, params: Seq<Parameter>, allocas: Seq<(RegisterName, usize)>,
    registers: Seq<RegisterName>, live_blocks: Map<Seq<char>, Vec<usize>>, size_bits: Map<Seq<char>, usize>,
    samples: Seq<Seq<char>>) -> (Map<Seq<char>, AssignView>, int) {
    let pp = param_places(params);
    let ap = alloca_places(allocas, 0);
    let groups = ordered_groups(statements, params, allocas, registers, live_blocks, size_bits);
    let placed = place_groups(groups, samples, size_bits, pp.0.union_prefer_right(ap.0), 2, ap.1);
    (placed.0, placed.2)
}

/// Whether every register of every group has its size recorded, small enough to round to bytes.
pub open spec fn groups_sized(groups: Seq<Set<Seq<char>>>, size_bits: Map<Seq<char>, usize>) -> bool {
    forall|i: int, n: Seq<char>| 0 <= i < groups.len() && #[trigger] groups[i].contains(n)
        ==> size_bits.contains_key(n) && size_bits[n] + 7 <= usize::MAX
}

/// Whether `g` holds a register.
pub open spec fn has_member(g: Set<Seq<char>>) -> bool {
    exists|n: Seq<char>| g.contains(n)
}

/// A register of `g`, where it holds one.
pub open spec fn some_member(g: Set<Seq<char>>) -> Seq<char> {
    choose|x: Seq<char>| g.contains(x)
}

/// Whether every group holds a register.
pub open spec fn groups_nonempty(groups: Seq<Set<Seq<char>>>) -> bool {
    forall|i: int| 0 <= i < groups.len() ==> has_member(#[trigger] groups[i])
}

proof fn lemma_phi_groups_nonempty(statements: Seq<IRStatement>)
    ensures
        groups_nonempty(phi_groups(statements)),
    decreases statements.len(),
{
    if statements.len() > 0 {
        lemma_phi_groups_nonempty(statements.drop_last());
        let gs = phi_groups(statements.drop_last());
        if let IRStatement::Phi(phi) = statements.last() {
            let names = phi_names(phi);
            assert(names.contains(phi.to.0@));
            let r = merge_group(gs, names);
            lemma_first_meeting(gs, names);
            assert forall|i: int| 0 <= i < r.len() implies has_member(#[trigger] r[i]) by {
                match first_meeting(gs, names) {
                    Some(i0) => {
                        let n = choose|n: Seq<char>| gs[i].contains(n);
                        if i == i0 {
                            assert(gs[i0].union(names).contains(n));
                        }
                        assert(r[i].contains(n));
                    },
                    None => {
                        if i < gs.len() {
                            let n = choose|n: Seq<char>| gs[i].contains(n);
                            assert(r[i].contains(n));
                        } else {
                            assert(r[i].contains(phi.to.0@));
                        }
                    },
                }
            }
            assert(groups_nonempty(r));
            assert(phi_groups(statements) == r);
        } else {
            assert(phi_groups(statements) == gs);
        }
    }
}

proof fn lemma_grouping_nonempty(start: Seq<Set<Seq<char>>>, live_blocks: Map<Seq<char>, Vec<usize>>,
    size_bits: Map<Seq<char>, usize>, regs: Seq<Seq<char>>)
    requires
        groups_nonempty(start),
    ensures
        groups_nonempty(grouping(start, live_blocks, size_bits, regs)),
    decreases regs.len(),
{
    if regs.len() > 0 {
        lemma_grouping_nonempty(start, live_blocks, size_bits, regs.drop_last());
        let g0 = grouping(start, live_blocks, size_bits, regs.drop_last());
        let g = grouping(start, live_blocks, size_bits, regs);
        let r = regs.last();
        assert(g == place_register(g0, live_blocks, size_bits, r));
        lemma_first_apart(g0, live_blocks, live(live_blocks, r));
        assert forall|i: int| 0 <= i < g.len() implies has_member(#[trigger] g[i]) by {
            if in_some_group(g0, r) {
                let n = choose|n: Seq<char>| g0[i].contains(n);
                assert(g[i].contains(n));
            } else if registers_needed(size_bits[r]) <= 1 && first_apart(g0, live_blocks, live(live_blocks, r)) is Some {
                let i0 = first_apart(g0, live_blocks, live(live_blocks, r)).unwrap();
                assert(g == g0.update(i0, g0[i0].insert(r)));
                let n = choose|n: Seq<char>| g0[i].contains(n);
                assert(g[i].contains(n));
            } else {
                assert(g == g0.push(set![r]));
                if i < g0.len() {
                    let n = choose|n: Seq<char>| g0[i].contains(n);
                    assert(g[i].contains(n));
                } else {
                    assert(g[i].contains(r));
                }
            }
        }
        assert(groups_nonempty(g));
    }
}

proof fn lemma_place_stack_grows(groups: Seq<Set<Seq<char>>>, samples: Seq<Seq<char>>, size_bits: Map<Seq<char>, usize>,
    m: Map<Seq<char>, AssignView>, next_t: int, stack: int, k: int)
    requires
        samples.len() == groups.len(),
        0 <= k <= groups.len(),
    ensures
        place_groups(groups.take(k), samples.take(k), size_bits, m, next_t, stack).2
            <= place_groups(groups, samples, size_bits, m, next_t, stack).2,
    decreases groups.len() - k,
{
    if k < groups.len() {
        lemma_place_stack_grows(groups.drop_last(), samples.drop_last(), size_bits, m, next_t, stack, k);
        assert(groups.drop_last().take(k) =~= groups.take(k));
        assert(samples.drop_last().take(k) =~= samples.take(k));
        let prev = place_groups(groups.drop_last(), samples.drop_last(), size_bits, m, next_t, stack);
        assert(byte_size(size_bits[samples.last()]) >= 0);
    } else {
        assert(groups.take(k) =~= groups);
        assert(samples.take(k) =~= samples);
    }
}

proof fn lemma_place_counts(groups: Seq<Set<Seq<char>>>, samples: Seq<Seq<char>>, size_bits: Map<Seq<char>, usize>,
    m: Map<Seq<char>, AssignView>, stack: int)
    ensures
        2 <= place_groups(groups, samples, size_bits, m, 2, stack).1 <= 7,
        stack <= place_groups(groups, samples, size_bits, m, 2, stack).2,
    decreases groups.len(),
{
    if groups.len() > 0 && samples.len() == groups.len() {
        lemma_place_counts(groups.drop_last(), samples.drop_last(), size_bits, m, stack);
    }
}

/// The name set of a list with one more register.
proof fn lemma_name_set_push(names: Seq<RegisterName>, r: RegisterName)
    ensures
        name_set(names.push(r)) == name_set(names).insert(r.0@),
{
    let p = names.push(r);
    assert forall|n: Seq<char>| name_set(p).contains(n) <==> name_set(names).insert(r.0@).contains(n) by {
        if name_set(p).contains(n) {
            let k = choose|k: int| 0 <= k < p.len() && #[trigger] p[k].0@ == n;
            if k < names.len() {
                assert(names[k].0@ == n);
            }
        }
        if name_set(names).contains(n) {
            let k = choose|k: int| 0 <= k < names.len() && #[trigger] names[k].0@ == n;
            assert(p[k].0@ == n);
        }
        if n == r.0@ {
            assert(p[names.len() as int].0@ == n);
        }
    }
    assert(name_set(p) =~= name_set(names).insert(r.0@));
}

/// Whether every name has its live blocks and its size recorded, the size small enough to round
/// to bytes.
pub open spec fn names_recorded(names: Seq<Seq<char>>, live_blocks: Map<Seq<char>, Vec<usize>>,
    size_bits: Map<Seq<char>, usize>) -> bool {
    forall|k: int| 0 <= k < names.len() ==> {
        &&& live_blocks.contains_key(#[trigger] names[k])
        &&& size_bits.contains_key(names[k])
        &&& size_bits[names[k]] + 7 <= usize::MAX
    }
}

proof fn lemma_same_assign_view(a: RegisterAssign, b: RegisterAssign)
    requires
        same_assign(a, b),
    ensures
        a@ == b@,
{
}

/// Assigns each register of a function a place. Parameters go to argument registers from `a0`
/// on, registers that stand for stack space to stack spaces one after another, and the other
/// registers of `registers`, grouped as `register_groups` groups them and ordered by the number
/// of blocks each group is live in, to temporary registers from `t2` to `t6` while they last, then
/// to the stack after the stack spaces. A group is sized by one of its registers. `live_blocks`
/// and `size_bits` give each register's live blocks and size. Gives the places and the stack
/// space used.
pub fn assign_register(ir_code: &FunctionDefinition, params: &Vec<Parameter>, allocas: &Vec<(RegisterName, usize)>,
    registers: &Vec<RegisterName>, live_blocks: &NameMap<Vec<usize>>, size_bits: &NameMap<usize>)
    -> (res: (NameMap<RegisterAssign>, usize))
    requires
        live_blocks.wf(),
        size_bits.wf(),
        params_fit(params@),
        allocas_fit(allocas@, 0),
        names_recorded(considered(register_names(registers@), excluded_names(params@, allocas@)), live_blocks@, size_bits@),
        groups_recorded(phi_groups(ir_code.statements()), live_blocks@),
        groups_sized(phi_groups(ir_code.statements()), size_bits@),
        forall|samples: Seq<Seq<char>>|
            samples_of(ordered_groups(ir_code.statements(), params@, allocas@, registers@, live_blocks@, size_bits@), samples)
            ==> #[trigger] assignment(ir_code.statements(), params@, allocas@, registers@, live_blocks@, size_bits@, samples).1
                <= usize::MAX,
    ensures
        res.0.wf(),
        exists|samples: Seq<Seq<char>>|
            samples_of(ordered_groups(ir_code.statements(), params@, allocas@, registers@, live_blocks@, size_bits@), samples)
            && #[trigger] assignment(ir_code.statements(), params@, allocas@, registers@, live_blocks@, size_bits@, samples)
                == (assign_views(res.0@), res.1 as int),
{
    let ghost statements = ir_code.statements();
    let mut register_assign = assign_param(params);
    let mut current_used_stack_space: usize = 0;
    let alloca_assign = assign_alloca(allocas, &mut current_used_stack_space);
    let ghost pm = register_assign@;
    let ghost am = alloca_assign@;
    register_assign.extend(alloca_assign);
    let ghost m0 = param_places(params@).0.union_prefer_right(alloca_places(allocas@, 0).0);
    assert(assign_views(register_assign@) =~= m0) by {
        assert(register_assign@ == pm.union_prefer_right(am));
    }
    let ghost s0 = alloca_places(allocas@, 0).1;
    let consider = considered_registers(registers, params, allocas);
    let ghost names = considered(register_names(registers@), excluded_names(params@, allocas@));
    assert(registers_recorded(consider@, live_blocks@, size_bits@)) by {
        assert forall|k: int| 0 <= k < consider@.len() implies {
            &&& live_blocks@.contains_key((#[trigger] consider@[k]).0@)
            &&& size_bits@.contains_key(consider@[k].0@)
            &&& size_bits@[consider@[k].0@] + 7 <= usize::MAX
        } by {
            assert(register_names(consider@)[k] == consider@[k].0@);
            assert(names[k] == consider@[k].0@);
        }
    }
    let groups = register_groups(&consider, ir_code, live_blocks, size_bits);
    let ghost gs = group_sets(groups@);
    let ghost base = phi_groups(statements);
    assert(gs == grouping(base, live_blocks@, size_bits@, names));
    proof {
        lemma_grouping_laws(base, live_blocks@, size_bits@, names);
        lemma_phi_groups_nonempty(statements);
        lemma_grouping_nonempty(base, live_blocks@, size_bits@, names);
    }
    // Every register of every group has its live blocks and its size recorded.
    assert forall|j: int, n: Seq<char>| 0 <= j < gs.len() && #[trigger] gs[j].contains(n) implies
        live_blocks@.contains_key(n) && size_bits@.contains_key(n) && size_bits@[n] + 7 <= usize::MAX by {
        if !group_at(base, j).contains(n) {
            assert(names.contains(n));
            let k = choose|k: int| 0 <= k < names.len() && names[k] == n;
            assert(live_blocks@.contains_key(names[k]));
        } else {
            assert(base[j].contains(n));
        }
    }
    let mut keys: Vec<usize> = Vec::new();
    let mut j: usize = 0;
    while j < groups.len()
        invariant
            j <= groups@.len(),
            live_blocks.wf(),
            gs == group_sets(groups@),
            forall|j2: int, n: Seq<char>| 0 <= j2 < gs.len() && #[trigger] gs[j2].contains(n) ==> live_blocks@.contains_key(n),
            keys@ == gs.take(j as int).map_values(|g: Set<Seq<char>>| sort_key(live_blocks@, g)),
        decreases groups@.len() - j,
    {
        assert forall|k: int| 0 <= k < groups@[j as int]@.len() implies
            live_blocks@.contains_key((#[trigger] groups@[j as int]@[k]).0@) by {
            assert(name_set(groups@[j as int]@).contains(groups@[j as int]@[k].0@));
            assert(gs[j as int].contains(groups@[j as int]@[k].0@));
        }
        let blocks = active_block_intersection(&groups[j], live_blocks);
        proof {
            blocks@.unique_seq_to_set();
        }
        assert(gs[j as int] == name_set(groups@[j as int]@));
        keys.push(blocks.len());
        assert(keys@ =~= gs.take(j + 1).map_values(|g: Set<Seq<char>>| sort_key(live_blocks@, g)));
        j = j + 1;
    }
    assert(gs.take(groups@.len() as int) =~= gs);
    let order = stable_order(&keys);
    let ghost sorted = sort_groups(gs, live_blocks@);
    assert(sorted == order@.map_values(|i: usize| gs[i as int]));
    assert(sorted == ordered_groups(statements, params@, allocas@, registers@, live_blocks@, size_bits@));
    assert(order@.len() == gs.len()) by {
        lemma_sorted_indices_range(gs.len(), keys@);
    }
    let mut next_t: usize = 2;
    let ghost mut samples: Seq<Seq<char>> = Seq::empty();
    let mut k: usize = 0;
    assert(sorted.take(0) =~= Seq::<Set<Seq<char>>>::empty());
    while k < order.len()
        invariant
            k <= order@.len(),
            order@.len() == gs.len(),
            forall|i: int| 0 <= i < order@.len() ==> (#[trigger] order@[i]) < gs.len(),
            sorted == order@.map_values(|i: usize| gs[i as int]),
            sorted == ordered_groups(statements, params@, allocas@, registers@, live_blocks@, size_bits@),
            statements == ir_code.statements(),
            gs == group_sets(groups@),
            groups_no_repeats(groups@),
            groups_nonempty(gs),
            size_bits.wf(),
            register_assign.wf(),
            forall|j2: int, n: Seq<char>| 0 <= j2 < gs.len() && #[trigger] gs[j2].contains(n)
                ==> size_bits@.contains_key(n) && size_bits@[n] + 7 <= usize::MAX,
            m0 == param_places(params@).0.union_prefer_right(alloca_places(allocas@, 0).0),
            s0 == alloca_places(allocas@, 0).1,
            forall|smp: Seq<Seq<char>>|
                samples_of(ordered_groups(ir_code.statements(), params@, allocas@, registers@, live_blocks@, size_bits@), smp)
                ==> #[trigger] assignment(ir_code.statements(), params@, allocas@, registers@, live_blocks@, size_bits@, smp).1
                    <= usize::MAX,
            samples_of(sorted.take(k as int), samples),
            place_groups(sorted.take(k as int), samples, size_bits@, m0, 2, s0)
                == (assign_views(register_assign@), next_t as int, current_used_stack_space as int),
        decreases order@.len() - k,
    {
        let gi = order[k];
        let group = &groups[gi];
        assert(sorted[k as int] == gs[gi as int]);
        assert(gs[gi as int] == name_set(group@));
        assert(has_member(gs[gi as int]));
        let ghost any = choose|n: Seq<char>| gs[gi as int].contains(n);
        assert(group@.len() > 0) by {
            let m = choose|m: int| 0 <= m < group@.len() && #[trigger] group@[m].0@ == any;
        }
        let sample = &group[0];
        assert(name_set(group@).contains(group@[0].0@));
        let bits = match size_bits.get(sample.0.as_str()) {
            Some(b) => *b,
            None => {
                assert(false);
                0
            },
        };
        let type_bytes = (bits + 7) / 8;
        let need_registers = type_bytes / 4;
        let ghost sample_name = sample.0@;
        let ghost next_samples = samples.push(sample_name);
        proof {
            lemma_place_counts(sorted.take(k as int), samples, size_bits@, m0, s0);
            // The stack never grows past what the whole assignment takes, whatever the samples.
            let n = sorted.len();
            let rest = Seq::new((n - k - 1) as nat, |i: int| some_member(sorted[k + 1 + i]));
            let full = next_samples + rest;
            assert forall|i: int| 0 <= i < sorted.len() implies (#[trigger] sorted[i]).contains(full[i]) by {
                if i < k {
                    assert(sorted.take(k as int)[i] == sorted[i]);
                    assert(full[i] == samples[i]);
                } else if i == k {
                    assert(full[i] == sample_name);
                } else {
                    assert(sorted[i] == gs[order@[i] as int]);
                    assert(has_member(gs[order@[i] as int]));
                    assert(full[i] == rest[i - k - 1]);
                    assert(full[i] == some_member(sorted[i]));
                }
            }
            assert(samples_of(sorted, full));
            let whole = assignment(statements, params@, allocas@, registers@, live_blocks@, size_bits@, full);
            assert(whole.1 <= usize::MAX);
            lemma_place_stack_grows(sorted, full, size_bits@, m0, 2, s0, k + 1);
            assert(full.take(k + 1) =~= next_samples);
            let t = sorted.take(k + 1);
            assert(t.drop_last() =~= sorted.take(k as int));
            assert(next_samples.drop_last() =~= samples);
        }
        let assigned = if next_temporary_fits(next_t, need_registers) {
            let a = numbered_assign('t', next_t, need_registers);
            next_t = next_t + need_registers;
            a
        } else {
            let a = RegisterAssign::StackValue(current_used_stack_space);
            current_used_stack_space = current_used_stack_space + type_bytes;
            a
        };
        let ghost before_map = assign_views(register_assign@);
        let mut i: usize = 0;
        assert(with_group(before_map, name_set(group@.take(0)), assigned@) =~= before_map) by {
            assert(name_set(group@.take(0)) =~= Set::<Seq<char>>::empty());
        }
        while i < group.len()
            invariant
                i <= group@.len(),
                register_assign.wf(),
                assign_views(register_assign@) == with_group(before_map, name_set(group@.take(i as int)), assigned@),
            decreases group@.len() - i,
        {
            let member = &group[i];
            let copy = assigned.duplicate();
            proof {
                lemma_same_assign_view(copy, assigned);
                lemma_name_set_push(group@.take(i as int), group@[i as int]);
                assert(group@.take(i + 1) =~= group@.take(i as int).push(group@[i as int]));
            }
            let ghost before = register_assign@;
            register_assign.insert(member.0.clone(), copy);
            assert(assign_views(register_assign@) =~= assign_views(before).insert(member.0@, assigned@));
            assert(assign_views(register_assign@) =~= with_group(before_map, name_set(group@.take(i + 1)), assigned@));
            i = i + 1;
        }
        assert(group@.take(group@.len() as int) =~= group@);
        proof {
            samples = next_samples;
            assert(sorted.take(k + 1).last() == sorted[k as int]);
            assert forall|i2: int| 0 <= i2 < k + 1 implies (#[trigger] sorted.take(k + 1)[i2]).contains(samples[i2]) by {
                if i2 < k {
                    assert(sorted.take(k as int)[i2] == sorted.take(k + 1)[i2]);
                }
            }
        }
        k = k + 1;
    }
    assert(sorted.take(order@.len() as int) =~= sorted);
    assert(samples_of(ordered_groups(statements, params@, allocas@, registers@, live_blocks@, size_bits@), samples));
    assert(assignment(statements, params@, allocas@, registers@, live_blocks@, size_bits@, samples)
        == (assign_views(register_assign@), current_used_stack_space as int));
    (register_assign, current_used_stack_space)
}

/// Whether `s` lists indices in the order of their keys, indices with equal keys in increasing
/// order.
pub open spec fn ordered_by_key(s: Seq<usize>, keys: Seq<usize>) -> bool {
    forall|a: int, b: int| 0 <= a < b < s.len() ==> {
        &&& keys[#[trigger] s[a] as int] <= keys[#[trigger] s[b] as int]
        &&& (keys[s[a] as int] == keys[s[b] as int] ==> s[a] < s[b])
    }
}

proof fn lemma_insert_index_ordered(s: Seq<usize>, j: usize, keys: Seq<usize>)
    requires
        ordered_by_key(s, keys),
        s.no_duplicates(),
        forall|m: int| 0 <= m < s.len() ==> (#[trigger] s[m]) < j,
    ensures
        ordered_by_key(insert_index(s, j, keys), keys),
        insert_index(s, j, keys).no_duplicates(),
    decreases s.len(),
{
    lemma_insert_index_members(s, j, keys);
    if s.len() > 0 && keys[s.last() as int] > keys[j as int] {
        let d = s.drop_last();
        assert forall|m: int| 0 <= m < d.len() implies (#[trigger] d[m]) < j by {
            assert(d[m] == s[m]);
        }
        assert forall|a: int, b: int| 0 <= a < b < d.len() implies {
            &&& keys[#[trigger] d[a] as int] <= keys[#[trigger] d[b] as int]
            &&& (keys[d[a] as int] == keys[d[b] as int] ==> d[a] < d[b])
        } by {
            assert(d[a] == s[a] && d[b] == s[b]);
        }
        lemma_insert_index_ordered(d, j, keys);
        lemma_insert_index_members(d, j, keys);
        let r0 = insert_index(d, j, keys);
        let r = insert_index(s, j, keys);
        let last = s.last();
        assert(r == r0.push(last));
        assert forall|a: int| 0 <= a < r0.len() implies keys[#[trigger] r0[a] as int] <= keys[last as int]
            && (keys[r0[a] as int] == keys[last as int] ==> r0[a] < last) && r0[a] != last by {
            if r0[a] != j {
                let m = choose|m: int| 0 <= m < d.len() && d[m] == r0[a];
                assert(s[m] == r0[a]);
                assert(keys[s[m] as int] <= keys[s[s.len() - 1] as int]);
            }
        }
        assert forall|a: int, b: int| 0 <= a < b < r.len() implies {
            &&& keys[#[trigger] r[a] as int] <= keys[#[trigger] r[b] as int]
            &&& (keys[r[a] as int] == keys[r[b] as int] ==> r[a] < r[b])
        } by {
            if b < r0.len() {
                assert(r[a] == r0[a] && r[b] == r0[b]);
            } else {
                assert(r[a] == r0[a]);
            }
        }
        assert forall|a: int, b: int| 0 <= a < r.len() && 0 <= b < r.len() && a != b implies r[a] != r[b] by {
            if a < r0.len() && b < r0.len() {
                assert(r[a] == r0[a] && r[b] == r0[b]);
            } else if a < r0.len() {
                assert(r0[a] != last);
            } else {
                assert(r0[b] != last);
            }
        }
    } else if s.len() > 0 {
        let r = insert_index(s, j, keys);
        assert(r == s.push(j));
        assert forall|a: int, b: int| 0 <= a < b < r.len() implies {
            &&& keys[#[trigger] r[a] as int] <= keys[#[trigger] r[b] as int]
            &&& (keys[r[a] as int] == keys[r[b] as int] ==> r[a] < r[b])
        } by {
            if b < s.len() {
                assert(r[a] == s[a] && r[b] == s[b]);
            } else {
                assert(r[a] == s[a]);
                if a < s.len() - 1 {
                    assert(keys[s[a] as int] <= keys[s[s.len() - 1] as int]);
                }
            }
        }
        assert forall|a: int, b: int| 0 <= a < r.len() && 0 <= b < r.len() && a != b implies r[a] != r[b] by {
            if a < s.len() && b < s.len() {
                assert(r[a] == s[a] && r[b] == s[b]);
            } else if a < s.len() {
                assert(s[a] < j);
            } else {
                assert(s[b] < j);
            }
        }
    } else {
        assert(insert_index(s, j, keys) == seq![j]);
    }
}

/// The order groups are placed in is a stable sort: it lists each index once, in the order of
/// the keys, and indices with equal keys in their own order.
pub proof fn lemma_sorted_indices_stable(n: nat, keys: Seq<usize>)
    requires
        n <= usize::MAX + 1,
    ensures
        sorted_indices(n, keys).len() == n,
        sorted_indices(n, keys).no_duplicates(),
        forall|i: int| 0 <= i < n ==> (#[trigger] sorted_indices(n, keys)[i]) < n,
        ordered_by_key(sorted_indices(n, keys), keys),
    decreases n,
{
    lemma_sorted_indices_range(n, keys);
    if n > 0 {
        let prev = sorted_indices((n - 1) as nat, keys);
        lemma_sorted_indices_stable((n - 1) as nat, keys);
        lemma_insert_index_ordered(prev, (n - 1) as usize, keys);
    }
}

/// The next free temporary register and the stack space used once the groups are placed in
/// order, each sized by its sample.
pub open spec fn place_counts(groups: Seq<Set<Seq<char>>>, samples: Seq<Seq<char>>, size_bits: Map<Seq<char>, usize>,
    next_t: int, stack: int) -> (int, int)
    decreases groups.len(),
{
    if groups.len() == 0 || samples.len() != groups.len() {
        (next_t, stack)
    } else {
        let prev = place_counts(groups.drop_last(), samples.drop_last(), size_bits, next_t, stack);
        let placed = group_place(byte_size(size_bits[samples.last()]), prev.0, prev.1);
        (placed.1, placed.2)
    }
}

proof fn lemma_place_counts_match(groups: Seq<Set<Seq<char>>>, samples: Seq<Seq<char>>, size_bits: Map<Seq<char>, usize>,
    m: Map<Seq<char>, AssignView>, next_t: int, stack: int)
    ensures
        place_groups(groups, samples, size_bits, m, next_t, stack).1 == place_counts(groups, samples, size_bits, next_t, stack).0,
        place_groups(groups, samples, size_bits, m, next_t, stack).2 == place_counts(groups, samples, size_bits, next_t, stack).1,
    decreases groups.len(),
{
    if groups.len() > 0 && samples.len() == groups.len() {
        lemma_place_counts_match(groups.drop_last(), samples.drop_last(), size_bits, m, next_t, stack);
    }
}

/// The counts before group `i` is placed, the stack starting at `stack`.
pub open spec fn counts_before(groups: Seq<Set<Seq<char>>>, samples: Seq<Seq<char>>, size_bits: Map<Seq<char>, usize>,
    stack: int, i: int) -> (int, int) {
    place_counts(groups.take(i), samples.take(i), size_bits, 2, stack)
}

proof fn lemma_counts_step(groups: Seq<Set<Seq<char>>>, samples: Seq<Seq<char>>, size_bits: Map<Seq<char>, usize>, stack: int, i: int)
    requires
        samples.len() == groups.len(),
        0 <= i < groups.len(),
    ensures
        ({
            let c = counts_before(groups, samples, size_bits, stack, i);
            let placed = group_place(byte_size(size_bits[samples[i]]), c.0, c.1);
            counts_before(groups, samples, size_bits, stack, i + 1) == (placed.1, placed.2)
        }),
{
    assert(groups.take(i + 1).drop_last() =~= groups.take(i));
    assert(samples.take(i + 1).drop_last() =~= samples.take(i));
}

proof fn lemma_counts_grow(groups: Seq<Set<Seq<char>>>, samples: Seq<Seq<char>>, size_bits: Map<Seq<char>, usize>, stack: int, i: int, j: int)
    requires
        samples.len() == groups.len(),
        0 <= stack,
        0 <= i <= j <= groups.len(),
    ensures
        counts_before(groups, samples, size_bits, stack, i).0 <= counts_before(groups, samples, size_bits, stack, j).0,
        counts_before(groups, samples, size_bits, stack, i).1 <= counts_before(groups, samples, size_bits, stack, j).1,
        2 <= counts_before(groups, samples, size_bits, stack, j).0 <= 7,
        0 <= counts_before(groups, samples, size_bits, stack, j).1,
    decreases j - i,
{
    if i < j {
        lemma_counts_grow(groups, samples, size_bits, stack, i, j - 1);
        lemma_counts_step(groups, samples, size_bits, stack, j - 1);
    } else {
        lemma_counts_bounds(groups.take(j), samples.take(j), size_bits, stack);
    }
}

proof fn lemma_counts_bounds(groups: Seq<Set<Seq<char>>>, samples: Seq<Seq<char>>, size_bits: Map<Seq<char>, usize>, stack: int)
    requires
        0 <= stack,
    ensures
        2 <= place_counts(groups, samples, size_bits, 2, stack).0 <= 7,
        0 <= place_counts(groups, samples, size_bits, 2, stack).1,
    decreases groups.len(),
{
    if groups.len() > 0 && samples.len() == groups.len() {
        lemma_counts_bounds(groups.drop_last(), samples.drop_last(), size_bits, stack);
    }
}

/// Groups placed one after another never share a temporary register or stack space: a group
/// placed in temporaries takes `t` registers from the next free one up to `t6` at most, a group
/// placed on the stack takes the next stack space, and every later group starts after them.
/// The counts before each group are those `place_groups` reaches there.
pub proof fn lemma_places_apart(groups: Seq<Set<Seq<char>>>, samples: Seq<Seq<char>>, size_bits: Map<Seq<char>, usize>,
    m: Map<Seq<char>, AssignView>, stack: int, i: int, j: int)
    requires
        samples.len() == groups.len(),
        0 <= stack,
        0 <= i < j < groups.len(),
    ensures
        ({
            let before_j = place_groups(groups.take(j), samples.take(j), size_bits, m, 2, stack);
            counts_before(groups, samples, size_bits, stack, j) == (before_j.1, before_j.2)
        }),
        ({
            let ci = counts_before(groups, samples, size_bits, stack, i);
            let cj = counts_before(groups, samples, size_bits, stack, j);
            let bytes = byte_size(size_bits[samples[i]]);
            let need = bytes / 4;
            &&& 2 <= ci.0
            &&& (ci.0 + need - 1 <= 6 ==> ci.0 + need <= cj.0 && ci.0 + need <= 7)
            &&& (ci.0 + need - 1 > 6 ==> ci.1 + bytes <= cj.1)
        }),
{
    lemma_counts_grow(groups, samples, size_bits, stack, 0, i);
    lemma_counts_step(groups, samples, size_bits, stack, i);
    lemma_counts_grow(groups, samples, size_bits, stack, i + 1, j);
    lemma_place_counts_match(groups.take(j), samples.take(j), size_bits, m, 2, stack);
}

/// Whether a group that needs `need` registers still fits in the temporary registers from
/// `next_t` on, which end at `t6`.
fn next_temporary_fits(next_t: usize, need: usize) -> (res: bool)
    requires
        2 <= next_t <= 7,
        need <= usize::MAX / 4,
    ensures
        res == (next_t + need - 1 <= 6),
{
    next_t + need - 1 <= 6
}

} // verus!
