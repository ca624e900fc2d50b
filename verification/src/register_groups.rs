//! Grouping logical registers that can share one place: registers that phi nodes tie together,
//! and registers whose live blocks do not meet.
use vstd::prelude::*;

use crate::ir::{FunctionDefinition, RegisterName};
use crate::name_map::NameMap;
use crate::register_assign::{
    collect_phied_registers, group_sets, groups_no_repeats, has_name, insert_name, name_set,
    no_repeats, phi_groups,
};

verus! {

/// The blocks in which register `n` is live, as `live_blocks` records them.
pub open spec fn live(live_blocks: Map<Seq<char>, Vec<usize>>, n: Seq<char>) -> Set<usize> {
    live_blocks[n]@.to_set()
}

/// The blocks in which some register of `group` is live.
pub open spec fn group_blocks(live_blocks: Map<Seq<char>, Vec<usize>>, group: Set<Seq<char>>) -> Set<usize> {
    Set::new(|b: usize| exists|n: Seq<char>| group.contains(n) && #[trigger] live(live_blocks, n).contains(b))
}

/// Whether some group holds register `n`.
pub open spec fn in_some_group(groups: Seq<Set<Seq<char>>>, n: Seq<char>) -> bool {
    exists|i: int| 0 <= i < groups.len() && (#[trigger] groups[i]).contains(n)
}

/// The position of the first group whose registers are live in none of `blocks`.
pub open spec fn first_apart(groups: Seq<Set<Seq<char>>>, live_blocks: Map<Seq<char>, Vec<usize>>,
    blocks: Set<usize>) -> Option<int>
    decreases groups.len(),
{
    if groups.len() == 0 {
        None
    } else {
        match first_apart(groups.drop_last(), live_blocks, blocks) {
            Some(i) => Some(i),
            None => if group_blocks(live_blocks, groups.last()).disjoint(blocks) {
                Some(groups.len() - 1)
            } else {
                None
            },
        }
    }
}

/// How many 32-bit registers a value of `bits` bits takes, rounded down.
pub open spec fn registers_needed(bits: usize) -> int {
    ((bits + 7) / 8) / 4
}

/// Places register `r`: where no group holds it, a register that fits in one hardware register
/// joins the first group live in none of its blocks; otherwise it forms a group of its own.
pub open spec fn place_register(groups: Seq<Set<Seq<char>>>, live_blocks: Map<Seq<char>, Vec<usize>>,
    size_bits: Map<Seq<char>, usize>, r: Seq<char>) -> Seq<Set<Seq<char>>> {
    if in_some_group(groups, r) {
        groups
    } else if registers_needed(size_bits[r]) <= 1 {
        match first_apart(groups, live_blocks, live(live_blocks, r)) {
            Some(i) => groups.update(i, groups[i].insert(r)),
            None => groups.push(set![r]),
        }
    } else {
        groups.push(set![r])
    }
}

/// The groups once each of `regs` is placed, in order.
pub open spec fn grouping(groups: Seq<Set<Seq<char>>>, live_blocks: Map<Seq<char>, Vec<usize>>,
    size_bits: Map<Seq<char>, usize>, regs: Seq<Seq<char>>) -> Seq<Set<Seq<char>>>
    decreases regs.len(),
{
    if regs.len() == 0 {
        groups
    } else {
        place_register(grouping(groups, live_blocks, size_bits, regs.drop_last()), live_blocks, size_bits, regs.last())
    }
}

/// The names of a list of registers.
pub open spec fn register_names(regs: Seq<RegisterName>) -> Seq<Seq<char>> {
    regs.map_values(|r: RegisterName| r.0@)
}

/// The group at `i`, or no register where there is none.
pub open spec fn group_at(groups: Seq<Set<Seq<char>>>, i: int) -> Set<Seq<char>> {
    if 0 <= i < groups.len() { groups[i] } else { Set::empty() }
}

/// Whether any two registers of a group that did not both start in it are never live in the
/// same block.
pub open spec fn apart_within_groups(groups: Seq<Set<Seq<char>>>, start: Seq<Set<Seq<char>>>,
    live_blocks: Map<Seq<char>, Vec<usize>>) -> bool {
    forall|i: int, x: Seq<char>, y: Seq<char>|
        0 <= i < groups.len() && #[trigger] groups[i].contains(x) && #[trigger] groups[i].contains(y) && x != y
            && !(group_at(start, i).contains(x) && group_at(start, i).contains(y))
            ==> live(live_blocks, x).disjoint(live(live_blocks, y))
}

/// The group `first_apart` finds is the first whose registers are live in none of `blocks`;
/// where it finds none, every group is live in one of them.
pub proof fn lemma_first_apart(groups: Seq<Set<Seq<char>>>, live_blocks: Map<Seq<char>, Vec<usize>>, blocks: Set<usize>)
    ensures
        first_apart(groups, live_blocks, blocks) matches Some(i) ==> 0 <= i < groups.len()
            && group_blocks(live_blocks, groups[i]).disjoint(blocks)
            && forall|m: int| 0 <= m < i ==> !group_blocks(live_blocks, #[trigger] groups[m]).disjoint(blocks),
        first_apart(groups, live_blocks, blocks) is None ==> forall|m: int| 0 <= m < groups.len()
            ==> !group_blocks(live_blocks, #[trigger] groups[m]).disjoint(blocks),
    decreases groups.len(),
{
    if groups.len() > 0 {
        lemma_first_apart(groups.drop_last(), live_blocks, blocks);
        assert forall|m: int| 0 <= m < groups.len() - 1 implies groups.drop_last()[m] == groups[m] by {}
    }
}

/// Placing registers keeps the groups there were, each holding at least what it held, places every
/// register, adds no other register, and never puts together two registers live in one block,
/// unless both were together from the start.
pub proof fn lemma_grouping_laws(start: Seq<Set<Seq<char>>>, live_blocks: Map<Seq<char>, Vec<usize>>,
    size_bits: Map<Seq<char>, usize>, regs: Seq<Seq<char>>)
    ensures
        ({
            let g = grouping(start, live_blocks, size_bits, regs);
            &&& g.len() >= start.len()
            &&& forall|i: int| 0 <= i < start.len() ==> start[i].subset_of(#[trigger] g[i])
            &&& forall|k: int| 0 <= k < regs.len() ==> in_some_group(g, #[trigger] regs[k])
            &&& forall|i: int, n: Seq<char>| 0 <= i < g.len() && #[trigger] g[i].contains(n)
                ==> group_at(start, i).contains(n) || regs.contains(n)
            &&& apart_within_groups(g, start, live_blocks)
        }),
    decreases regs.len(),
{
    if regs.len() > 0 {
        let rest = regs.drop_last();
        let r = regs.last();
        lemma_grouping_laws(start, live_blocks, size_bits, rest);
        let g0 = grouping(start, live_blocks, size_bits, rest);
        let g = grouping(start, live_blocks, size_bits, regs);
        assert(g == place_register(g0, live_blocks, size_bits, r));
        assert forall|n: Seq<char>| rest.contains(n) implies regs.contains(n) by {
            let k = choose|k: int| 0 <= k < rest.len() && rest[k] == n;
            assert(regs[k] == n);
        }
        assert(regs.contains(r)) by {
            assert(regs[regs.len() - 1] == r);
        }
        if in_some_group(g0, r) {
            assert forall|k: int| 0 <= k < regs.len() implies in_some_group(g, #[trigger] regs[k]) by {
                if k < rest.len() {
                    assert(rest[k] == regs[k]);
                }
            }
        } else if registers_needed(size_bits[r]) <= 1 && first_apart(g0, live_blocks, live(live_blocks, r)) is Some {
            let i = first_apart(g0, live_blocks, live(live_blocks, r)).unwrap();
            lemma_first_apart(g0, live_blocks, live(live_blocks, r));
            assert(g == g0.update(i, g0[i].insert(r)));
            assert forall|k: int| 0 <= k < regs.len() implies in_some_group(g, #[trigger] regs[k]) by {
                if k < rest.len() {
                    assert(rest[k] == regs[k]);
                    let j = choose|j: int| 0 <= j < g0.len() && (#[trigger] g0[j]).contains(rest[k]);
                    assert(g[j].contains(regs[k]));
                } else {
                    assert(g[i].contains(r));
                }
            }
            assert forall|m: int, x: Seq<char>, y: Seq<char>|
                0 <= m < g.len() && #[trigger] g[m].contains(x) && #[trigger] g[m].contains(y) && x != y
                    && !(group_at(start, m).contains(x) && group_at(start, m).contains(y))
                implies live(live_blocks, x).disjoint(live(live_blocks, y)) by {
                if m == i && (x == r || y == r) {
                    let other = if x == r { y } else { x };
                    assert(g0[i].contains(other));
                    assert forall|b: usize| live(live_blocks, other).contains(b) implies !live(live_blocks, r).contains(b) by {
                        assert(group_blocks(live_blocks, g0[i]).contains(b));
                    }
                } else {
                    assert(g0[m].contains(x) && g0[m].contains(y));
                }
            }
        } else {
            assert(g == g0.push(set![r]));
            assert forall|k: int| 0 <= k < regs.len() implies in_some_group(g, #[trigger] regs[k]) by {
                if k < rest.len() {
                    assert(rest[k] == regs[k]);
                    let j = choose|j: int| 0 <= j < g0.len() && (#[trigger] g0[j]).contains(rest[k]);
                    assert(g[j].contains(regs[k]));
                } else {
                    assert(g[g0.len() as int].contains(r));
                }
            }
            assert forall|m: int, x: Seq<char>, y: Seq<char>|
                0 <= m < g.len() && #[trigger] g[m].contains(x) && #[trigger] g[m].contains(y) && x != y
                    && !(group_at(start, m).contains(x) && group_at(start, m).contains(y))
                implies live(live_blocks, x).disjoint(live(live_blocks, y)) by {
                if m < g0.len() {
                    assert(g0[m].contains(x) && g0[m].contains(y));
                }
            }
        }
    }
}

/// The blocks in which some register of `group` is live, each once.
pub fn active_block_intersection(group: &Vec<RegisterName>, live_blocks: &NameMap<Vec<usize>>) -> (res: Vec<usize>)
    requires
        live_blocks.wf(),
        forall|k: int| 0 <= k < group@.len() ==> live_blocks@.contains_key((#[trigger] group@[k]).0@),
    ensures
        res@.to_set() == group_blocks(live_blocks@, name_set(group@)),
        res@.no_duplicates(),
{
    let mut res: Vec<usize> = Vec::new();
    let mut i: usize = 0;
    while i < group.len()
        invariant
            i <= group@.len(),
            live_blocks.wf(),
            forall|k: int| 0 <= k < group@.len() ==> live_blocks@.contains_key((#[trigger] group@[k]).0@),
            res@.no_duplicates(),
            res@.to_set() == group_blocks(live_blocks@, name_set(group@.take(i as int))),
        decreases group@.len() - i,
    {
        let name = &group[i].0;
        assert(live_blocks@.contains_key(group@[i as int].0@));
        let blocks = match live_blocks.get(name.as_str()) {
            Some(b) => b,
            None => {
                assert(false);
                return res;
            },
        };
        let ghost before = res@.to_set();
        let mut j: usize = 0;
        while j < blocks.len()
            invariant
                j <= blocks@.len(),
                res@.no_duplicates(),
                res@.to_set() == before.union(blocks@.take(j as int).to_set()),
            decreases blocks@.len() - j,
        {
            let b = blocks[j];
            let ghost old_res = res@;
            if !vec_contains(&res, b) {
                res.push(b);
                proof {
                    old_res.lemma_push_to_set_commute(b);
                    assert forall|m: int, n: int| 0 <= m < n < res@.len() implies res@[m] != res@[n] by {
                        if n == res@.len() - 1 {
                            assert(old_res.contains(old_res[m]));
                        }
                    }
                }
            } else {
                assert(res@.to_set().contains(b));
                assert(res@.to_set() =~= res@.to_set().insert(b));
            }
            assert(blocks@.take(j + 1) =~= blocks@.take(j as int).push(b));
            proof {
                blocks@.take(j as int).lemma_push_to_set_commute(b);
            }
            j = j + 1;
        }
        proof {
            assert(blocks@.take(blocks@.len() as int) =~= blocks@);
            let g1 = group@.take(i + 1);
            assert(g1 =~= group@.take(i as int).push(group@[i as int]));
            assert(*blocks == live_blocks@[group@[i as int].0@]);
            assert forall|b: usize| res@.to_set().contains(b) <==> group_blocks(live_blocks@, name_set(g1)).contains(b) by {
                if res@.to_set().contains(b) {
                    if before.contains(b) {
                        let n = choose|n: Seq<char>| name_set(group@.take(i as int)).contains(n) && live(live_blocks@, n).contains(b);
                        let k = choose|k: int| 0 <= k < i && #[trigger] group@.take(i as int)[k].0@ == n;
                        assert(g1[k].0@ == n);
                        assert(name_set(g1).contains(n));
                    } else {
                        assert(blocks@.to_set().contains(b));
                        assert(g1[i as int].0@ == group@[i as int].0@);
                        assert(name_set(g1).contains(group@[i as int].0@));
                        assert(live(live_blocks@, group@[i as int].0@).contains(b));
                    }
                }
                if group_blocks(live_blocks@, name_set(g1)).contains(b) {
                    let n = choose|n: Seq<char>| name_set(g1).contains(n) && live(live_blocks@, n).contains(b);
                    let k = choose|k: int| 0 <= k < g1.len() && #[trigger] g1[k].0@ == n;
                    if k < i {
                        assert(group@.take(i as int)[k].0@ == n);
                        assert(name_set(group@.take(i as int)).contains(n));
                        assert(before.contains(b));
                    } else {
                        assert(n == group@[i as int].0@);
                        assert(blocks@.to_set().contains(b));
                    }
                }
            }
            assert(res@.to_set() =~= group_blocks(live_blocks@, name_set(g1)));
        }
        i = i + 1;
    }
    assert(group@.take(group@.len() as int) =~= group@);
    res
}

/// Whether `v` holds `x`.
fn vec_contains(v: &Vec<usize>, x: usize) -> (res: bool)
    ensures
        res == v@.contains(x),
{
    let mut i: usize = 0;
    while i < v.len()
        invariant
            i <= v@.len(),
            forall|k: int| 0 <= k < i ==> v@[k] != x,
        decreases v@.len() - i,
    {
        if v[i] == x {
            assert(v@[i as int] == x);
            return true;
        }
        i = i + 1;
    }
    false
}

/// Whether no block is in both `a` and `b`.
fn blocks_apart(a: &Vec<usize>, b: &Vec<usize>) -> (res: bool)
    ensures
        res == a@.to_set().disjoint(b@.to_set()),
{
    let mut i: usize = 0;
    while i < a.len()
        invariant
            i <= a@.len(),
            forall|k: int| 0 <= k < i ==> !b@.contains(#[trigger] a@[k]),
        decreases a@.len() - i,
    {
        if vec_contains(b, a[i]) {
            assert(a@.to_set().contains(a@[i as int]));
            return false;
        }
        i = i + 1;
    }
    assert forall|x: usize| a@.to_set().contains(x) implies !b@.to_set().contains(x) by {
        let k = choose|k: int| 0 <= k < a@.len() && a@[k] == x;
        assert(!b@.contains(a@[k]));
    }
    true
}

/// Whether every register of every group has its live blocks recorded.
pub open spec fn groups_recorded(groups: Seq<Set<Seq<char>>>, live_blocks: Map<Seq<char>, Vec<usize>>) -> bool {
    forall|i: int, n: Seq<char>| 0 <= i < groups.len() && #[trigger] groups[i].contains(n) ==> live_blocks.contains_key(n)
}

/// Whether every register of `regs` has its live blocks and its size recorded, the size small
/// enough to round up to whole bytes.
pub open spec fn registers_recorded(regs: Seq<RegisterName>, live_blocks: Map<Seq<char>, Vec<usize>>,
    size_bits: Map<Seq<char>, usize>) -> bool {
    forall|k: int| 0 <= k < regs.len() ==> {
        &&& live_blocks.contains_key((#[trigger] regs[k]).0@)
        &&& size_bits.contains_key(regs[k].0@)
        &&& size_bits[regs[k].0@] + 7 <= usize::MAX
    }
}

/// Groups the registers that can share one place. The groups start as those that phi nodes
/// form; then each register of `consider_registers` that no group holds joins the first group
/// live in none of its blocks, where it fits in one hardware register, or forms a group of its
/// own. `live_blocks` gives the blocks each register is live in, `size_bits` the size of its
/// value.
pub fn register_groups(consider_registers: &Vec<RegisterName>, ir_code: &FunctionDefinition,
    live_blocks: &NameMap<Vec<usize>>, size_bits: &NameMap<usize>) -> (res: Vec<Vec<RegisterName>>)
    requires
        live_blocks.wf(),
        size_bits.wf(),
        registers_recorded(consider_registers@, live_blocks@, size_bits@),
        groups_recorded(phi_groups(ir_code.statements()), live_blocks@),
    ensures
        groups_no_repeats(res@),
        group_sets(res@) == grouping(phi_groups(ir_code.statements()), live_blocks@, size_bits@,
            register_names(consider_registers@)),
{
    let mut groups = collect_phied_registers(ir_code);
    let ghost base = phi_groups(ir_code.statements());
    let ghost names = register_names(consider_registers@);
    let mut k: usize = 0;
    assert(names.take(0) =~= Seq::<Seq<char>>::empty());
    while k < consider_registers.len()
        invariant
            k <= consider_registers@.len(),
            live_blocks.wf(),
            size_bits.wf(),
            names == register_names(consider_registers@),
            registers_recorded(consider_registers@, live_blocks@, size_bits@),
            groups_no_repeats(groups@),
            group_sets(groups@) == grouping(base, live_blocks@, size_bits@, names.take(k as int)),
            groups_recorded(group_sets(groups@), live_blocks@),
        decreases consider_registers@.len() - k,
    {
        let r = &consider_registers[k];
        let ghost gs = group_sets(groups@);
        let ghost rn = r.0@;
        proof {
            assert(names.take(k + 1).drop_last() =~= names.take(k as int));
            assert(names.take(k + 1).last() == rn);
            lemma_first_apart(gs, live_blocks@, live(live_blocks@, rn));
        }
        let mut i: usize = 0;
        let mut held = false;
        while i < groups.len() && !held
            invariant
                i <= groups@.len(),
                gs == group_sets(groups@),
                rn == r.0@,
                forall|m: int| 0 <= m < i ==> !(#[trigger] gs[m]).contains(rn),
                held ==> i < groups@.len() && gs[i as int].contains(rn),
            decreases groups@.len() - i, if held { 0int } else { 1int },
        {
            assert(gs[i as int] == name_set(groups@[i as int]@));
            if has_name(&groups[i], r) {
                held = true;
            } else {
                i = i + 1;
            }
        }
        if held {
            assert(in_some_group(gs, rn));
        } else {
            assert(!in_some_group(gs, rn)) by {
                if in_some_group(gs, rn) {
                    let m = choose|m: int| 0 <= m < gs.len() && (#[trigger] gs[m]).contains(rn);
                    assert(!gs[m].contains(rn));
                }
            }
            let bits = match size_bits.get(r.0.as_str()) {
                Some(b) => *b,
                None => {
                    assert(false);
                    0
                },
            };
            let need = ((bits + 7) / 8) / 4;
            let mut placed = false;
            if need <= 1 {
                let own = match live_blocks.get(r.0.as_str()) {
                    Some(b) => b,
                    None => {
                        assert(false);
                        return groups;
                    },
                };
                assert(own@.to_set() == live(live_blocks@, rn));
                let mut j: usize = 0;
                while j < groups.len() && !placed
                    invariant
                        j <= groups@.len(),
                        live_blocks.wf(),
                        own@.to_set() == live(live_blocks@, rn),
                        gs == group_sets(groups@),
                        groups_no_repeats(groups@),
                        groups_recorded(gs, live_blocks@),
                        forall|m: int| 0 <= m < j ==> !group_blocks(live_blocks@, #[trigger] gs[m]).disjoint(live(live_blocks@, rn)),
                        placed ==> j < groups@.len() && group_blocks(live_blocks@, gs[j as int]).disjoint(live(live_blocks@, rn)),
                    decreases groups@.len() - j, if placed { 0int } else { 1int },
                {
                    proof {
                        assert forall|m: int| 0 <= m < groups@[j as int]@.len() implies
                            live_blocks@.contains_key((#[trigger] groups@[j as int]@[m]).0@) by {
                            assert(name_set(groups@[j as int]@).contains(groups@[j as int]@[m].0@));
                            assert(gs[j as int].contains(groups@[j as int]@[m].0@));
                        }
                    }
                    let together = active_block_intersection(&groups[j], live_blocks);
                    if blocks_apart(&together, own) {
                        placed = true;
                    } else {
                        j = j + 1;
                    }
                }
                if placed {
                    assert(first_apart(gs, live_blocks@, live(live_blocks@, rn)) == Some(j as int)) by {
                        match first_apart(gs, live_blocks@, live(live_blocks@, rn)) {
                            Some(m) => {
                                if m < j {
                                    assert(!group_blocks(live_blocks@, gs[m]).disjoint(live(live_blocks@, rn)));
                                }
                                if m > j {
                                    assert(!group_blocks(live_blocks@, gs[j as int]).disjoint(live(live_blocks@, rn)));
                                }
                            },
                            None => {
                                assert(!group_blocks(live_blocks@, gs[j as int]).disjoint(live(live_blocks@, rn)));
                            },
                        }
                    }
                    let ghost before = groups@;
                    insert_name(&mut groups[j], r.duplicate());
                    proof {
                        assert(group_sets(groups@) =~= gs.update(j as int, gs[j as int].insert(rn)));
                        assert forall|m: int| 0 <= m < groups@.len() implies no_repeats((#[trigger] groups@[m])@) by {
                            if m != j {
                                assert(groups@[m] == before[m]);
                            }
                        }
                    }
                } else {
                    assert(first_apart(gs, live_blocks@, live(live_blocks@, rn)) is None) by {
                        if let Some(m) = first_apart(gs, live_blocks@, live(live_blocks@, rn)) {
                            assert(!group_blocks(live_blocks@, gs[m]).disjoint(live(live_blocks@, rn)));
                        }
                    }
                }
            }
            if !placed {
                let ghost before = groups@;
                let mut single: Vec<RegisterName> = Vec::new();
                single.push(r.duplicate());
                groups.push(single);
                proof {
                    assert(name_set(single@) =~= set![rn]) by {
                        assert(single@[0].0@ == rn);
                    }
                    assert(group_sets(groups@) =~= gs.push(set![rn]));
                    assert forall|m: int| 0 <= m < groups@.len() implies no_repeats((#[trigger] groups@[m])@) by {
                        if m < before.len() {
                            assert(groups@[m] == before[m]);
                        }
                    }
                }
            }
        }
        proof {
            let ng = group_sets(groups@);
            assert forall|m: int, n: Seq<char>| 0 <= m < ng.len() && #[trigger] ng[m].contains(n)
                implies live_blocks@.contains_key(n) by {
                if n != rn {
                    assert(gs[m].contains(n));
                }
            }
        }
        k = k + 1;
    }
    assert(names.take(consider_registers@.len() as int) =~= names);
    groups
}

} // verus!
