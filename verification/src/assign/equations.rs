//! Facts about the liveness equations that the analysis rests on: they are
//! monotone, they look only at the targets of jumps, and they stay inside
//! the finite set of locations that a function mentions.

use vstd::prelude::*;
use vstd::set_lib::{lemma_len_subset, lemma_subset_equality};
use crate::assign::include_liveness::{
    accesses,
    apply_access,
    apply_accesses,
    at_most,
    call_accesses,
    jump_target,
    live_at,
    live_before,
    Access,
    LiveMap,
    ReadWriteOp,
};
use crate::assign::live_set::{distinct_keys, key_set, Key, LArg, LiveSet};
use crate::sym_map::{has_id, value_of};
use crate::symbol::UniqueSym;
use crate::x86::{Instr, VarArg};

verus! {

/// `a` knows of no more blocks than `b`, and of no more live locations in
/// any of them.
pub open spec fn below(a: LiveMap, b: LiveMap) -> bool {
    forall|id: usize| #[trigger]
        a.dom().contains(id) ==> b.dom().contains(id) && a[id].subset_of(b[id])
}

pub proof fn lemma_apply_accesses_monotone<'p>(a: Set<Key>, b: Set<Key>, accs: Seq<Access<'p>>)
    requires
        a.subset_of(b),
    ensures
        apply_accesses(a, accs).subset_of(apply_accesses(b, accs)),
    decreases accs.len(),
{
    if accs.len() > 0 {
        lemma_apply_accesses_monotone(a, b, accs.drop_last());
    }
}

pub proof fn lemma_live_before_monotone<'p>(
    instr: Instr<'p, VarArg<'p>>,
    t1: LiveMap,
    t2: LiveMap,
    a1: Set<Key>,
    a2: Set<Key>,
)
    requires
        below(t1, t2),
        a1.subset_of(a2),
    ensures
        live_before(instr, t1, a1).subset_of(live_before(instr, t2, a2)),
{
    match jump_target(instr) {
        Some(lbl) => {
            if t1.dom().contains(lbl.id) {
                assert(t2.dom().contains(lbl.id) && t1[lbl.id].subset_of(t2[lbl.id]));
            }
        },
        None => {
            lemma_apply_accesses_monotone(a1, a2, accesses(instr, Seq::empty()));
        },
    }
}

/// More at the targets of jumps means more, or as much, anywhere in a block.
pub proof fn lemma_live_at_monotone<'p>(
    code: Seq<Instr<'p, VarArg<'p>>>,
    t1: LiveMap,
    t2: LiveMap,
    i: int,
)
    requires
        below(t1, t2),
    ensures
        live_at(code, t1, i).subset_of(live_at(code, t2, i)),
    decreases code.len() - i,
{
    if 0 <= i < code.len() {
        lemma_live_at_monotone(code, t1, t2, i + 1);
        lemma_live_before_monotone(
            code[i],
            t1,
            t2,
            live_at(code, t1, i + 1),
            live_at(code, t2, i + 1),
        );
    }
}

/// `t1` and `t2` say the same about the block numbered `id`.
pub open spec fn agree_at(t1: LiveMap, t2: LiveMap, id: usize) -> bool {
    t1.dom().contains(id) == t2.dom().contains(id) && (t1.dom().contains(id) ==> t1[id] == t2[id])
}

/// `t1` and `t2` say the same about every block that `code` jumps to.
pub open spec fn agree_on_targets<'p>(
    code: Seq<Instr<'p, VarArg<'p>>>,
    t1: LiveMap,
    t2: LiveMap,
) -> bool {
    forall|i: int|
        0 <= i < code.len() ==> match jump_target(#[trigger] code[i]) {
            Some(lbl) => agree_at(t1, t2, lbl.id),
            None => true,
        }
}

/// What is live in a block depends only on the blocks it jumps to.
pub proof fn lemma_live_at_local<'p>(
    code: Seq<Instr<'p, VarArg<'p>>>,
    t1: LiveMap,
    t2: LiveMap,
    i: int,
)
    requires
        agree_on_targets(code, t1, t2),
    ensures
        live_at(code, t1, i) == live_at(code, t2, i),
    decreases code.len() - i,
{
    if 0 <= i < code.len() {
        lemma_live_at_local(code, t1, t2, i + 1);
    }
}

/// The key that an operand keeps alive when it is read.
pub open spec fn operand_keys<'p>(arg: VarArg<'p>) -> Set<Key> {
    apply_access(Set::empty(), arg, ReadWriteOp::Read)
}

/// The keys of the operands in `accs`.
pub open spec fn touched<'p>(accs: Seq<Access<'p>>) -> Set<Key>
    decreases accs.len(),
{
    if accs.len() == 0 {
        Set::empty()
    } else {
        touched(accs.drop_last()).union(operand_keys(accs.last().0))
    }
}

/// The keys of the operands of the instructions of `code` from the `i`-th on.
pub open spec fn code_keys<'p>(code: Seq<Instr<'p, VarArg<'p>>>, i: int) -> Set<Key>
    decreases code.len() - i,
{
    if i < 0 || i >= code.len() {
        Set::empty()
    } else {
        touched(accesses(code[i], Seq::empty())).union(code_keys(code, i + 1))
    }
}

/// The keys of the operands of all the blocks `codes`.
pub open spec fn universe<'p>(codes: Seq<Seq<Instr<'p, VarArg<'p>>>>) -> Set<Key>
    decreases codes.len(),
{
    if codes.len() == 0 {
        Set::empty()
    } else {
        universe(codes.drop_last()).union(code_keys(codes.last(), 0))
    }
}

pub proof fn lemma_touched<'p>(live: Set<Key>, accs: Seq<Access<'p>>)
    ensures
        touched(accs).finite(),
        apply_accesses(live, accs).subset_of(live.union(touched(accs))),
    decreases accs.len(),
{
    if accs.len() > 0 {
        lemma_touched(live, accs.drop_last());
    }
}

pub proof fn lemma_code_keys<'p>(code: Seq<Instr<'p, VarArg<'p>>>, i: int)
    ensures
        code_keys(code, i).finite(),
        0 <= i ==> code_keys(code, i).subset_of(code_keys(code, 0)),
    decreases code.len() - i,
{
    if 0 <= i < code.len() {
        lemma_code_keys(code, i + 1);
        lemma_touched(Set::empty(), accesses(code[i], Seq::empty()));
        lemma_code_keys_suffix(code, 0, i);
    }
}

proof fn lemma_code_keys_suffix<'p>(code: Seq<Instr<'p, VarArg<'p>>>, i: int, j: int)
    requires
        0 <= i <= j,
    ensures
        code_keys(code, j).subset_of(code_keys(code, i)),
    decreases j - i,
{
    if i < j {
        lemma_code_keys_suffix(code, i + 1, j);
    }
}

pub proof fn lemma_universe<'p>(codes: Seq<Seq<Instr<'p, VarArg<'p>>>>, j: int)
    requires
        0 <= j < codes.len(),
    ensures
        universe(codes).finite(),
        code_keys(codes[j], 0).subset_of(universe(codes)),
    decreases codes.len(),
{
    lemma_universe_finite(codes);
    if j < codes.len() - 1 {
        lemma_universe(codes.drop_last(), j);
    }
}

pub proof fn lemma_universe_finite<'p>(codes: Seq<Seq<Instr<'p, VarArg<'p>>>>)
    ensures
        universe(codes).finite(),
    decreases codes.len(),
{
    if codes.len() > 0 {
        lemma_universe_finite(codes.drop_last());
        lemma_code_keys(codes.last(), 0);
    }
}

/// Every set of `t` lies within `u`.
pub open spec fn bounded(t: LiveMap, u: Set<Key>) -> bool {
    forall|id: usize| #[trigger] t.dom().contains(id) ==> t[id].subset_of(u)
}

/// What is live in a block is mentioned in the block or live at a target.
pub proof fn lemma_live_at_bounded<'p>(
    code: Seq<Instr<'p, VarArg<'p>>>,
    t: LiveMap,
    u: Set<Key>,
    i: int,
)
    requires
        bounded(t, u),
        code_keys(code, 0).subset_of(u),
    ensures
        live_at(code, t, i).subset_of(u),
    decreases code.len() - i,
{
    if 0 <= i < code.len() {
        lemma_live_at_bounded(code, t, u, i + 1);
        lemma_code_keys(code, i);
        let after = live_at(code, t, i + 1);
        match jump_target(code[i]) {
            Some(lbl) => {
                if t.dom().contains(lbl.id) {
                    assert(t[lbl.id].subset_of(u));
                }
            },
            None => {
                lemma_touched(after, accesses(code[i], Seq::empty()));
            },
        }
    }
}

/// A sequence without repeated keys has as many keys as members.
pub proof fn lemma_key_count<'p>(s: Seq<LArg<'p>>)
    requires
        distinct_keys(s),
    ensures
        key_set(s).finite(),
        key_set(s).len() == s.len(),
    decreases s.len(),
{
    if s.len() == 0 {
        assert(key_set(s) =~= Set::<Key>::empty());
    } else {
        let t = s.drop_last();
        let k = s.last().key();
        lemma_key_count(t);
        assert forall|x: Key| key_set(s).contains(x) <==> key_set(t).insert(k).contains(x) by {
            if key_set(s).contains(x) {
                let i = choose|i: int| 0 <= i < s.len() && #[trigger] s[i].key() == x;
                if i < t.len() {
                    assert(t[i].key() == x);
                }
            }
            if key_set(t).contains(x) {
                let i = choose|i: int| 0 <= i < t.len() && #[trigger] t[i].key() == x;
                assert(s[i].key() == x);
            }
            if x == k {
                assert(s[s.len() - 1].key() == x);
            }
        }
        assert(key_set(s) =~= key_set(t).insert(k));
        if key_set(t).contains(k) {
            let i = choose|i: int| 0 <= i < t.len() && #[trigger] t[i].key() == k;
            assert(s[i].key() != s[s.len() - 1].key());
        }
    }
}

/// A set that grew has more members.
pub proof fn lemma_grown<'p>(old_set: Seq<LArg<'p>>, new_set: Seq<LArg<'p>>, u: Set<Key>)
    requires
        distinct_keys(old_set),
        distinct_keys(new_set),
        key_set(old_set).subset_of(key_set(new_set)),
        key_set(new_set).subset_of(u),
        u.finite(),
    ensures
        new_set.len() <= u.len(),
        key_set(old_set) != key_set(new_set) ==> old_set.len() < new_set.len(),
{
    lemma_key_count(old_set);
    lemma_key_count(new_set);
    lemma_len_subset(key_set(new_set), u);
    lemma_len_subset(key_set(old_set), key_set(new_set));
    if old_set.len() == new_set.len() {
        lemma_subset_equality(key_set(old_set), key_set(new_set));
    }
}

/// How far the block numbered `id` is from having every one of `u`
/// locations live: one more than `u` while the analysis has not reached it.
pub open spec fn room<'p>(before: Seq<(UniqueSym<'p>, LiveSet<'p>)>, id: usize, u: nat) -> nat {
    if has_id(before, id) {
        (u - value_of(before, id)@.len()) as nat
    } else {
        u + 1
    }
}

/// The sum of [`room`] over the first `n` of the blocks `ids`.
pub open spec fn total_room<'p>(
    ids: Seq<usize>,
    before: Seq<(UniqueSym<'p>, LiveSet<'p>)>,
    u: nat,
    n: int,
) -> nat
    decreases n,
{
    if n <= 0 {
        0
    } else {
        total_room(ids, before, u, n - 1) + room(before, ids[n - 1], u)
    }
}

/// Less room for one block, and the same for the others, is less room in all.
pub proof fn lemma_total_room<'p>(
    ids: Seq<usize>,
    b1: Seq<(UniqueSym<'p>, LiveSet<'p>)>,
    b2: Seq<(UniqueSym<'p>, LiveSet<'p>)>,
    u: nat,
    j: int,
    n: int,
)
    requires
        ids.no_duplicates(),
        0 <= j < ids.len(),
        0 <= n <= ids.len(),
        room(b2, ids[j], u) < room(b1, ids[j], u),
        forall|id: usize| id != ids[j] ==> room(b2, id, u) == room(b1, id, u),
    ensures
        n <= j ==> total_room(ids, b2, u, n) == total_room(ids, b1, u, n),
        n > j ==> total_room(ids, b2, u, n) < total_room(ids, b1, u, n),
    decreases n,
{
    if n > 0 {
        lemma_total_room(ids, b1, b2, u, j, n - 1);
        if n - 1 != j {
            assert(ids[n - 1] != ids[j]);
        }
    }
}


/// Whether an access makes its location live: it reads a register or a
/// variable, or it goes to memory, which reads the base register.
pub open spec fn is_read<'p>(acc: Access<'p>) -> bool {
    match acc.0 {
        VarArg::Imm(_) => false,
        VarArg::Deref { .. } => true,
        _ => acc.1 != ReadWriteOp::Write,
    }
}

/// Whether an access overwrites a register or a variable without reading it.
pub open spec fn is_kill<'p>(acc: Access<'p>) -> bool {
    match acc.0 {
        VarArg::Reg(_) | VarArg::XVar(_) => acc.1 == ReadWriteOp::Write,
        _ => false,
    }
}

/// The location of an access.
pub open spec fn place<'p>(acc: Access<'p>) -> Key {
    match acc.0 {
        VarArg::Reg(reg) | VarArg::Deref { reg, .. } => (LArg::Reg { reg }).key(),
        VarArg::XVar(sym) => (LArg::Var { sym }).key(),
        VarArg::Imm(_) => (0u8, 0usize),
    }
}

/// The locations that the accesses `accs` make live.
pub open spec fn generated<'p>(accs: Seq<Access<'p>>) -> Set<Key> {
    Set::new(|k: Key| exists|i: int| 0 <= i < accs.len() && is_read(#[trigger] accs[i])
        && place(accs[i]) == k)
}

/// The locations that the accesses `accs` overwrite without reading them.
pub open spec fn killed<'p>(accs: Seq<Access<'p>>) -> Set<Key> {
    Set::new(|k: Key| exists|i: int| 0 <= i < accs.len() && is_kill(#[trigger] accs[i])
        && place(accs[i]) == k)
}

/// Whether in `accs` everything that is overwritten comes before
/// everything that is read.
pub open spec fn kills_first<'p>(accs: Seq<Access<'p>>) -> bool {
    forall|i: int, j: int|
        0 <= i < j < accs.len() && is_read(#[trigger] accs[i]) ==> !is_kill(#[trigger] accs[j])
}

/// Where what is overwritten comes before what is read, the accesses
/// amount to taking away what is overwritten and adding what is read.
pub proof fn lemma_gen_kill<'p>(live: Set<Key>, accs: Seq<Access<'p>>)
    requires
        kills_first(accs),
    ensures
        apply_accesses(live, accs) == live.difference(killed(accs)).union(generated(accs)),
    decreases accs.len(),
{
    if accs.len() == 0 {
        assert(live.difference(killed(accs)).union(generated(accs)) =~= live);
    } else {
        let init = accs.drop_last();
        let last = accs.last();
        assert forall|i: int, j: int|
            0 <= i < j < init.len() && is_read(#[trigger] init[i]) implies !is_kill(
            #[trigger] init[j],
        ) by {
            assert(init[i] == accs[i] && init[j] == accs[j]);
        }
        lemma_gen_kill(live, init);
        assert forall|k: Key| generated(accs).contains(k) <==> generated(init).contains(k) || (
        is_read(last) && place(last) == k) by {
            if generated(accs).contains(k) {
                let i = choose|i: int|
                    0 <= i < accs.len() && is_read(#[trigger] accs[i]) && place(accs[i]) == k;
                if i < init.len() {
                    assert(init[i] == accs[i]);
                }
            }
            if generated(init).contains(k) {
                let i = choose|i: int|
                    0 <= i < init.len() && is_read(#[trigger] init[i]) && place(init[i]) == k;
                assert(init[i] == accs[i]);
            }
            if is_read(last) && place(last) == k {
                assert(accs[accs.len() - 1] == last);
            }
        }
        assert forall|k: Key| killed(accs).contains(k) <==> killed(init).contains(k) || (is_kill(
            last,
        ) && place(last) == k) by {
            if killed(accs).contains(k) {
                let i = choose|i: int|
                    0 <= i < accs.len() && is_kill(#[trigger] accs[i]) && place(accs[i]) == k;
                if i < init.len() {
                    assert(init[i] == accs[i]);
                }
            }
            if killed(init).contains(k) {
                let i = choose|i: int|
                    0 <= i < init.len() && is_kill(#[trigger] init[i]) && place(init[i]) == k;
                assert(init[i] == accs[i]);
            }
            if is_kill(last) && place(last) == k {
                assert(accs[accs.len() - 1] == last);
            }
        }
        if is_kill(last) {
            let k = place(last);
            if generated(init).contains(k) {
                let i = choose|i: int|
                    0 <= i < init.len() && is_read(#[trigger] init[i]) && place(init[i]) == k;
                assert(is_read(accs[i]));
                assert(!is_kill(accs[accs.len() - 1]));
            }
        }
        assert(apply_accesses(live, accs) =~= live.difference(killed(accs)).union(
            generated(accs),
        ));
    }
}

/// Every instruction overwrites before it reads.
pub proof fn lemma_kills_first<'p>(instr: Instr<'p, VarArg<'p>>)
    ensures
        kills_first(accesses(instr, Seq::empty())),
{
    let accs = accesses(instr, Seq::empty());
    match instr {
        Instr::CallDirect { arity, .. } => {
            lemma_call_kills_first(accs, arity);
        },
        Instr::CallIndirect { src, arity } => {
            let call = call_accesses::<'p>(arity);
            lemma_call_kills_first(call, arity);
            assert forall|i: int, j: int|
                0 <= i < j < accs.len() && is_read(#[trigger] accs[i]) implies !is_kill(
                #[trigger] accs[j],
            ) by {
                if j < call.len() {
                    assert(accs[i] == call[i] && accs[j] == call[j]);
                }
            }
        },
        Instr::Syscall { arity } => {
            assert forall|i: int, j: int|
                0 <= i < j < accs.len() && is_read(#[trigger] accs[i]) implies !is_kill(
                #[trigger] accs[j],
            ) by {
                if i < 9 {
                    assert(!is_read(accs[i]));
                }
            }
        },
        _ => {},
    }
}

proof fn lemma_call_kills_first<'p>(accs: Seq<Access<'p>>, arity: usize)
    requires
        accs == call_accesses::<'p>(arity),
    ensures
        kills_first(accs),
{
    let n = at_most(arity, 9);
    assert forall|i: int, j: int|
        0 <= i < j < accs.len() && is_read(#[trigger] accs[i]) implies !is_kill(
        #[trigger] accs[j],
    ) by {
        if i < 9 - n {
            assert(!is_read(accs[i]));
        }
    }
}

/// The equation of liveness for an instruction that does not jump: what is
/// live before it is what is live after it, without what it overwrites,
/// and with what it reads.
pub proof fn lemma_live_before<'p>(instr: Instr<'p, VarArg<'p>>, targets: LiveMap, after: Set<Key>)
    requires
        jump_target(instr) is None,
    ensures
        live_before(instr, targets, after) == after.difference(
            killed(accesses(instr, Seq::empty())),
        ).union(generated(accesses(instr, Seq::empty()))),
{
    lemma_kills_first(instr);
    lemma_gen_kill(after, accesses(instr, Seq::empty()));
}

} // verus!
