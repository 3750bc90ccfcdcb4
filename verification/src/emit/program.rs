//! Encoding of whole programs: the blocks one after the other, with every
//! reference to a label resolved to a distance in bytes.

use vstd::prelude::*;
use crate::conclude::{listing, Listing, X86Concluded};
use crate::emit::instr::{encode_instr, encoding, lemma_encoding_len, target};
use crate::error::CompileError;
use crate::sym_map::{distinct_ids, has_id, index_of, lemma_index_of};
use crate::symbol::UniqueSym;
use crate::x86::{Arg, Block, Instr};

verus! {

/// The number of bytes that the code of `instr` takes.
pub open spec fn instr_len<'p>(instr: Instr<'p, Arg>) -> int {
    encoding(instr, 0)->Some_0.len() as int
}

/// The number of bytes that the first `n` instructions of `code` take.
pub open spec fn code_len<'p>(code: Seq<Instr<'p, Arg>>, n: int) -> int
    decreases n,
{
    if n <= 0 {
        0
    } else {
        code_len(code, n - 1) + instr_len(code[n - 1])
    }
}

/// Where the `k`-th block starts: the number of bytes that the blocks
/// before it take.
pub open spec fn offset_of<'p>(l: Listing<'p>, k: int) -> int
    decreases k,
{
    if k <= 0 {
        0
    } else {
        offset_of(l, k - 1) + code_len(l[k - 1].1, l[k - 1].1.len() as int)
    }
}

/// Whether the processor has a form for every instruction, and every
/// label that an instruction refers to is that of a block.
pub open spec fn encodable<'p>(l: Listing<'p>) -> bool {
    forall|k: int, i: int|
        0 <= k < l.len() && 0 <= i < l[k].1.len() ==> encoding(#[trigger] l[k].1[i], 0) is Some && (
        match target(l[k].1[i]) {
            Some(lbl) => has_id(l, lbl.id),
            None => true,
        })
}

/// How far the label that the `i`-th instruction of the `k`-th block
/// refers to lies from the end of that instruction.
pub open spec fn distance<'p>(l: Listing<'p>, k: int, i: int) -> int {
    match target(l[k].1[i]) {
        Some(lbl) => offset_of(l, index_of(l, lbl.id)) - (offset_of(l, k) + code_len(l[k].1, i
            + 1)),
        None => 0,
    }
}

/// The code of the first `n` instructions of the `k`-th block.
pub open spec fn block_bytes<'p>(l: Listing<'p>, k: int, n: int) -> Seq<u8>
    decreases n,
{
    if n <= 0 {
        Seq::empty()
    } else {
        block_bytes(l, k, n - 1) + encoding(l[k].1[n - 1], distance(l, k, n - 1))->Some_0
    }
}

/// The code of the first `n` blocks.
pub open spec fn program_bytes<'p>(l: Listing<'p>, n: int) -> Seq<u8>
    decreases n,
{
    if n <= 0 {
        Seq::empty()
    } else {
        program_bytes(l, n - 1) + block_bytes(l, n - 1, l[n - 1].1.len() as int)
    }
}

/// The most bytes of code that a program can have.
pub const MAX_CODE: u64 = 0x3FFF_FFFF_FFFF_FFFF;

/// Whether every label lies within the reach of a displacement of 32 bits
/// from the instructions that refer to it.
pub open spec fn within_reach<'p>(l: Listing<'p>) -> bool {
    forall|k: int, i: int|
        0 <= k < l.len() && 0 <= i < l[k].1.len() ==> -0x8000_0000 <= #[trigger] distance(l, k, i)
            <= 0x7FFF_FFFF
}

proof fn lemma_code_len_nonnegative<'p>(code: Seq<Instr<'p, Arg>>, a: int, b: int)
    requires
        a <= b,
    ensures
        0 <= code_len(code, a) <= code_len(code, b),
    decreases b,
{
    if b > 0 {
        if a < b {
            lemma_code_len_nonnegative(code, a, b - 1);
        } else {
            lemma_code_len_nonnegative(code, a - 1, b - 1);
        }
    }
}

proof fn lemma_offsets_ordered<'p>(l: Listing<'p>, a: int, b: int)
    requires
        a <= b,
    ensures
        0 <= offset_of(l, a) <= offset_of(l, b),
    decreases b,
{
    if b > 0 {
        lemma_code_len_nonnegative(l[b - 1].1, 0, l[b - 1].1.len() as int);
        if a < b {
            lemma_offsets_ordered(l, a, b - 1);
        } else {
            lemma_offsets_ordered(l, a - 1, b - 1);
        }
    }
}

proof fn lemma_block_bytes_len<'p>(l: Listing<'p>, k: int, n: int)
    requires
        0 <= k < l.len(),
        0 <= n <= l[k].1.len(),
        encodable(l),
    ensures
        block_bytes(l, k, n).len() == code_len(l[k].1, n),
    decreases n,
{
    if n > 0 {
        lemma_block_bytes_len(l, k, n - 1);
        assert(encoding(l[k].1[n - 1], 0) is Some);
        lemma_encoding_len(l[k].1[n - 1], 0, distance(l, k, n - 1));
    }
}

proof fn lemma_program_bytes_len<'p>(l: Listing<'p>, n: int)
    requires
        0 <= n <= l.len(),
        encodable(l),
    ensures
        program_bytes(l, n).len() == offset_of(l, n),
    decreases n,
{
    if n > 0 {
        lemma_program_bytes_len(l, n - 1);
        lemma_block_bytes_len(l, n - 1, l[n - 1].1.len() as int);
    }
}

impl<'p> X86Concluded<'p> {
    /// Checks that every instruction can be encoded and refers to blocks
    /// of the program only.
    fn check_shape(&self) -> (ok: bool)
        ensures
            ok == encodable(listing(self.blocks@)),
    {
        let ghost l = listing(self.blocks@);
        let n = self.blocks.len();
        let mut k: usize = 0;
        while k < n
            invariant
                k <= n,
                n == self.blocks@.len(),
                l == listing(self.blocks@),
                self.blocks.wf(),
                forall|a: int, i: int|
                    0 <= a < k && 0 <= i < l[a].1.len()
                        ==> encoding(#[trigger] l[a].1[i], 0) is Some
                        && (match target(l[a].1[i]) {
                        Some(lbl) => has_id(l, lbl.id),
                        None => true,
                    }),
            decreases n - k,
        {
            let block = self.blocks.value_at(k);
            let mut i: usize = 0;
            while i < block.instrs.len()
                invariant
                    i <= block.instrs@.len(),
                    k < n,
                    n == self.blocks@.len(),
                    l == listing(self.blocks@),
                    self.blocks.wf(),
                    block.instrs@ == l[k as int].1,
                    forall|j: int|
                        0 <= j < i ==> encoding(#[trigger] l[k as int].1[j], 0) is Some && (
                        match target(l[k as int].1[j]) {
                            Some(lbl) => has_id(l, lbl.id),
                            None => true,
                        }),
                decreases block.instrs@.len() - i,
            {
                let instr = block.instrs[i];
                if encode_instr(&instr, 0).is_err() {
                    assert(encoding(l[k as int].1[i as int], 0) is None);
                    return false;
                }
                let known = match instr {
                    Instr::Jmp { lbl }
                    | Instr::Jcc { lbl, .. }
                    | Instr::LoadLbl { lbl, .. }
                    | Instr::CallDirect { lbl, .. } => {
                        proof {
                            lemma_listing_ids(self.blocks@, lbl.id);
                        }
                        self.blocks.contains(lbl.id)
                    },
                    _ => true,
                };
                if !known {
                    assert(target(l[k as int].1[i as int]) is Some);
                    return false;
                }
                i += 1;
            }
            k += 1;
        }
        true
    }

    /// Works out where each block starts. Returns `None` if the code is
    /// longer than [`MAX_CODE`].
    fn block_offsets(&self) -> (r: Option<Vec<u64>>)
        requires
            encodable(listing(self.blocks@)),
        ensures
            match r {
                Some(offsets) => offsets@.len() == self.blocks@.len() + 1 && (forall|k: int|
                    0 <= k <= self.blocks@.len() ==> #[trigger] offsets@[k] == offset_of(
                        listing(self.blocks@),
                        k,
                    )) && offset_of(listing(self.blocks@), self.blocks@.len() as int) <= MAX_CODE,
                None => offset_of(listing(self.blocks@), self.blocks@.len() as int) > MAX_CODE,
            },
    {
        let ghost l = listing(self.blocks@);
        let n = self.blocks.len();
        let mut offsets: Vec<u64> = Vec::new();
        let mut total: u64 = 0;
        offsets.push(0);
        let mut k: usize = 0;
        while k < n
            invariant
                k <= n,
                n == self.blocks@.len(),
                l == listing(self.blocks@),
                encodable(l),
                total == offset_of(l, k as int),
                total <= MAX_CODE,
                offsets@.len() == k + 1,
                forall|a: int| 0 <= a <= k ==> #[trigger] offsets@[a] == offset_of(l, a),
            decreases n - k,
        {
            let block = self.blocks.value_at(k);
            let ghost start = total;
            let mut i: usize = 0;
            while i < block.instrs.len()
                invariant
                    i <= block.instrs@.len(),
                    k < n,
                    n == self.blocks@.len(),
                    l == listing(self.blocks@),
                    encodable(l),
                    block.instrs@ == l[k as int].1,
                    total == start + code_len(l[k as int].1, i as int),
                    start == offset_of(l, k as int),
                    total <= MAX_CODE,
                decreases block.instrs@.len() - i,
            {
                let instr = block.instrs[i];
                assert(encoding(l[k as int].1[i as int], 0) is Some);
                let len: usize = match encode_instr(&instr, 0) {
                    Ok(bytes) => bytes.len(),
                    Err(_) => 0,
                };
                if len as u64 > MAX_CODE - total {
                    proof {
                        lemma_code_len_nonnegative(
                            l[k as int].1,
                            i + 1,
                            l[k as int].1.len() as int,
                        );
                        lemma_offsets_ordered(l, k + 1, n as int);
                    }
                    return None;
                }
                total = total + len as u64;
                i += 1;
            }
            offsets.push(total);
            k += 1;
        }
        Some(offsets)
    }

    /// Encodes the program: the code of its blocks, one after the other,
    /// and the place in it where the entry block starts.
    ///
    /// An instruction that the processor has no form for, or a reference
    /// to a label that no block has, is `Unreachable`. A label out of the
    /// reach of a displacement of 32 bits is an `EncodingOverflow`, and so
    /// is code of more than [`MAX_CODE`] bytes.
    pub fn emit(&self) -> (r: Result<(Vec<u8>, usize), CompileError>)
        ensures
            match r {
                Ok((bytes, entry)) => {
                    &&& encodable(listing(self.blocks@))
                    &&& has_id(listing(self.blocks@), self.entry.id)
                    &&& within_reach(listing(self.blocks@))
                    &&& offset_of(listing(self.blocks@), self.blocks@.len() as int) <= MAX_CODE
                    &&& bytes@ == program_bytes(listing(self.blocks@), self.blocks@.len() as int)
                    &&& entry == offset_of(
                        listing(self.blocks@),
                        index_of(listing(self.blocks@), self.entry.id),
                    )
                },
                Err(e) => if !encodable(listing(self.blocks@)) || !has_id(
                    listing(self.blocks@),
                    self.entry.id,
                ) {
                    e == CompileError::Unreachable
                } else {
                    (offset_of(listing(self.blocks@), self.blocks@.len() as int) > MAX_CODE
                        || !within_reach(listing(self.blocks@))) && e
                        == CompileError::EncodingOverflow
                },
            },
    {
        let ghost l = listing(self.blocks@);
        if !self.check_shape() {
            return Err(CompileError::Unreachable);
        }
        proof {
            use_type_invariant(&self.blocks);
            lemma_listing_ids(self.blocks@, self.entry.id);
        }
        let entry_index = match self.blocks.find(self.entry.id) {
            Some(t) => t,
            None => {
                return Err(CompileError::Unreachable);
            },
        };
        let offsets = match self.block_offsets() {
            Some(offsets) => offsets,
            None => {
                return Err(CompileError::EncodingOverflow);
            },
        };
        let n = self.blocks.len();
        let ghost total = offset_of(l, n as int);
        let mut bytes: Vec<u8> = Vec::new();
        let mut k: usize = 0;
        while k < n
            invariant
                k <= n,
                n == self.blocks@.len(),
                l == listing(self.blocks@),
                self.blocks.wf(),
                encodable(l),
                total == offset_of(l, n as int),
                total <= MAX_CODE,
                offsets@.len() == n + 1,
                forall|a: int| 0 <= a <= n ==> #[trigger] offsets@[a] == offset_of(l, a),
                bytes@ == program_bytes(l, k as int),
                has_id(l, self.entry.id),
                entry_index < n,
                forall|a: int, i: int|
                    0 <= a < k && 0 <= i < l[a].1.len() ==> -0x8000_0000 <= #[trigger] distance(
                        l,
                        a,
                        i,
                    ) <= 0x7FFF_FFFF,
            decreases n - k,
        {
            let block = self.blocks.value_at(k);
            let ghost before = bytes@;
            let mut end: u64 = offsets[k];
            let mut i: usize = 0;
            proof {
                lemma_offsets_ordered(l, k as int, n as int);
            }
            while i < block.instrs.len()
                invariant
                    i <= block.instrs@.len(),
                    k < n,
                    n == self.blocks@.len(),
                    l == listing(self.blocks@),
                    self.blocks.wf(),
                    encodable(l),
                    block.instrs@ == l[k as int].1,
                    total == offset_of(l, n as int),
                    total <= MAX_CODE,
                    offsets@.len() == n + 1,
                    forall|a: int| 0 <= a <= n ==> #[trigger] offsets@[a] == offset_of(l, a),
                    end == offset_of(l, k as int) + code_len(l[k as int].1, i as int),
                    bytes@ == before + block_bytes(l, k as int, i as int),
                    has_id(l, self.entry.id),
                    forall|j: int|
                        0 <= j < i ==> -0x8000_0000 <= #[trigger] distance(l, k as int, j)
                            <= 0x7FFF_FFFF,
                decreases block.instrs@.len() - i,
            {
                let instr = block.instrs[i];
                proof {
                    assert(encoding(l[k as int].1[i as int], 0) is Some);
                    lemma_code_len_nonnegative(l[k as int].1, i + 1, l[k as int].1.len() as int);
                    lemma_offsets_ordered(l, k + 1, n as int);
                    lemma_code_len_nonnegative(l[k as int].1, 0, i as int);
                    lemma_offsets_ordered(l, 0, k as int);
                }
                let len: usize = match encode_instr(&instr, 0) {
                    Ok(code) => code.len(),
                    Err(_) => 0,
                };
                end = end + len as u64;
                let far: i64 = match instr {
                    Instr::Jmp { lbl }
                    | Instr::Jcc { lbl, .. }
                    | Instr::LoadLbl { lbl, .. }
                    | Instr::CallDirect { lbl, .. } => {
                        proof {
                            lemma_listing_ids(self.blocks@, lbl.id);
                        }
                        match self.blocks.find(lbl.id) {
                            Some(t) => {
                                proof {
                                    lemma_offsets_ordered(l, t as int, n as int);
                                    lemma_offsets_ordered(l, 0, t as int);
                                }
                                offsets[t] as i64 - end as i64
                            },
                            None => 0,
                        }
                    },
                    _ => 0,
                };
                assert(far == distance(l, k as int, i as int));
                if far < -0x8000_0000 || far > 0x7FFF_FFFF {
                    assert(!within_reach(l)) by {
                        let d = distance(l, k as int, i as int);
                        assert(!(-0x8000_0000 <= d <= 0x7FFF_FFFF));
                    }
                    return Err(CompileError::EncodingOverflow);
                }
                let rel: i32 = far as i32;
                proof {
                    lemma_encoding_len(instr, 0, rel as int);
                }
                let mut code = match encode_instr(&instr, rel) {
                    Ok(code) => code,
                    Err(_) => Vec::new(),
                };
                bytes.append(&mut code);
                assert(bytes@ =~= before + block_bytes(l, k as int, i + 1));
                i += 1;
            }
            k += 1;
        }
        proof {
            lemma_offsets_ordered(l, entry_index as int, n as int);
            lemma_program_bytes_len(l, n as int);
            assert(within_reach(l));
        }
        let size = bytes.len();
        assert(offsets@[entry_index as int] <= size);
        Ok((bytes, offsets[entry_index] as usize))
    }
}

/// The labels of a listing are those of the blocks it lists, at the same
/// places.
proof fn lemma_listing_ids<'p>(blocks: Seq<(UniqueSym<'p>, Block<'p, Arg>)>, id: usize)
    requires
        distinct_ids(blocks),
    ensures
        has_id(listing(blocks), id) == has_id(blocks, id),
        has_id(blocks, id) ==> index_of(listing(blocks), id) == index_of(blocks, id),
{
    let l = listing(blocks);
    if has_id(blocks, id) {
        let i = index_of(blocks, id);
        assert(0 <= i < blocks.len() && blocks[i].0.id == id);
        assert(l[i].0.id == id);
        lemma_index_of(l, i);
    }
    if has_id(l, id) {
        let i = index_of(l, id);
        assert(0 <= i < l.len() && l[i].0.id == id);
        assert(blocks[i].0.id == id);
    }
}

} // verus!
