use vstd::prelude::*;

verus! {

// ---------------------------------------------------------------------------
// Hammer code generation
//
// The inner hammer loop is emitted at run time as one fully unrolled x86-64
// machine-code sequence: per iteration a volatile load of every aggressor
// address in order, a cache-line flush of every aggressor in the same order,
// and a chain of dependent adds to pace the loop.  This module builds the
// byte sequence; making it executable and calling it happens outside the
// crate.
// ---------------------------------------------------------------------------

/// `k` repetitions of the byte sequence `c`.
pub open spec fn repeat_bytes(c: Seq<u8>, k: nat) -> Seq<u8>
    decreases k,
{
    if k == 0 {
        Seq::empty()
    } else {
        repeat_bytes(c, (k - 1) as nat) + c
    }
}

/// `push` of the twelve general-purpose registers the generated block may
/// touch, in the order the block saves them.
pub open spec fn push_regs_bytes() -> Seq<u8> {
    seq![
        0x50u8, 0x53, 0x51, 0x52, 0x57, 0x56, 0x41, 0x52, 0x41, 0x53, 0x41, 0x54, 0x41, 0x55,
        0x41, 0x56, 0x41, 0x57,
    ]
}

/// The matching `pop`s, in reverse order.
pub open spec fn pop_regs_bytes() -> Seq<u8> {
    seq![
        0x41u8, 0x5F, 0x41, 0x5E, 0x41, 0x5D, 0x41, 0x5C, 0x41, 0x5B, 0x41, 0x5A, 0x5E, 0x5F,
        0x5A, 0x59, 0x5B, 0x58,
    ]
}

/// `add rax, 1`: one filler instruction with a true data dependency on the
/// scratch register.
pub open spec fn add_rax_bytes() -> Seq<u8> {
    seq![0x48u8, 0x83, 0xC0, 0x01]
}

/// `mov r12, imm64` with one aggressor address.
pub open spec fn mov_r12_imm_bytes(addr: u64) -> Seq<u8> {
    seq![0x49u8, 0xBC] + vstd::bytes::spec_u64_to_le_bytes(addr)
}

/// `mov rdx, [r12]`: one volatile aggressor read.
pub open spec fn load_r12_bytes() -> Seq<u8> {
    seq![0x49u8, 0x8B, 0x14, 0x24]
}

/// `clflush [r12]`: one aggressor flushed from all cache levels.
pub open spec fn flush_r12_bytes() -> Seq<u8> {
    seq![0x41u8, 0x0F, 0xAE, 0x3C, 0x24]
}

/// One read of every aggressor address, in list order: each address is
/// loaded into the scratch address register and dereferenced.
pub open spec fn access_all_bytes(pattern: Seq<u64>) -> Seq<u8>
    decreases pattern.len(),
{
    if pattern.len() == 0 {
        Seq::empty()
    } else {
        access_all_bytes(pattern.drop_last()) + mov_r12_imm_bytes(pattern.last())
            + load_r12_bytes()
    }
}

/// One flush of every aggressor address, in list order.
pub open spec fn flush_all_bytes(pattern: Seq<u64>) -> Seq<u8>
    decreases pattern.len(),
{
    if pattern.len() == 0 {
        Seq::empty()
    } else {
        flush_all_bytes(pattern.drop_last()) + mov_r12_imm_bytes(pattern.last())
            + flush_r12_bytes()
    }
}

/// One unrolled iteration: every aggressor read, every aggressor flushed,
/// then `garbage_count` filler adds.
pub open spec fn hammer_iter_bytes(pattern: Seq<u64>, garbage_count: u32) -> Seq<u8> {
    access_all_bytes(pattern) + flush_all_bytes(pattern) + repeat_bytes(
        add_rax_bytes(),
        garbage_count as nat,
    )
}

/// The whole generated block: save registers, `hammer_count` unrolled
/// iterations over every aggressor of the pattern, restore registers,
/// return.
pub open spec fn hammer_jit_bytes(pattern: Seq<u64>, hammer_count: u64, garbage_count: u32) -> Seq<
    u8,
> {
    push_regs_bytes() + repeat_bytes(hammer_iter_bytes(pattern, garbage_count), hammer_count as nat)
        + pop_regs_bytes() + seq![0xC3u8]
}

/// Emits the register-saving prologue.
pub fn push_all_gp_regs(code: &mut Vec<u8>)
    ensures
        final(code)@ == old(code)@ + push_regs_bytes(),
{
    code.push(0x50);
    code.push(0x53);
    code.push(0x51);
    code.push(0x52);
    code.push(0x57);
    code.push(0x56);
    code.push(0x41);
    code.push(0x52);
    code.push(0x41);
    code.push(0x53);
    code.push(0x41);
    code.push(0x54);
    code.push(0x41);
    code.push(0x55);
    code.push(0x41);
    code.push(0x56);
    code.push(0x41);
    code.push(0x57);
    proof {
        assert(final(code)@ =~= old(code)@ + push_regs_bytes());
    }
}

/// Emits the register-restoring epilogue.
pub fn pop_all_gp_regs(code: &mut Vec<u8>)
    ensures
        final(code)@ == old(code)@ + pop_regs_bytes(),
{
    code.push(0x41);
    code.push(0x5F);
    code.push(0x41);
    code.push(0x5E);
    code.push(0x41);
    code.push(0x5D);
    code.push(0x41);
    code.push(0x5C);
    code.push(0x41);
    code.push(0x5B);
    code.push(0x41);
    code.push(0x5A);
    code.push(0x5E);
    code.push(0x5F);
    code.push(0x5A);
    code.push(0x59);
    code.push(0x5B);
    code.push(0x58);
    proof {
        assert(final(code)@ =~= old(code)@ + pop_regs_bytes());
    }
}

/// Emits `n * garbage_count` dependent `add rax, 1` fillers.
pub fn garbage_add(code: &mut Vec<u8>, n: u64, garbage_count: u32)
    ensures
        final(code)@ == old(code)@ + repeat_bytes(
            add_rax_bytes(),
            (n * garbage_count) as nat,
        ),
{
    let mut i: u64 = 0;
    while i < n
        invariant
            0 <= i <= n,
            code@ == old(code)@ + repeat_bytes(add_rax_bytes(), (i * garbage_count) as nat),
        decreases n - i,
    {
        let mut j: u32 = 0;
        while j < garbage_count
            invariant
                0 <= i < n,
                0 <= j <= garbage_count,
                code@ == old(code)@ + repeat_bytes(
                    add_rax_bytes(),
                    (i * garbage_count + j) as nat,
                ),
            decreases garbage_count - j,
        {
            code.push(0x48);
            code.push(0x83);
            code.push(0xC0);
            code.push(0x01);
            proof {
                assert(code@ =~= old(code)@ + repeat_bytes(
                    add_rax_bytes(),
                    (i * garbage_count + j) as nat,
                ) + add_rax_bytes());
            }
            j = j + 1;
        }
        proof {
            assert((i + 1) * garbage_count == i * garbage_count + garbage_count)
                by (nonlinear_arith);
        }
        i = i + 1;
    }
}

/// Emits the eight bytes of `addr`, least significant first.
fn push_le_u64(code: &mut Vec<u8>, addr: u64)
    ensures
        final(code)@ == old(code)@ + vstd::bytes::spec_u64_to_le_bytes(addr),
{
    let bytes = vstd::bytes::u64_to_le_bytes(addr);
    proof {
        vstd::bytes::lemma_auto_spec_u64_to_from_le_bytes();
    }
    let mut k: usize = 0;
    while k < bytes.len()
        invariant
            bytes@ == vstd::bytes::spec_u64_to_le_bytes(addr),
            bytes@.len() == 8,
            0 <= k <= 8,
            code@ == old(code)@ + bytes@.take(k as int),
        decreases 8 - k,
    {
        code.push(bytes[k]);
        proof {
            assert(code@ =~= old(code)@ + bytes@.take(k as int + 1));
        }
        k = k + 1;
    }
    proof {
        assert(bytes@.take(8) =~= bytes@);
    }
}

/// Emits `mov r12, imm64` for one aggressor address.
fn push_mov_r12_imm(code: &mut Vec<u8>, addr: u64)
    ensures
        final(code)@ == old(code)@ + mov_r12_imm_bytes(addr),
{
    code.push(0x49);
    code.push(0xBC);
    push_le_u64(code, addr);
    proof {
        assert(final(code)@ =~= old(code)@ + mov_r12_imm_bytes(addr));
    }
}

/// Emits one volatile read of every aggressor address, in list order.
fn push_access_all(code: &mut Vec<u8>, pattern: &Vec<u64>)
    ensures
        final(code)@ == old(code)@ + access_all_bytes(pattern@),
{
    let mut i: usize = 0;
    while i < pattern.len()
        invariant
            0 <= i <= pattern@.len(),
            code@ == old(code)@ + access_all_bytes(pattern@.take(i as int)),
        decreases pattern@.len() - i,
    {
        push_mov_r12_imm(code, pattern[i]);
        code.push(0x49);
        code.push(0x8B);
        code.push(0x14);
        code.push(0x24);
        proof {
            assert(pattern@.take(i as int + 1).drop_last() =~= pattern@.take(i as int));
            assert(pattern@.take(i as int + 1).last() == pattern@[i as int]);
            assert(code@ =~= old(code)@ + access_all_bytes(pattern@.take(i as int))
                + mov_r12_imm_bytes(pattern@[i as int]) + load_r12_bytes());
        }
        i = i + 1;
    }
    proof {
        assert(pattern@.take(pattern@.len() as int) =~= pattern@);
    }
}

/// Emits one cache-line flush of every aggressor address, in list order.
fn push_flush_all(code: &mut Vec<u8>, pattern: &Vec<u64>)
    ensures
        final(code)@ == old(code)@ + flush_all_bytes(pattern@),
{
    let mut i: usize = 0;
    while i < pattern.len()
        invariant
            0 <= i <= pattern@.len(),
            code@ == old(code)@ + flush_all_bytes(pattern@.take(i as int)),
        decreases pattern@.len() - i,
    {
        push_mov_r12_imm(code, pattern[i]);
        code.push(0x41);
        code.push(0x0F);
        code.push(0xAE);
        code.push(0x3C);
        code.push(0x24);
        proof {
            assert(pattern@.take(i as int + 1).drop_last() =~= pattern@.take(i as int));
            assert(pattern@.take(i as int + 1).last() == pattern@[i as int]);
            assert(code@ =~= old(code)@ + flush_all_bytes(pattern@.take(i as int))
                + mov_r12_imm_bytes(pattern@[i as int]) + flush_r12_bytes());
        }
        i = i + 1;
    }
    proof {
        assert(pattern@.take(pattern@.len() as int) =~= pattern@);
    }
}

/// Emits the unrolled hammer loop: `hammer_count` iterations, each reading
/// every aggressor of `pattern`, flushing every aggressor, and running
/// `garbage_count` fillers.
pub fn create_hammer_jit(code: &mut Vec<u8>, pattern: &Vec<u64>, hammer_count: u64, garbage_count: u32)
    ensures
        final(code)@ == old(code)@ + repeat_bytes(
            hammer_iter_bytes(pattern@, garbage_count),
            hammer_count as nat,
        ),
{
    let mut it: u64 = 0;
    while it < hammer_count
        invariant
            0 <= it <= hammer_count,
            code@ == old(code)@ + repeat_bytes(
                hammer_iter_bytes(pattern@, garbage_count),
                it as nat,
            ),
        decreases hammer_count - it,
    {
        let ghost pre = code@;
        push_access_all(code, pattern);
        push_flush_all(code, pattern);
        garbage_add(code, 1, garbage_count);
        proof {
            assert((1 * garbage_count) as nat == garbage_count as nat);
            assert(code@ =~= pre + hammer_iter_bytes(pattern@, garbage_count));
        }
        it = it + 1;
    }
}

/// Builds the whole hammer block for every aggressor address of `pattern`:
/// prologue, unrolled loop, epilogue and return.  The caller maps the bytes
/// executable and calls them.
pub fn hammer_jit_code(pattern: &Vec<u64>, garbage_count: u32, hammer_count: u64) -> (code: Vec<
    u8,
>)
    ensures
        code@ == hammer_jit_bytes(pattern@, hammer_count, garbage_count),
{
    let mut code: Vec<u8> = Vec::new();
    push_all_gp_regs(&mut code);
    create_hammer_jit(&mut code, pattern, hammer_count, garbage_count);
    pop_all_gp_regs(&mut code);
    code.push(0xC3);
    proof {
        assert(code@ =~= hammer_jit_bytes(pattern@, hammer_count, garbage_count));
    }
    code
}

} // verus!
