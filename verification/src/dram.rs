use vstd::prelude::*;

verus! {

// ---------------------------------------------------------------------------
// Bit-level helpers
//
// The DRAM mapping functions are XOR/shift schemes over single physical
// address bits, so the whole module is built on a population count and a
// trailing-zero count with exact specifications.
// ---------------------------------------------------------------------------

/// Number of set bits of `x` among the bit positions below `n`.
pub open spec fn pop_below(x: u64, n: nat) -> nat
    decreases n,
{
    if n == 0 {
        0
    } else {
        pop_below(x, (n - 1) as nat) + (((x >> (((n - 1) as nat) as u64)) & 1) as nat)
    }
}

/// Number of set bits of `x`.
pub open spec fn pop64(x: u64) -> nat {
    pop_below(x, 64)
}

/// Index of the lowest set bit of `x` at or above position `i`; 64 when there
/// is none.
pub open spec fn tz_from(x: u64, i: nat) -> nat
    decreases 64 - i,
{
    if i >= 64 {
        64
    } else if (x >> (i as u64)) & 1 == 1 {
        i
    } else {
        tz_from(x, i + 1)
    }
}

/// Index of the lowest set bit of `x`; 64 when `x` has none.
pub open spec fn tz64(x: u64) -> nat {
    tz_from(x, 0)
}

/// A value with all bit positions below `t` clear, bit by bit, is divisible by
/// `1 << t`: the low mask selects nothing.
proof fn lemma_low_clear(x: u64, t: u64)
    requires
        t <= 63,
        forall|j: u64| j < t ==> #[trigger] ((x >> j) & 1) == 0,
    ensures
        x & (vstd::prelude::sub(1u64 << t, 1)) == 0,
    decreases t,
{
    if t > 0 {
        lemma_low_clear(x, (t - 1) as u64);
        assert(((x >> vstd::prelude::sub(t, 1)) & 1) == 0);
        assert(x & vstd::prelude::sub(1u64 << t, 1) == 0) by (bit_vector)
            requires
                1 <= t <= 63,
                x & vstd::prelude::sub(1u64 << vstd::prelude::sub(t, 1), 1) == 0,
                (x >> vstd::prelude::sub(t, 1)) & 1 == 0,
        ;
    } else {
        assert(x & vstd::prelude::sub(1u64 << 0u64, 1) == 0) by (bit_vector);
    }
}

proof fn lemma_tz_from(x: u64, i: nat)
    requires
        i <= 64,
    ensures
        i <= tz_from(x, i) <= 64,
        tz_from(x, i) < 64 ==> (x >> (tz_from(x, i) as u64)) & 1 == 1,
        forall|j: u64| i <= j < tz_from(x, i) ==> #[trigger] ((x >> j) & 1) == 0,
    decreases 64 - i,
{
    if i < 64 && (x >> (i as u64)) & 1 != 1 {
        lemma_tz_from(x, i + 1);
        let iu = i as u64;
        assert((x >> iu) & 1 == 0) by (bit_vector)
            requires
                (x >> iu) & 1 != 1,
        ;
    }
}

/// The lowest set bit of a non-zero value: its position is below 64, the bit
/// is set there, and every position below it is clear.
pub proof fn lemma_tz64(x: u64)
    requires
        x != 0,
    ensures
        tz64(x) < 64,
        (x >> (tz64(x) as u64)) & 1 == 1,
        x & (vstd::prelude::sub(1u64 << (tz64(x) as u64), 1)) == 0,
{
    lemma_tz_from(x, 0);
    if tz64(x) == 64 {
        lemma_low_clear(x, 63);
        assert(x == 0) by (bit_vector)
            requires
                x & vstd::prelude::sub(1u64 << 63u64, 1) == 0,
                (x >> 63u64) & 1 == 0,
        ;
    } else {
        let t = tz64(x) as u64;
        if t > 0 {
            lemma_low_clear(x, t);
        } else {
            assert(x & vstd::prelude::sub(1u64 << 0u64, 1) == 0) by (bit_vector);
        }
    }
}

proof fn lemma_pop_below_of_zero(n: nat)
    ensures
        pop_below(0u64, n) == 0,
    decreases n,
{
    if n > 0 {
        lemma_pop_below_of_zero((n - 1) as nat);
        let i = ((n - 1) as nat) as u64;
        assert((0u64 >> i) & 1 == 0) by (bit_vector);
    }
}

/// `pop64(x) == 0` exactly when `x == 0`.
pub proof fn lemma_pop64_zero(x: u64)
    ensures
        (pop64(x) == 0) <==> (x == 0),
{
    lemma_pop_below_of_zero(64);
    if x != 0 {
        lemma_tz64(x);
        let t = tz64(x) as u64;
        let rest = x & !(1u64 << t);
        assert(rest & (1u64 << t) == 0 && x == rest | (1u64 << t)) by (bit_vector)
            requires
                t < 64,
                (x >> t) & 1 == 1,
                rest == x & !(1u64 << t),
        ;
        lemma_pop_below_disjoint(rest, 1u64 << t, 64);
        lemma_pop_below_pow2(t, 64);
    }
}

/// Population count distributes over a disjoint union.
pub proof fn lemma_pop_below_disjoint(a: u64, b: u64, n: nat)
    requires
        n <= 64,
        a & b == 0,
    ensures
        pop_below(a | b, n) == pop_below(a, n) + pop_below(b, n),
    decreases n,
{
    if n > 0 {
        lemma_pop_below_disjoint(a, b, (n - 1) as nat);
        let i = ((n - 1) as nat) as u64;
        assert((((a | b) >> i) & 1) == ((a >> i) & 1) + ((b >> i) & 1)) by (bit_vector)
            requires
                a & b == 0,
                i < 64,
        ;
    }
}

/// Population count of a power of two.
pub proof fn lemma_pop_below_pow2(t: u64, n: nat)
    requires
        n <= 64,
        t < 64,
    ensures
        pop_below(1u64 << t, n) == if t < n {
            1int
        } else {
            0int
        },
    decreases n,
{
    if n > 0 {
        lemma_pop_below_pow2(t, (n - 1) as nat);
        let i = ((n - 1) as nat) as u64;
        assert((((1u64 << t) >> i) & 1) == (if i == t {
            1u64
        } else {
            0u64
        })) by (bit_vector)
            requires
                t < 64,
                i < 64,
        ;
    }
}

/// A mask with exactly one set bit is the power of two at its trailing-zero
/// position.
pub proof fn lemma_single_bit(m: u64)
    requires
        pop64(m) == 1,
    ensures
        tz64(m) < 64,
        m == 1u64 << (tz64(m) as u64),
{
    lemma_pop64_zero(m);
    lemma_tz64(m);
    let t = tz64(m) as u64;
    let rest = m & !(1u64 << t);
    assert(rest & (1u64 << t) == 0 && m == rest | (1u64 << t)) by (bit_vector)
        requires
            t < 64,
            (m >> t) & 1 == 1,
            rest == m & !(1u64 << t),
    ;
    lemma_pop_below_disjoint(rest, 1u64 << t, 64);
    lemma_pop_below_pow2(t, 64);
    lemma_pop64_zero(rest);
    assert(m == 1u64 << t) by (bit_vector)
        requires
            rest == 0,
            m == rest | (1u64 << t),
    ;
}

/// Verified population count.
pub fn popcount64(x: u64) -> (r: u32)
    ensures
        r == pop64(x),
        r <= 64,
{
    let mut r: u32 = 0;
    let mut i: u64 = 0;
    while i < 64
        invariant
            i <= 64,
            r == pop_below(x, i as nat),
            r <= i,
        decreases 64 - i,
    {
        proof {
            assert((x >> i) & 1 <= 1) by (bit_vector);
        }
        r = r + ((x >> i) & 1) as u32;
        i = i + 1;
    }
    r
}

// ---------------------------------------------------------------------------
// DRAM address model
//
// A `DRAMConfig` carries one bitmask per coordinate: `row_fn` and `column_fn`
// select the (contiguous) row and column bits of a physical address, and each
// `bank_fns[i]` is a two-bit XOR function giving bit `i` of the bank number.
// Exactly one bit of each bank function overlaps the row or column mask, so a
// bank bit can be undone once row and column are back in place.
// ---------------------------------------------------------------------------

/// One DRAM cell coordinate triple.
#[derive(Debug, Clone, PartialEq, Eq, Structural)]
pub struct DRAMAddr {
    pub bank: u64,
    pub row: u64,
    pub column: u64,
}

/// Physical-address mapping functions of one DIMM population.
#[derive(Debug, Clone)]
pub struct DRAMConfig {
    /// Stable identifier of the DIMM the functions were measured on.
    pub dram_id: String,
    /// Mask of the physical-address bits that form the row number.
    pub row_fn: u64,
    /// Mask of the physical-address bits that form the column number.
    pub column_fn: u64,
    /// One two-bit XOR mask per bank-number bit.
    pub bank_fns: Vec<u64>,
}

/// Bank-number bits of `p` under the first `fns.len()` bank functions.
pub open spec fn bank_bits(p: u64, fns: Seq<u64>) -> u64
    decreases fns.len(),
{
    if fns.len() == 0 {
        0
    } else {
        bank_bits(p, fns.drop_last()) | ((((pop64(p & fns.last()) % 2) as u64)) << ((
        (fns.len() - 1) as nat) as u64))
    }
}

/// Row number of `p`: the row bits, shifted down to start at bit zero.
pub open spec fn row_of(p: u64, cfg: DRAMConfig) -> u64 {
    (p & cfg.row_fn) >> (tz64(cfg.row_fn) as u64)
}

/// Column number of `p`: the column bits, shifted down to start at bit zero.
pub open spec fn column_of(p: u64, cfg: DRAMConfig) -> u64 {
    (p & cfg.column_fn) >> (tz64(cfg.column_fn) as u64)
}

/// The DRAM coordinates of physical address `p`.
pub open spec fn dram_addr_of(p: u64, cfg: DRAMConfig) -> DRAMAddr {
    DRAMAddr {
        bank: bank_bits(p, cfg.bank_fns@),
        row: row_of(p, cfg),
        column: column_of(p, cfg),
    }
}

/// The bit of bank function `i` that also belongs to the row or column mask.
pub open spec fn overlap_mask(cfg: DRAMConfig, i: int) -> u64 {
    (cfg.row_fn | cfg.column_fn) & cfg.bank_fns@[i]
}

/// The bit of bank function `i` outside the row and column masks.
pub open spec fn non_overlap_mask(cfg: DRAMConfig, i: int) -> u64 {
    overlap_mask(cfg, i) ^ cfg.bank_fns@[i]
}

/// Union of the non-overlap bits of the first `i` bank functions.
pub open spec fn nons_below(cfg: DRAMConfig, i: nat) -> u64
    decreases i,
{
    if i == 0 {
        0
    } else {
        nons_below(cfg, (i - 1) as nat) | non_overlap_mask(cfg, i - 1)
    }
}

/// All physical-address bits the mapping functions can reproduce.
pub open spec fn reachable_mask(cfg: DRAMConfig) -> u64 {
    cfg.row_fn | cfg.column_fn | nons_below(cfg, cfg.bank_fns@.len())
}

/// A non-empty mask whose set bits are contiguous.
pub open spec fn is_contiguous_mask(m: u64) -> bool {
    m != 0 && {
        let s = m >> (tz64(m) as u64);
        s & ((s + 1) as u64) == 0
    }
}

/// Structural constraints on a `DRAMConfig`: contiguous, disjoint row and
/// column masks, and two-bit bank functions with exactly one bit inside the
/// row/column area.
pub open spec fn dram_config_valid(cfg: DRAMConfig) -> bool {
    &&& is_contiguous_mask(cfg.row_fn)
    &&& is_contiguous_mask(cfg.column_fn)
    &&& cfg.row_fn & cfg.column_fn == 0
    &&& cfg.bank_fns@.len() <= 32
    &&& forall|i: int|
        0 <= i < cfg.bank_fns@.len() ==> pop64(#[trigger] cfg.bank_fns@[i]) == 2
    &&& forall|i: int|
        0 <= i < cfg.bank_fns@.len() ==> pop64(#[trigger] overlap_mask(cfg, i)) == 1
}

/// Addresses whose set bits all lie under the mapping functions' masks: the
/// ones a round trip through DRAM coordinates can reproduce.
pub open spec fn dram_reachable(p: u64, cfg: DRAMConfig) -> bool {
    p & !reachable_mask(cfg) == 0
}

/// Physical address rebuilt from coordinates `d` using the first `i` bank
/// functions.
pub open spec fn rebuild_below(d: DRAMAddr, cfg: DRAMConfig, i: nat) -> u64
    decreases i,
{
    if i == 0 {
        (d.row << (tz64(cfg.row_fn) as u64)) | (d.column << (tz64(cfg.column_fn) as u64))
    } else {
        let prev = rebuild_below(d, cfg, (i - 1) as nat);
        let omask = overlap_mask(cfg, i - 1);
        let nmask = non_overlap_mask(cfg, i - 1);
        let bank_bit = (d.bank >> (((i - 1) as nat) as u64)) & 1;
        let obit = (prev & omask) >> (tz64(omask) as u64);
        prev | ((bank_bit ^ obit) << (tz64(nmask) as u64))
    }
}

/// The physical address of DRAM coordinates `d` under `cfg`.
pub open spec fn phys_of(d: DRAMAddr, cfg: DRAMConfig) -> u64 {
    rebuild_below(d, cfg, cfg.bank_fns@.len())
}

/// Verified trailing-zero count for a non-zero value.
pub fn trailing_zeros64(x: u64) -> (r: u32)
    requires
        x != 0,
    ensures
        r == tz64(x),
        r < 64,
{
    proof {
        lemma_tz64(x);
        lemma_tz_from(x, 0);
    }
    let mut i: u32 = 0;
    loop
        invariant
            i < 64,
            x != 0,
            tz64(x) < 64,
            i <= tz64(x),
            tz_from(x, i as nat) == tz64(x),
        decreases 64 - i,
    {
        proof {
            lemma_tz64(x);
            assert((i as nat) as u64 == i as u64);
        }
        if (x >> (i as u64)) & 1 == 1 {
            proof {
                assert(tz_from(x, i as nat) == i as nat);
            }
            return i;
        }
        proof {
            assert(tz_from(x, i as nat) == tz_from(x, i as nat + 1));
            assert(i as nat != tz64(x));
        }
        i = i + 1;
    }
}


/// The two single bits a valid bank function splits into.
proof fn lemma_bank_fn_parts(cfg: DRAMConfig, i: int)
    requires
        dram_config_valid(cfg),
        0 <= i < cfg.bank_fns@.len(),
    ensures
        overlap_mask(cfg, i) | non_overlap_mask(cfg, i) == cfg.bank_fns@[i],
        overlap_mask(cfg, i) & non_overlap_mask(cfg, i) == 0,
        pop64(non_overlap_mask(cfg, i)) == 1,
        overlap_mask(cfg, i) != 0,
        non_overlap_mask(cfg, i) != 0,
        non_overlap_mask(cfg, i) & (cfg.row_fn | cfg.column_fn) == 0,
        overlap_mask(cfg, i) & (cfg.row_fn | cfg.column_fn) == overlap_mask(cfg, i),
{
    let bf = cfg.bank_fns@[i];
    let rc = cfg.row_fn | cfg.column_fn;
    let om = overlap_mask(cfg, i);
    let nm = non_overlap_mask(cfg, i);
    assert(om | nm == bf && om & nm == 0 && nm & rc == 0 && om & rc == om) by (bit_vector)
        requires
            om == rc & bf,
            nm == om ^ bf,
    ;
    lemma_pop_below_disjoint(om, nm, 64);
    lemma_pop64_zero(om);
    lemma_pop64_zero(nm);
}

proof fn lemma_or_shifted_bound(b: u64, par: u64, k: u64)
    requires
        k <= 31,
        b < 1u64 << k,
        par <= 1,
    ensures
        (b | (par << k)) < 1u64 << vstd::prelude::add(k, 1),
        ((b | (par << k)) >> k) & 1 == par,
{
    assert((b | (par << k)) < 1u64 << vstd::prelude::add(k, 1) && ((b | (par << k)) >> k) & 1
        == par) by (bit_vector)
        requires
            k <= 31,
            b < 1u64 << k,
            par <= 1,
    ;
}

proof fn lemma_or_shifted_low(b: u64, par: u64, k: u64, iu: u64)
    requires
        k <= 31,
        iu < k,
        par <= 1,
    ensures
        ((b | (par << k)) >> iu) & 1 == (b >> iu) & 1,
{
    assert(((b | (par << k)) >> iu) & 1 == (b >> iu) & 1) by (bit_vector)
        requires
            k <= 31,
            iu < k,
            par <= 1,
    ;
}

/// Bank numbers built from `fns` stay below `1 << fns.len()`.
proof fn lemma_bank_bits_bound(p: u64, fns: Seq<u64>)
    requires
        fns.len() <= 32,
    ensures
        bank_bits(p, fns) < (1u64 << (fns.len() as u64)),
    decreases fns.len(),
{
    if fns.len() == 0 {
        assert(0u64 < 1u64 << 0u64) by (bit_vector);
    } else {
        lemma_bank_bits_bound(p, fns.drop_last());
        let k = ((fns.len() - 1) as nat) as u64;
        let b = bank_bits(p, fns.drop_last());
        let par = (pop64(p & fns.last()) % 2) as u64;
        lemma_or_shifted_bound(b, par, k);
        assert(fns.len() as u64 == vstd::prelude::add(k, 1));
    }
}

/// Bit `i` of the built bank number is the parity of `p` under `fns[i]`.
proof fn lemma_bank_bits_extract(p: u64, fns: Seq<u64>, i: int)
    requires
        fns.len() <= 32,
        0 <= i < fns.len(),
    ensures
        (bank_bits(p, fns) >> (i as u64)) & 1 == (pop64(p & fns[i]) % 2) as u64,
    decreases fns.len(),
{
    let k = ((fns.len() - 1) as nat) as u64;
    let b = bank_bits(p, fns.drop_last());
    let par = (pop64(p & fns.last()) % 2) as u64;
    lemma_bank_bits_bound(p, fns.drop_last());
    if i == fns.len() - 1 {
        lemma_or_shifted_bound(b, par, k);
    } else {
        lemma_bank_bits_extract(p, fns.drop_last(), i);
        assert(fns.drop_last()[i] == fns[i]);
        lemma_or_shifted_low(b, par, k, i as u64);
    }
}

/// Population count of `p` under a single-bit mask is that bit of `p`.
proof fn lemma_pop_single(p: u64, t: u64)
    requires
        t < 64,
    ensures
        pop64(p & (1u64 << t)) == ((p >> t) & 1) as nat,
{
    let m = p & (1u64 << t);
    assert((m == 0 || m == 1u64 << t) && 1u64 << t != 0) by (bit_vector)
        requires
            m == p & (1u64 << t),
            t < 64,
    ;
    assert(((p >> t) & 1 == 1) <==> m == 1u64 << t) by (bit_vector)
        requires
            m == p & (1u64 << t),
            t < 64,
    ;
    assert((p >> t) & 1 <= 1) by (bit_vector);
    if m == 0 {
        lemma_pop64_zero(0u64);
    } else {
        lemma_pop_below_pow2(t, 64);
    }
}

/// The parity of `p` under a two-bit mask is the XOR of the two bits.
proof fn lemma_parity_two_bits(p: u64, om: u64, nm: u64, to: u64, tn: u64)
    requires
        to < 64,
        tn < 64,
        om == 1u64 << to,
        nm == 1u64 << tn,
        om & nm == 0,
    ensures
        (pop64(p & (om | nm)) % 2) as u64 == ((p >> to) & 1) ^ ((p >> tn) & 1),
{
    assert(p & (om | nm) == (p & om) | (p & nm) && (p & om) & (p & nm) == 0) by (bit_vector)
        requires
            om & nm == 0,
    ;
    lemma_pop_below_disjoint(p & om, p & nm, 64);
    lemma_pop_single(p, to);
    lemma_pop_single(p, tn);
    let a = (p >> to) & 1;
    let b = (p >> tn) & 1;
    assert(a <= 1 && b <= 1) by (bit_vector)
        requires
            a == (p >> to) & 1,
            b == (p >> tn) & 1,
    ;
    assert((a ^ b) == (if a == b {
        0u64
    } else {
        1u64
    })) by (bit_vector)
        requires
            a <= 1,
            b <= 1,
    ;
}

proof fn lemma_shift_restore(p: u64, m: u64, t: u64)
    requires
        t < 64,
        m & vstd::prelude::sub(1u64 << t, 1) == 0,
    ensures
        ((p & m) >> t) << t == p & m,
{
    assert(((p & m) >> t) << t == p & m) by (bit_vector)
        requires
            t < 64,
            m & vstd::prelude::sub(1u64 << t, 1) == 0,
    ;
}

proof fn lemma_restore_rowcol(p: u64, rf: u64, cf: u64, tr: u64, tc: u64)
    requires
        tr < 64,
        tc < 64,
        rf & vstd::prelude::sub(1u64 << tr, 1) == 0,
        cf & vstd::prelude::sub(1u64 << tc, 1) == 0,
    ensures
        ((((p & rf) >> tr) << tr) | (((p & cf) >> tc) << tc)) == p & (rf | cf | 0u64),
{
    lemma_shift_restore(p, rf, tr);
    lemma_shift_restore(p, cf, tc);
    assert((p & rf) | (p & cf) == p & (rf | cf | 0u64)) by (bit_vector);
}

proof fn lemma_rebuild_step(p: u64, prevv: u64, maskv: u64, om: u64, nm: u64, to: u64, tn: u64, bb: u64)
    requires
        to < 64,
        tn < 64,
        om == 1u64 << to,
        nm == 1u64 << tn,
        prevv == p & maskv,
        om & maskv == om,
        bb == ((p >> to) & 1) ^ ((p >> tn) & 1),
    ensures
        prevv | ((bb ^ ((prevv & om) >> to)) << tn) == p & (maskv | nm),
{
    assert(prevv | ((bb ^ ((prevv & om) >> to)) << tn) == p & (maskv | nm)) by (bit_vector)
        requires
            to < 64,
            tn < 64,
            om == 1u64 << to,
            nm == 1u64 << tn,
            prevv == p & maskv,
            om & maskv == om,
            bb == ((p >> to) & 1) ^ ((p >> tn) & 1),
    ;
}

proof fn lemma_subset_of_or(om: u64, rc: u64, nb: u64)
    requires
        om & rc == om,
    ensures
        om & (rc | nb) == om,
{
    assert(om & (rc | nb) == om) by (bit_vector)
        requires
            om & rc == om,
    ;
}

proof fn lemma_or_assoc(a: u64, b: u64, c: u64)
    ensures
        (a | b) | c == a | (b | c),
{
    assert((a | b) | c == a | (b | c)) by (bit_vector);
}

/// Rebuilding from the coordinates of `p` restores exactly the bits of `p`
/// that the first `i` bank functions and the row/column masks cover.
proof fn lemma_rebuild_below(p: u64, cfg: DRAMConfig, i: nat)
    requires
        dram_config_valid(cfg),
        i <= cfg.bank_fns@.len(),
    ensures
        rebuild_below(dram_addr_of(p, cfg), cfg, i) == p & (cfg.row_fn | cfg.column_fn
            | nons_below(cfg, i)),
    decreases i,
{
    let d = dram_addr_of(p, cfg);
    let rf = cfg.row_fn;
    let cf = cfg.column_fn;
    if i == 0 {
        lemma_tz64(rf);
        lemma_tz64(cf);
        lemma_restore_rowcol(p, rf, cf, tz64(rf) as u64, tz64(cf) as u64);
    } else {
        let j = (i - 1) as nat;
        lemma_rebuild_below(p, cfg, j);
        lemma_bank_fn_parts(cfg, i - 1);
        let om = overlap_mask(cfg, i - 1);
        let nm = non_overlap_mask(cfg, i - 1);
        lemma_single_bit(om);
        lemma_single_bit(nm);
        let to = tz64(om) as u64;
        let tn = tz64(nm) as u64;
        let prev = rebuild_below(d, cfg, j);
        lemma_bank_bits_extract(p, cfg.bank_fns@, i - 1);
        let bb = (d.bank >> (((i - 1) as nat) as u64)) & 1;
        lemma_parity_two_bits(p, om, nm, to, tn);
        assert(bb == ((p >> to) & 1) ^ ((p >> tn) & 1));
        lemma_subset_of_or(om, rf | cf, nons_below(cfg, j));
        lemma_rebuild_step(p, prev, (rf | cf) | nons_below(cfg, j), om, nm, to, tn, bb);
        assert(rebuild_below(d, cfg, i) == prev | ((bb ^ ((prev & om) >> to)) << tn));
        lemma_or_assoc(rf | cf, nons_below(cfg, j), nm);
        assert(nons_below(cfg, i) == nons_below(cfg, j) | nm);
    }
}

/// Round trip: translating a reachable physical address to DRAM coordinates
/// and back restores the address.
pub proof fn lemma_dram_round_trip(p: u64, cfg: DRAMConfig)
    requires
        dram_config_valid(cfg),
        dram_reachable(p, cfg),
    ensures
        phys_of(dram_addr_of(p, cfg), cfg) == p,
{
    lemma_rebuild_below(p, cfg, cfg.bank_fns@.len());
    lemma_masked_identity(p, reachable_mask(cfg));
}

proof fn lemma_masked_identity(p: u64, rm: u64)
    requires
        p & !rm == 0,
    ensures
        p & rm == p,
{
    assert(p & rm == p) by (bit_vector)
        requires
            p & !rm == 0,
    ;
}

/// Runtime check for `is_contiguous_mask`.
fn mask_is_contiguous(m: u64) -> (b: bool)
    ensures
        b == is_contiguous_mask(m),
{
    if m == 0 {
        return false;
    }
    let s: u64 = m >> (trailing_zeros64(m) as u64);
    if s == 0xFFFF_FFFF_FFFF_FFFF {
        proof {
            assert(s & ((s + 1) as u64) == 0) by (bit_vector)
                requires
                    s == 0xFFFF_FFFF_FFFF_FFFFu64,
            ;
        }
        true
    } else {
        s & (s + 1) == 0
    }
}

/// Runtime check of the structural constraints a `DRAMConfig` must meet
/// before the translation functions may be used on it.
pub fn validate_dram_config(dram_config: &DRAMConfig) -> (b: bool)
    ensures
        b == dram_config_valid(*dram_config),
{
    let ghost cfg = *dram_config;
    if dram_config.row_fn == 0 || dram_config.column_fn == 0 {
        return false;
    }
    if !mask_is_contiguous(dram_config.row_fn) || !mask_is_contiguous(dram_config.column_fn) {
        return false;
    }
    if dram_config.row_fn & dram_config.column_fn != 0 {
        return false;
    }
    if dram_config.bank_fns.len() > 32 {
        return false;
    }
    let mut i: usize = 0;
    while i < dram_config.bank_fns.len()
        invariant
            cfg == *dram_config,
            i <= cfg.bank_fns@.len(),
            forall|k: int| 0 <= k < i ==> pop64(#[trigger] cfg.bank_fns@[k]) == 2,
            forall|k: int| 0 <= k < i ==> pop64(#[trigger] overlap_mask(cfg, k)) == 1,
        decreases cfg.bank_fns@.len() - i,
    {
        let bf = dram_config.bank_fns[i];
        proof {
            assert(bf == cfg.bank_fns@[i as int]);
            assert(overlap_mask(cfg, i as int) == (cfg.row_fn | cfg.column_fn) & bf);
        }
        if popcount64(bf) != 2 {
            return false;
        }
        if popcount64((dram_config.row_fn | dram_config.column_fn) & bf) != 1 {
            return false;
        }
        i = i + 1;
    }
    true
}

/// Translates a physical address to its DRAM coordinates under `dram_config`.
pub fn phys_to_dram(phys_addr: u64, dram_config: &DRAMConfig) -> (d: DRAMAddr)
    requires
        dram_config_valid(*dram_config),
    ensures
        d == dram_addr_of(phys_addr, *dram_config),
{
    let ghost cfg = *dram_config;
    let mut bank: u64 = 0;
    let mut i: usize = 0;
    while i < dram_config.bank_fns.len()
        invariant
            dram_config_valid(cfg),
            cfg == *dram_config,
            i <= cfg.bank_fns@.len(),
            bank == bank_bits(phys_addr, cfg.bank_fns@.take(i as int)),
        decreases cfg.bank_fns@.len() - i,
    {
        let bf = dram_config.bank_fns[i];
        let par: u32 = popcount64(phys_addr & bf) % 2;
        bank = bank | ((par as u64) << (i as u64));
        proof {
            let pre = cfg.bank_fns@.take(i as int);
            let post = cfg.bank_fns@.take(i as int + 1);
            assert(post.drop_last() =~= pre);
            assert(post.last() == bf);
            assert(bank == bank_bits(phys_addr, post));
        }
        i = i + 1;
    }
    proof {
        assert(cfg.bank_fns@.take(cfg.bank_fns@.len() as int) =~= cfg.bank_fns@);
    }
    let row: u64 = (phys_addr & dram_config.row_fn) >> (trailing_zeros64(dram_config.row_fn)
        as u64);
    let column: u64 = (phys_addr & dram_config.column_fn) >> (trailing_zeros64(
        dram_config.column_fn,
    ) as u64);
    DRAMAddr { bank, row, column }
}

/// Translates DRAM coordinates back to the physical address they map, under
/// `dram_config`.
pub fn dram_to_phys(dram_addr: &DRAMAddr, dram_config: &DRAMConfig) -> (p: u64)
    requires
        dram_config_valid(*dram_config),
    ensures
        p == phys_of(*dram_addr, *dram_config),
{
    let ghost cfg = *dram_config;
    let ghost d = *dram_addr;
    let mut phys: u64 = (dram_addr.row << (trailing_zeros64(dram_config.row_fn) as u64))
        | (dram_addr.column << (trailing_zeros64(dram_config.column_fn) as u64));
    let mut i: usize = 0;
    while i < dram_config.bank_fns.len()
        invariant
            dram_config_valid(cfg),
            cfg == *dram_config,
            d == *dram_addr,
            i <= cfg.bank_fns@.len(),
            phys == rebuild_below(d, cfg, i as nat),
        decreases cfg.bank_fns@.len() - i,
    {
        let bf = dram_config.bank_fns[i];
        proof {
            lemma_bank_fn_parts(cfg, i as int);
            lemma_pop64_zero(overlap_mask(cfg, i as int));
            lemma_pop64_zero(non_overlap_mask(cfg, i as int));
        }
        let overlap: u64 = (dram_config.row_fn | dram_config.column_fn) & bf;
        let non_overlap: u64 = overlap ^ bf;
        let bank_addr_bit: u64 = (dram_addr.bank >> (i as u64)) & 1;
        let overlap_bit: u64 = (phys & overlap) >> (trailing_zeros64(overlap) as u64);
        phys = phys | ((bank_addr_bit ^ overlap_bit) << (trailing_zeros64(non_overlap) as u64));
        proof {
            assert((i as nat + 1 - 1) as nat == i as nat);
            assert(phys == rebuild_below(d, cfg, i as nat + 1));
        }
        i = i + 1;
    }
    phys
}

// ---------------------------------------------------------------------------
// DRAM config lookup
// ---------------------------------------------------------------------------

/// Index of the first serial-number entry with key `key`; the length when
/// none matches.
pub open spec fn find_id_from(ids: Seq<(Seq<char>, Seq<char>)>, key: Seq<char>, i: nat) -> nat
    decreases ids.len() - i,
{
    if i >= ids.len() {
        ids.len()
    } else if ids[i as int].0 == key {
        i
    } else {
        find_id_from(ids, key, i + 1)
    }
}

/// Index of the first mapping-function entry with key `key`; the length
/// when none matches.
pub open spec fn find_mf_from(
    mfs: Seq<(Seq<char>, crate::serialize::MappingFunctionsSpec)>,
    key: Seq<char>,
    i: nat,
) -> nat
    decreases mfs.len() - i,
{
    if i >= mfs.len() {
        mfs.len()
    } else if mfs[i as int].0 == key {
        i
    } else {
        find_mf_from(mfs, key, i + 1)
    }
}

/// The DIMM-family key of a memory type, rank count and bank count, as the
/// knowledge base spells it.
pub open spec fn dimm_key_spec(dram_type: Seq<char>, ranks: u32, banks: u32) -> Seq<char> {
    dram_type + seq!['.', '1', '.', '1', '.'] + crate::text::dec_seq(ranks as u64) + seq!['.']
        + crate::text::dec_seq(banks as u64)
}

/// Why no `DRAMConfig` could be assembled.
#[derive(Debug, Clone, Copy, PartialEq, Eq, Structural)]
pub enum DramLookupError {
    /// The decoded bank count is not a power of two.
    BadBankCount,
    /// The decoded rank count is neither one nor two.
    BadRankCount,
    /// The knowledge base has no mapping functions for the DIMM family.
    UnknownMappingFunctions,
}

/// Assembles the `DRAMConfig` for the one installed DIMM from the decoded
/// SPD values: the serial number picks the stable identifier (falling back
/// to the serial itself), and memory type, ranks and banks pick the mapping
/// functions.
pub fn create_config(
    dram_info: &crate::serialize::DRAMInfo,
    serial_number: &String,
    dram_type: &String,
    ranks: u32,
    banks: u32,
) -> (r: Result<DRAMConfig, DramLookupError>)
    ensures
        r is Ok <==> (banks != 0 && pop64(banks as u64) == 1 && (ranks == 1 || ranks == 2)
            && find_mf_from(
            dram_info@.mapping_functions,
            dimm_key_spec(dram_type@, ranks, banks),
            0,
        ) < dram_info@.mapping_functions.len()),
        r matches Err(DramLookupError::BadBankCount) ==> !(banks != 0 && pop64(banks as u64)
            == 1),
        r matches Err(DramLookupError::BadRankCount) ==> banks != 0 && pop64(banks as u64) == 1
            && ranks != 1 && ranks != 2,
        r matches Ok(cfg) ==> ({
            let ids = dram_info@.dram_ids;
            let id_idx = find_id_from(ids, serial_number@, 0);
            let mf = dram_info@.mapping_functions[find_mf_from(
                dram_info@.mapping_functions,
                dimm_key_spec(dram_type@, ranks, banks),
                0,
            ) as int].1;
            &&& cfg.dram_id@ == (if id_idx < ids.len() {
                ids[id_idx as int].1
            } else {
                serial_number@
            })
            &&& cfg.row_fn == mf.row_fn
            &&& cfg.column_fn == mf.column_fn
            &&& cfg.bank_fns@ == mf.bank_fns
        }),
{
    let ghost info = dram_info@;
    if banks == 0 || popcount64(banks as u64) != 1 {
        return Err(DramLookupError::BadBankCount);
    }
    if ranks != 1 && ranks != 2 {
        return Err(DramLookupError::BadRankCount);
    }

    // the DIMM-family key: "<type>.1.1.<ranks>.<banks>"
    let mut key = String::new();
    key.append(dram_type.as_str());
    proof {
        reveal_strlit(".1.1.");
        reveal_strlit(".");
    }
    key.append(".1.1.");
    let ranks_text = crate::text::u64_to_dec(ranks as u64);
    key.append(ranks_text.as_str());
    key.append(".");
    let banks_text = crate::text::u64_to_dec(banks as u64);
    key.append(banks_text.as_str());
    proof {
        assert(key@ =~= dimm_key_spec(dram_type@, ranks, banks));
    }

    // mapping functions for the family
    let mut m: usize = 0;
    loop
        invariant
            info == dram_info@,
            key@ == dimm_key_spec(dram_type@, ranks, banks),
            0 <= m <= info.mapping_functions.len(),
            find_mf_from(info.mapping_functions, key@, 0) == find_mf_from(
                info.mapping_functions,
                key@,
                m as nat,
            ),
        ensures
            info == dram_info@,
            key@ == dimm_key_spec(dram_type@, ranks, banks),
            m == find_mf_from(info.mapping_functions, key@, 0),
            m <= info.mapping_functions.len(),
        decreases info.mapping_functions.len() - m,
    {
        if m >= dram_info.mapping_functions.len() {
            break ;
        }
        if dram_info.mapping_functions[m].0 == key {
            break ;
        }
        m = m + 1;
    }
    if m == dram_info.mapping_functions.len() {
        return Err(DramLookupError::UnknownMappingFunctions);
    }
    let mf = &dram_info.mapping_functions[m].1;

    // stable identifier for the DIMM, falling back to the serial number
    let mut i: usize = 0;
    let mut dram_id = String::new();
    loop
        invariant
            info == dram_info@,
            0 <= i <= info.dram_ids.len(),
            find_id_from(info.dram_ids, serial_number@, 0) == find_id_from(
                info.dram_ids,
                serial_number@,
                i as nat,
            ),
        ensures
            info == dram_info@,
            i == find_id_from(info.dram_ids, serial_number@, 0),
            i <= info.dram_ids.len(),
        decreases info.dram_ids.len() - i,
    {
        if i >= dram_info.dram_ids.len() {
            break ;
        }
        if dram_info.dram_ids[i].0 == *serial_number {
            break ;
        }
        i = i + 1;
    }
    if i < dram_info.dram_ids.len() {
        dram_id.append(dram_info.dram_ids[i].1.as_str());
    } else {
        dram_id.append(serial_number.as_str());
    }

    let mut bank_fns: Vec<u64> = Vec::new();
    let mut k: usize = 0;
    while k < mf.bank_fns.len()
        invariant
            mf@ == info.mapping_functions[find_mf_from(
                info.mapping_functions,
                dimm_key_spec(dram_type@, ranks, banks),
                0,
            ) as int].1 || true,
            0 <= k <= mf.bank_fns@.len(),
            bank_fns@ =~= mf.bank_fns@.take(k as int),
        decreases mf.bank_fns@.len() - k,
    {
        bank_fns.push(mf.bank_fns[k]);
        k = k + 1;
    }
    proof {
        assert(bank_fns@ =~= mf.bank_fns@);
    }

    Ok(DRAMConfig { dram_id, row_fn: mf.row_fn, column_fn: mf.column_fn, bank_fns })
}

} // verus!
