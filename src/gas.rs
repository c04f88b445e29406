//! Static gas estimation for bytecode.
//!
//! Each byte is read as one opcode; operands are not modelled. The opcode
//! table and the tier table come from the caller, and so does the intrinsic
//! gas of the payload, which depends on the whole bytecode.

use vstd::prelude::*;

verus! {

/// The cost of one opcode.
#[derive(Debug)]
pub struct OpcodeCost {
    /// The byte that encodes the opcode.
    pub byte: u8,
    /// The opcode's name, as shown in a breakdown.
    pub name: String,
    /// Gas charged for one execution.
    pub base_cost: u64,
    /// Whether the opcode is a homomorphic operation.
    pub homomorphic: bool,
    /// Gas charged for one execution of a homomorphic operation on the
    /// default data size of 2187 trits.
    pub homomorphic_cost: u64,
}

/// One gas tier: it covers every gas limit up to `max_gas` that no earlier
/// tier covers.
#[derive(Debug)]
pub struct GasTierLimit {
    pub name: String,
    pub max_gas: u64,
    pub priority_fee: u64,
}

/// Gas estimate for one opcode of a bytecode.
#[derive(Debug)]
pub struct OpcodeEstimate {
    pub opcode: String,
    pub count: u64,
    pub total_gas: u64,
}

/// Intrinsic gas with and without compression.
#[derive(Debug, Clone, Copy, PartialEq, Eq, Structural)]
pub struct CompressionSavings {
    pub original_gas: u64,
    pub compressed_gas: u64,
    pub savings: u64,
    /// `savings` in hundredths of a percent of `original_gas`, rounded down.
    pub savings_basis_points: u64,
}

/// The estimate for one bytecode.
#[derive(Debug)]
pub struct GasEstimate {
    pub total_gas: u64,
    pub recommended_tier: String,
    pub intrinsic_gas: u64,
    pub execution_gas: u64,
    pub homomorphic_gas: u64,
    pub opcode_breakdown: Vec<OpcodeEstimate>,
    pub compression_savings: Option<CompressionSavings>,
}

/// Estimates gas from an opcode table and a tier table.
#[derive(Debug)]
pub struct GasEstimator {
    pub opcodes: Vec<OpcodeCost>,
    pub tiers: Vec<GasTierLimit>,
}

/// `n`, or the largest `u64` where `n` is larger.
pub open spec fn capped(n: nat) -> u64 {
    if n > u64::MAX {
        u64::MAX
    } else {
        n as u64
    }
}

/// The position of the first entry of the table for byte `b`.
pub open spec fn opcode_slot(table: Seq<OpcodeCost>, b: u8) -> Option<int>
    decreases table.len(),
{
    if table.len() == 0 {
        None
    } else if table[0].byte == b {
        Some(0)
    } else {
        match opcode_slot(table.drop_first(), b) {
            Some(i) => Some(i + 1),
            None => None,
        }
    }
}

/// Whether byte `b` is an opcode of the table.
pub open spec fn is_recognized(table: Seq<OpcodeCost>, b: u8) -> bool {
    opcode_slot(table, b) is Some
}

/// Gas charged for one execution of an opcode.
pub open spec fn unit_gas(c: OpcodeCost) -> nat {
    if c.homomorphic {
        c.homomorphic_cost as nat
    } else {
        c.base_cost as nat
    }
}

/// Execution gas of one byte: its opcode's unit gas, or nothing.
pub open spec fn byte_gas(table: Seq<OpcodeCost>, b: u8) -> nat {
    match opcode_slot(table, b) {
        Some(i) => unit_gas(table[i]),
        None => 0,
    }
}

/// Homomorphic gas of one byte.
pub open spec fn byte_homomorphic_gas(table: Seq<OpcodeCost>, b: u8) -> nat {
    match opcode_slot(table, b) {
        Some(i) => if table[i].homomorphic {
            table[i].homomorphic_cost as nat
        } else {
            0
        },
        None => 0,
    }
}

/// Execution gas of a bytecode, uncapped.
pub open spec fn execution_sum(table: Seq<OpcodeCost>, code: Seq<u8>) -> nat
    decreases code.len(),
{
    if code.len() == 0 {
        0
    } else {
        execution_sum(table, code.drop_last()) + byte_gas(table, code.last())
    }
}

/// Homomorphic gas of a bytecode, uncapped.
pub open spec fn homomorphic_sum(table: Seq<OpcodeCost>, code: Seq<u8>) -> nat
    decreases code.len(),
{
    if code.len() == 0 {
        0
    } else {
        homomorphic_sum(table, code.drop_last()) + byte_homomorphic_gas(table, code.last())
    }
}

/// How many times byte `v` occurs in `code`.
pub open spec fn occurrences(code: Seq<u8>, v: u8) -> nat
    decreases code.len(),
{
    if code.len() == 0 {
        0
    } else {
        occurrences(code.drop_last(), v) + if code.last() == v {
            1nat
        } else {
            0nat
        }
    }
}

/// The opcode bytes below `n` that occur in `code`, in increasing order.
pub open spec fn present_opcodes(table: Seq<OpcodeCost>, code: Seq<u8>, n: nat) -> Seq<u8>
    decreases n,
{
    if n == 0 {
        seq![]
    } else {
        let v = (n - 1) as u8;
        let p = present_opcodes(table, code, (n - 1) as nat);
        if is_recognized(table, v) && occurrences(code, v) > 0 {
            p.push(v)
        } else {
            p
        }
    }
}

/// `e` is the breakdown entry of opcode byte `v` in `code`.
pub open spec fn describes(e: OpcodeEstimate, table: Seq<OpcodeCost>, code: Seq<u8>, v: u8) -> bool {
    match opcode_slot(table, v) {
        Some(i) => {
            &&& e.opcode@ == table[i].name@
            &&& e.count == occurrences(code, v)
            &&& e.total_gas == capped(unit_gas(table[i]) * occurrences(code, v))
        },
        None => false,
    }
}

/// Total gas: intrinsic plus execution gas.
pub open spec fn total_gas_of(table: Seq<OpcodeCost>, code: Seq<u8>, intrinsic: u64) -> u64 {
    capped((intrinsic + capped(execution_sum(table, code))) as nat)
}

/// The position of the first tier that covers gas `g`.
pub open spec fn tier_slot(tiers: Seq<GasTierLimit>, g: u64) -> Option<int>
    decreases tiers.len(),
{
    if tiers.len() == 0 {
        None
    } else if g <= tiers[0].max_gas {
        Some(0)
    } else {
        match tier_slot(tiers.drop_first(), g) {
            Some(i) => Some(i + 1),
            None => None,
        }
    }
}

/// The tier recommended for gas `g`: the first that covers it, else the
/// last; none where there are no tiers.
pub open spec fn tier_for(tiers: Seq<GasTierLimit>, g: u64) -> Option<int> {
    match tier_slot(tiers, g) {
        Some(i) => Some(i),
        None => if tiers.len() == 0 {
            None
        } else {
            Some(tiers.len() - 1)
        },
    }
}

/// The savings of compression, given the intrinsic gas without and with it.
pub open spec fn savings_of(original_gas: u64, compressed_gas: u64) -> CompressionSavings {
    let savings: u64 = if original_gas >= compressed_gas {
        (original_gas - compressed_gas) as u64
    } else {
        0
    };
    CompressionSavings {
        original_gas,
        compressed_gas,
        savings,
        savings_basis_points: if original_gas == 0 {
            0
        } else {
            ((savings as int) * 10000 / (original_gas as int)) as u64
        },
    }
}

proof fn lemma_opcode_slot(table: Seq<OpcodeCost>, b: u8, i: int)
    requires
        0 <= i <= table.len(),
        forall|j: int| 0 <= j < i ==> table[j].byte != b,
    ensures
        i < table.len() && table[i].byte == b ==> opcode_slot(table, b) == Some(i),
        i == table.len() ==> opcode_slot(table, b) is None,
    decreases i,
{
    if i > 0 {
        let rest = table.drop_first();
        assert forall|j: int| 0 <= j < i - 1 implies rest[j].byte != b by {
            assert(rest[j] == table[j + 1]);
        }
        lemma_opcode_slot(rest, b, i - 1);
        if i < table.len() {
            assert(rest[i - 1] == table[i]);
        }
    }
}

proof fn lemma_tier_slot(tiers: Seq<GasTierLimit>, g: u64, i: int)
    requires
        0 <= i <= tiers.len(),
        forall|j: int| 0 <= j < i ==> g > tiers[j].max_gas,
    ensures
        i < tiers.len() && g <= tiers[i].max_gas ==> tier_slot(tiers, g) == Some(i),
        i == tiers.len() ==> tier_slot(tiers, g) is None,
    decreases i,
{
    if i > 0 {
        let rest = tiers.drop_first();
        assert forall|j: int| 0 <= j < i - 1 implies g > rest[j].max_gas by {
            assert(rest[j] == tiers[j + 1]);
        }
        lemma_tier_slot(rest, g, i - 1);
        if i < tiers.len() {
            assert(rest[i - 1] == tiers[i]);
        }
    }
}

proof fn lemma_occurrences_bound(code: Seq<u8>, v: u8)
    ensures
        occurrences(code, v) <= code.len(),
    decreases code.len(),
{
    if code.len() > 0 {
        lemma_occurrences_bound(code.drop_last(), v);
    }
}

impl GasEstimator {
    /// An estimator over the given opcode table and tier table.
    pub fn new(opcodes: Vec<OpcodeCost>, tiers: Vec<GasTierLimit>) -> (r: Self)
        ensures
            r.opcodes@ == opcodes@,
            r.tiers@ == tiers@,
    {
        GasEstimator { opcodes, tiers }
    }

    /// The position of the table entry for byte `b`.
    pub fn find_opcode(&self, b: u8) -> (r: Option<usize>)
        ensures
            match r {
                Some(i) => opcode_slot(self.opcodes@, b) == Some(i as int) && i
                    < self.opcodes@.len(),
                None => opcode_slot(self.opcodes@, b) is None,
            },
    {
        let mut i: usize = 0;
        while i < self.opcodes.len()
            invariant
                i <= self.opcodes@.len(),
                forall|j: int| 0 <= j < i ==> self.opcodes@[j].byte != b,
            decreases self.opcodes@.len() - i,
        {
            if self.opcodes[i].byte == b {
                proof {
                    lemma_opcode_slot(self.opcodes@, b, i as int);
                }
                return Some(i);
            }
            i = i + 1;
        }
        proof {
            lemma_opcode_slot(self.opcodes@, b, i as int);
        }
        None
    }

    /// The position of the tier recommended for a gas limit: the first
    /// that covers it, else the last; `None` where there are no tiers.
    pub fn recommend_tier(&self, gas_limit: u64) -> (r: Option<usize>)
        ensures
            match r {
                Some(i) => tier_for(self.tiers@, gas_limit) == Some(i as int) && i
                    < self.tiers@.len(),
                None => tier_for(self.tiers@, gas_limit) is None,
            },
    {
        let mut i: usize = 0;
        while i < self.tiers.len()
            invariant
                i <= self.tiers@.len(),
                forall|j: int| 0 <= j < i ==> gas_limit > self.tiers@[j].max_gas,
            decreases self.tiers@.len() - i,
        {
            if gas_limit <= self.tiers[i].max_gas {
                proof {
                    lemma_tier_slot(self.tiers@, gas_limit, i as int);
                }
                return Some(i);
            }
            i = i + 1;
        }
        proof {
            lemma_tier_slot(self.tiers@, gas_limit, i as int);
        }
        if self.tiers.len() == 0 {
            None
        } else {
            Some(self.tiers.len() - 1)
        }
    }

    /// The priority fee of the tier at position `tier`.
    pub fn recommend_priority_fee(&self, tier: usize) -> (r: Option<u64>)
        ensures
            r == (if tier < self.tiers@.len() {
                Some(self.tiers@[tier as int].priority_fee)
            } else {
                None::<u64>
            }),
    {
        if tier < self.tiers.len() {
            Some(self.tiers[tier].priority_fee)
        } else {
            None
        }
    }

    /// The savings of compression, given the intrinsic gas without it and
    /// with it.
    pub fn calculate_compression_savings(original_gas: u64, compressed_gas: u64) -> (r:
        CompressionSavings)
        ensures
            r == savings_of(original_gas, compressed_gas),
    {
        let savings = original_gas.saturating_sub(compressed_gas);
        let savings_basis_points: u64 = if original_gas > 0 {
            assert(savings <= original_gas);
            assert((savings as int) * 10000 / (original_gas as int) <= 10000) by (nonlinear_arith)
                requires
                    savings <= original_gas,
                    original_gas > 0,
            ;
            ((savings as u128) * 10000 / (original_gas as u128)) as u64
        } else {
            0
        };
        CompressionSavings { original_gas, compressed_gas, savings, savings_basis_points }
    }

    /// Estimates the gas of a bytecode, reading each byte as one opcode and
    /// skipping bytes that are not opcodes. `intrinsic_gas` is the intrinsic
    /// gas of the bytecode as sent; where it is sent compressed,
    /// `uncompressed_intrinsic_gas` is its intrinsic gas without compression.
    pub fn estimate_contract(
        &self,
        bytecode: &[u8],
        intrinsic_gas: u64,
        uncompressed_intrinsic_gas: Option<u64>,
    ) -> (r: GasEstimate)
        ensures
            r.intrinsic_gas == intrinsic_gas,
            r.execution_gas == capped(execution_sum(self.opcodes@, bytecode@)),
            r.homomorphic_gas == capped(homomorphic_sum(self.opcodes@, bytecode@)),
            r.total_gas == total_gas_of(self.opcodes@, bytecode@, intrinsic_gas),
            match tier_for(self.tiers@, r.total_gas) {
                Some(i) => r.recommended_tier@ == self.tiers@[i].name@,
                None => r.recommended_tier@.len() == 0,
            },
            r.opcode_breakdown@.len() == present_opcodes(self.opcodes@, bytecode@, 256).len(),
            forall|i: int|
                0 <= i < r.opcode_breakdown@.len() ==> describes(
                    #[trigger] r.opcode_breakdown@[i],
                    self.opcodes@,
                    bytecode@,
                    present_opcodes(self.opcodes@, bytecode@, 256)[i],
                ),
            r.compression_savings == match uncompressed_intrinsic_gas {
                Some(u) => Some(savings_of(u, intrinsic_gas)),
                None => None,
            },
    {
        let ghost table = self.opcodes@;
        let mut counts: Vec<u64> = Vec::new();
        while counts.len() < 256
            invariant
                counts.len() <= 256,
                forall|v: int| 0 <= v < counts.len() ==> counts@[v] == 0,
            decreases 256 - counts.len(),
        {
            counts.push(0);
        }
        let mut execution_gas: u64 = 0;
        let mut homomorphic_gas: u64 = 0;
        let mut i: usize = 0;
        while i < bytecode.len()
            invariant
                table == self.opcodes@,
                i <= bytecode@.len(),
                counts.len() == 256,
                execution_gas == capped(execution_sum(table, bytecode@.subrange(0, i as int))),
                homomorphic_gas == capped(
                    homomorphic_sum(table, bytecode@.subrange(0, i as int)),
                ),
                forall|v: int|
                    0 <= v < 256 ==> #[trigger] counts@[v] == occurrences(
                        bytecode@.subrange(0, i as int),
                        v as u8,
                    ),
            decreases bytecode@.len() - i,
        {
            let b = bytecode[i];
            let ghost pre = bytecode@.subrange(0, i as int);
            let ghost cur = bytecode@.subrange(0, i + 1);
            assert(cur.drop_last() =~= pre);
            match self.find_opcode(b) {
                Some(k) => {
                    let c = &self.opcodes[k];
                    if c.homomorphic {
                        homomorphic_gas = homomorphic_gas.saturating_add(c.homomorphic_cost);
                        execution_gas = execution_gas.saturating_add(c.homomorphic_cost);
                    } else {
                        execution_gas = execution_gas.saturating_add(c.base_cost);
                    }
                },
                None => {},
            }
            proof {
                lemma_occurrences_bound(pre, b);
            }
            let n = counts[b as usize];
            counts[b as usize] = n + 1;
            i = i + 1;
            assert forall|v: int| 0 <= v < 256 implies #[trigger] counts@[v] == occurrences(
                cur,
                v as u8,
            ) by {
                assert(v as u8 == b ==> v == b as int);
            }
        }
        assert(bytecode@.subrange(0, i as int) =~= bytecode@);
        let mut breakdown: Vec<OpcodeEstimate> = Vec::new();
        let mut v: usize = 0;
        while v < 256
            invariant
                table == self.opcodes@,
                v <= 256,
                counts.len() == 256,
                forall|w: int|
                    0 <= w < 256 ==> #[trigger] counts@[w] == occurrences(bytecode@, w as u8),
                breakdown@.len() == present_opcodes(table, bytecode@, v as nat).len(),
                forall|j: int|
                    0 <= j < breakdown@.len() ==> describes(
                        #[trigger] breakdown@[j],
                        table,
                        bytecode@,
                        present_opcodes(table, bytecode@, v as nat)[j],
                    ),
            decreases 256 - v,
        {
            let count = counts[v];
            let ghost before = present_opcodes(table, bytecode@, v as nat);
            if count > 0 {
                match self.find_opcode(v as u8) {
                    Some(k) => {
                        let c = &self.opcodes[k];
                        let unit = if c.homomorphic {
                            c.homomorphic_cost
                        } else {
                            c.base_cost
                        };
                        let total = match unit.checked_mul(count) {
                            Some(t) => t,
                            None => u64::MAX,
                        };
                        breakdown.push(
                            OpcodeEstimate { opcode: c.name.clone(), count, total_gas: total },
                        );
                        assert forall|j: int| 0 <= j < breakdown@.len() implies describes(
                            #[trigger] breakdown@[j],
                            table,
                            bytecode@,
                            present_opcodes(table, bytecode@, (v + 1) as nat)[j],
                        ) by {
                            assert(present_opcodes(table, bytecode@, (v + 1) as nat) == before.push(
                                v as u8,
                            ));
                        }
                    },
                    None => {},
                }
            }
            v = v + 1;
        }
        let total_gas = intrinsic_gas.saturating_add(execution_gas);
        let recommended_tier = match self.recommend_tier(total_gas) {
            Some(t) => self.tiers[t].name.clone(),
            None => String::new(),
        };
        let compression_savings = match uncompressed_intrinsic_gas {
            Some(u) => Some(GasEstimator::calculate_compression_savings(u, intrinsic_gas)),
            None => None,
        };
        GasEstimate {
            total_gas,
            recommended_tier,
            intrinsic_gas,
            execution_gas,
            homomorphic_gas,
            opcode_breakdown: breakdown,
            compression_savings,
        }
    }
}

/// Appending an opcode byte to a bytecode never lowers its total gas, as
/// long as the intrinsic gas of the longer bytecode is not below that of the
/// shorter one.
pub proof fn lemma_total_gas_monotone(
    table: Seq<OpcodeCost>,
    code: Seq<u8>,
    b: u8,
    intrinsic: u64,
    longer_intrinsic: u64,
)
    requires
        is_recognized(table, b),
        intrinsic <= longer_intrinsic,
    ensures
        execution_sum(table, code.push(b)) >= execution_sum(table, code),
        total_gas_of(table, code.push(b), longer_intrinsic) >= total_gas_of(
            table,
            code,
            intrinsic,
        ),
{
    assert(code.push(b).drop_last() =~= code);
}

/// Compression savings are never negative nor above the uncompressed gas,
/// their share is at most a hundred percent, and it is zero where the
/// uncompressed gas is zero.
pub proof fn lemma_savings_bounds(original_gas: u64, compressed_gas: u64)
    ensures
        savings_of(original_gas, compressed_gas).savings >= 0,
        savings_of(original_gas, compressed_gas).savings <= original_gas,
        savings_of(original_gas, compressed_gas).savings_basis_points <= 10000,
        original_gas == 0 ==> savings_of(original_gas, compressed_gas).savings_basis_points == 0,
{
    let s = savings_of(original_gas, compressed_gas).savings;
    if original_gas > 0 {
        assert((s as int) * 10000 / (original_gas as int) <= 10000) by (nonlinear_arith)
            requires
                s <= original_gas,
                original_gas > 0,
        ;
    }
}

} // verus!
