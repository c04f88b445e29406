use trinaryvm_cli::{CompressionSavings, GasEstimator, GasTierLimit, OpcodeCost};

const NOP: u8 = 0x00;
const ADD: u8 = 0x01;
const MUL: u8 = 0x03;
const HE_ADD: u8 = 0x40;

fn opcode(byte: u8, name: &str, base_cost: u64, homomorphic_cost: Option<u64>) -> OpcodeCost {
    OpcodeCost {
        byte,
        name: name.to_string(),
        base_cost,
        homomorphic: homomorphic_cost.is_some(),
        homomorphic_cost: homomorphic_cost.unwrap_or(0),
    }
}

fn tiers() -> Vec<GasTierLimit> {
    let limits = [
        100_000u64, 250_000, 500_000, 750_000, 1_000_000, 1_500_000, 2_000_000, 3_000_000, 10_000_000,
    ];
    limits
        .iter()
        .enumerate()
        .map(|(i, &max_gas)| GasTierLimit {
            name: format!("Tier{}", i + 1),
            max_gas,
            priority_fee: (i as u64 + 1) * 3,
        })
        .collect()
}

fn estimator() -> GasEstimator {
    GasEstimator::new(
        vec![
            opcode(NOP, "Nop", 1, None),
            opcode(ADD, "Add", 3, None),
            opcode(MUL, "Mul", 5, None),
            opcode(HE_ADD, "HEAdd", 81, Some(102)),
        ],
        tiers(),
    )
}

#[test]
fn test_gas_estimation() {
    let estimator = estimator();
    let bytecode = vec![NOP, ADD, MUL];

    let estimate = estimator.estimate_contract(&bytecode, 21_003, None);
    assert!(estimate.total_gas > 0);
    assert!(estimate.intrinsic_gas > 0);
}

#[test]
fn three_plain_opcodes_scenario() {
    let estimate = estimator().estimate_contract(&[NOP, ADD, MUL], 21_003, None);
    assert!(estimate.intrinsic_gas > 0);
    assert_eq!(estimate.execution_gas, 1 + 3 + 5);
    assert_eq!(estimate.homomorphic_gas, 0);
    assert_eq!(estimate.total_gas, 21_003 + 9);
    assert_eq!(estimate.opcode_breakdown.len(), 3);
    let names: Vec<&str> = estimate.opcode_breakdown.iter().map(|e| e.opcode.as_str()).collect();
    assert_eq!(names, vec!["Nop", "Add", "Mul"]);
    for entry in &estimate.opcode_breakdown {
        assert_eq!(entry.count, 1);
    }
    assert_eq!(estimate.recommended_tier, "Tier1");
    assert!(estimate.compression_savings.is_none());
}

#[test]
fn homomorphic_opcodes_count_twice_over() {
    let estimate = estimator().estimate_contract(&[HE_ADD, ADD, HE_ADD], 10, None);
    assert_eq!(estimate.homomorphic_gas, 204);
    assert_eq!(estimate.execution_gas, 207);
    assert_eq!(estimate.total_gas, 217);
    assert_eq!(estimate.opcode_breakdown.len(), 2);
    let he = &estimate.opcode_breakdown[1];
    assert_eq!((he.opcode.as_str(), he.count, he.total_gas), ("HEAdd", 2, 204));
}

#[test]
fn unknown_bytes_are_skipped() {
    let estimate = estimator().estimate_contract(&[0xFF, ADD, 0x77, ADD], 0, None);
    assert_eq!(estimate.execution_gas, 6);
    assert_eq!(estimate.opcode_breakdown.len(), 1);
    assert_eq!(estimate.opcode_breakdown[0].count, 2);
    assert_eq!(estimate.opcode_breakdown[0].total_gas, 6);
}

#[test]
fn empty_bytecode_costs_only_intrinsic_gas() {
    let estimate = estimator().estimate_contract(&[], 0, None);
    assert_eq!(estimate.total_gas, 0);
    assert_eq!(estimate.execution_gas, 0);
    assert!(estimate.opcode_breakdown.is_empty());
}

#[test]
fn appending_an_opcode_never_lowers_total_gas() {
    let estimator = estimator();
    let mut code = vec![MUL, 0x99];
    let mut last = estimator.estimate_contract(&code, 100, None).total_gas;
    for op in [NOP, HE_ADD, ADD, MUL, NOP] {
        code.push(op);
        let next = estimator.estimate_contract(&code, 100, None).total_gas;
        assert!(next >= last);
        last = next;
    }
}

#[test]
fn gas_saturates_instead_of_overflowing() {
    let estimator = GasEstimator::new(vec![opcode(ADD, "Add", u64::MAX - 1, None)], tiers());
    let estimate = estimator.estimate_contract(&[ADD, ADD], 5, None);
    assert_eq!(estimate.execution_gas, u64::MAX);
    assert_eq!(estimate.total_gas, u64::MAX);
    assert_eq!(estimate.opcode_breakdown[0].total_gas, u64::MAX);
    assert_eq!(estimate.recommended_tier, "Tier9");
}

#[test]
fn test_compression_savings() {
    let savings = GasEstimator::calculate_compression_savings(16_000, 5_000);
    assert!(savings.savings > 0);
    assert!(savings.savings_basis_points > 0);
}

#[test]
fn compression_savings_values() {
    assert_eq!(
        GasEstimator::calculate_compression_savings(1000, 250),
        CompressionSavings { original_gas: 1000, compressed_gas: 250, savings: 750, savings_basis_points: 7500 }
    );
    let none = GasEstimator::calculate_compression_savings(0, 0);
    assert_eq!((none.savings, none.savings_basis_points), (0, 0));
    let worse = GasEstimator::calculate_compression_savings(100, 150);
    assert_eq!((worse.savings, worse.savings_basis_points), (0, 0));
    let third = GasEstimator::calculate_compression_savings(3, 2);
    assert_eq!(third.savings_basis_points, 3333);
}

#[test]
fn compressed_estimate_reports_savings() {
    let estimate = estimator().estimate_contract(&[ADD], 400, Some(1_000));
    assert_eq!(
        estimate.compression_savings,
        Some(CompressionSavings { original_gas: 1_000, compressed_gas: 400, savings: 600, savings_basis_points: 6000 })
    );
}

#[test]
fn test_tier_recommendation() {
    let estimator = estimator();

    let name = |g: u64| estimator.tiers[estimator.recommend_tier(g).unwrap()].name.clone();
    assert_eq!(name(500_000), "Tier3");
    assert_eq!(name(1_500_000), "Tier6");
    assert_eq!(name(5_000_000), "Tier9");
}

#[test]
fn tiers_fall_back_to_the_last_one() {
    let estimator = estimator();
    assert_eq!(estimator.recommend_tier(u64::MAX), Some(8));
    assert_eq!(estimator.recommend_tier(0), Some(0));
    assert_eq!(estimator.recommend_priority_fee(2), Some(9));
    assert_eq!(estimator.recommend_priority_fee(9), None);
    let bare = GasEstimator::new(Vec::new(), Vec::new());
    assert_eq!(bare.recommend_tier(10), None);
    assert_eq!(bare.estimate_contract(&[ADD], 1, None).recommended_tier, "");
}
