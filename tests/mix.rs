use curve25519_dalek::scalar::Scalar;
use spacesuit::mix::{
    cloak_values, collect_assignments, combine_by_flavor, mix_chain_holds, mix_gate_wiring,
    mix_holds, order_by_flavor, CloakError,
};
use spacesuit::gate::gate_coefficients;
use spacesuit::value::Value;

fn yuan(q: u64) -> Value {
    Value { q: q as i128, f: Scalar::from(888u64) }
}

fn peso(q: u64) -> Value {
    Value { q: q as i128, f: Scalar::from(666u64) }
}

fn zero() -> Value {
    Value::zero()
}

fn val(v: (u64, u64)) -> Value {
    Value { q: v.0 as i128, f: Scalar::from(v.1) }
}

fn mix_helper(a: (u64, u64), b: (u64, u64), c: (u64, u64), d: (u64, u64)) -> bool {
    mix_holds(&val(a), &val(b), &val(c), &val(d))
}

// The gadget tests check the witnesses against the relation each cloak gate
// enforces (`mix_holds`, `mix_chain_holds`), which a proof of the gadget attests;
// they do not run a prover and a verifier.
#[test]
fn test_2x2_mix() {
    let peso = 66;
    let yuan = 88;

    // no merge, same asset types
    assert!(mix_helper((6, peso), (6, peso), (6, peso), (6, peso)));
    // no merge, different asset types
    assert!(mix_helper((3, peso), (6, yuan), (3, peso), (6, yuan)));
    // merge, same asset types
    assert!(mix_helper((3, peso), (6, peso), (0, peso), (9, peso)));
    // merge, zero value is different asset type
    assert!(mix_helper((3, peso), (6, peso), (0, yuan), (9, peso)));
    // error when merging different asset types
    assert!(!mix_helper((3, peso), (3, yuan), (0, peso), (6, yuan)));
    // error when not merging, but asset type changes
    assert!(!mix_helper((3, peso), (3, yuan), (3, peso), (3, peso)));
    // error when creating more value (same asset types)
    assert!(!mix_helper((3, peso), (3, peso), (3, peso), (6, peso)));
    // error when creating more value (different asset types)
    assert!(!mix_helper((3, peso), (3, yuan), (3, peso), (6, yuan)));
}

fn k_mix_helper(inputs: Vec<Value>, mid: Vec<Value>, outputs: Vec<Value>) -> bool {
    mix_chain_holds(&inputs, &mid, &outputs)
}

#[test]
fn test_k_mix() {
    // k=2
    assert!(k_mix_helper(vec![peso(3), yuan(6)], vec![], vec![peso(3), yuan(6)]));
    assert!(k_mix_helper(vec![peso(3), peso(6)], vec![], vec![peso(0), peso(9)]));
    assert!(!k_mix_helper(vec![peso(3), yuan(3)], vec![], vec![peso(0), yuan(6)]));

    // k=3
    assert!(k_mix_helper(
        vec![peso(3), peso(6), peso(6)],
        vec![peso(6)],
        vec![peso(3), peso(6), peso(6)],
    ));
    assert!(k_mix_helper(
        vec![peso(3), yuan(6), peso(6)],
        vec![yuan(6)],
        vec![peso(3), yuan(6), peso(6)],
    ));
    assert!(k_mix_helper(
        vec![peso(3), peso(6), yuan(1)],
        vec![peso(9)],
        vec![peso(0), peso(9), yuan(1)],
    ));
    assert!(k_mix_helper(
        vec![yuan(1), peso(3), peso(6)],
        vec![peso(3)],
        vec![yuan(1), peso(0), peso(9)],
    ));
    assert!(k_mix_helper(
        vec![peso(3), peso(6), peso(1)],
        vec![peso(9)],
        vec![zero(), zero(), peso(10)],
    ));
    assert!(!k_mix_helper(
        vec![peso(3), peso(6), peso(1)],
        vec![peso(9)],
        vec![zero(), zero(), peso(9)],
    ));
    assert!(!k_mix_helper(
        vec![peso(3), yuan(6), peso(1)],
        vec![peso(9)],
        vec![zero(), zero(), peso(10)],
    ));

    // k=4
    assert!(k_mix_helper(
        vec![peso(3), peso(6), yuan(1), yuan(2)],
        vec![peso(9), yuan(1)],
        vec![zero(), peso(9), zero(), yuan(3)],
    ));
    assert!(k_mix_helper(
        vec![peso(3), peso(2), peso(2), peso(1)],
        vec![peso(5), peso(7)],
        vec![zero(), zero(), zero(), peso(8)],
    ));
    assert!(k_mix_helper(
        vec![peso(3), yuan(2), peso(2), yuan(1)],
        vec![yuan(2), peso(2)],
        vec![peso(3), yuan(2), peso(2), yuan(1)],
    ));
    assert!(!k_mix_helper(
        vec![peso(3), peso(2), peso(2), peso(1)],
        vec![peso(5), peso(7)],
        vec![zero(), zero(), zero(), peso(9)],
    ));
}

#[test]
fn order_by_flavor_test() {
    // k = 1
    assert_eq!(order_by_flavor(&vec![yuan(1)]), vec![yuan(1)]);
    // k = 2
    assert_eq!(order_by_flavor(&vec![yuan(1), yuan(2)]), vec![yuan(1), yuan(2)]);
    assert_eq!(order_by_flavor(&vec![yuan(1), peso(2)]), vec![yuan(1), peso(2)]);
    // k = 3
    assert_eq!(
        order_by_flavor(&vec![yuan(1), peso(3), yuan(2)]),
        vec![yuan(1), yuan(2), peso(3)]
    );
    // k = 4
    assert_eq!(
        order_by_flavor(&vec![yuan(1), peso(3), yuan(2), peso(4)]),
        vec![yuan(1), yuan(2), peso(3), peso(4)]
    );
    assert_eq!(
        order_by_flavor(&vec![yuan(1), peso(3), peso(4), yuan(2)]),
        vec![yuan(1), yuan(2), peso(4), peso(3)]
    );
    assert_eq!(
        order_by_flavor(&vec![yuan(1), peso(3), zero(), yuan(2)]),
        vec![yuan(1), yuan(2), zero(), peso(3)]
    );
    assert_eq!(
        order_by_flavor(&vec![yuan(1), yuan(2), yuan(3), yuan(4)]),
        vec![yuan(1), yuan(4), yuan(3), yuan(2)]
    );
    // k = 5
    assert_eq!(
        order_by_flavor(&vec![yuan(1), yuan(2), yuan(3), yuan(4), yuan(5)]),
        vec![yuan(1), yuan(5), yuan(4), yuan(3), yuan(2)]
    );
    assert_eq!(
        order_by_flavor(&vec![yuan(1), peso(2), yuan(3), peso(4), yuan(5)]),
        vec![yuan(1), yuan(5), yuan(3), peso(4), peso(2)]
    );
    assert_eq!(
        order_by_flavor(&vec![yuan(1), peso(2), zero(), peso(4), yuan(5)]),
        vec![yuan(1), yuan(5), zero(), peso(4), peso(2)]
    );
}

fn combine_by_flavor_helper(inputs: &Vec<Value>) -> (Vec<Value>, Vec<Value>) {
    combine_by_flavor(inputs).unwrap()
}

#[test]
fn combine_by_flavor_test() {
    // k = 2
    assert_eq!(
        combine_by_flavor_helper(&vec![yuan(1), peso(4)]),
        (vec![], vec![yuan(1), peso(4)])
    );
    assert_eq!(
        combine_by_flavor_helper(&vec![yuan(1), yuan(3)]),
        (vec![], vec![zero(), yuan(4)])
    );
    // k = 3
    assert_eq!(
        combine_by_flavor_helper(&vec![yuan(1), peso(4), zero()]),
        (vec![peso(4)], vec![yuan(1), peso(4), zero()])
    );
    assert_eq!(
        combine_by_flavor_helper(&vec![yuan(1), yuan(3), peso(2)]),
        (vec![yuan(4)], vec![zero(), yuan(4), peso(2)])
    );
    assert_eq!(
        combine_by_flavor_helper(&vec![peso(2), yuan(1), yuan(3)]),
        (vec![yuan(1)], vec![peso(2), zero(), yuan(4)])
    );
    // k = 4
    assert_eq!(
        combine_by_flavor_helper(&vec![yuan(1), yuan(1), peso(4), peso(4)]),
        (vec![yuan(2), peso(4)], vec![zero(), yuan(2), zero(), peso(8)])
    );
    assert_eq!(
        combine_by_flavor_helper(&vec![yuan(1), yuan(2), yuan(3), yuan(4)]),
        (vec![yuan(3), yuan(6)], vec![zero(), zero(), zero(), yuan(10)])
    );
}

#[test]
fn single_value_cloak_is_identity() {
    let (ordered, mid, outputs) = cloak_values(&vec![peso(6)]).unwrap();
    assert_eq!(ordered, vec![peso(6)]);
    assert_eq!(outputs, vec![peso(6)]);
    assert!(mid.is_empty());
}

#[test]
fn two_pesos_conserve_quantity() {
    assert!(mix_holds(&peso(3), &peso(6), &peso(0), &peso(9)));
    assert!(!mix_holds(&peso(3), &peso(6), &peso(0), &peso(8)));
    let (ordered, mid, outputs) = cloak_values(&vec![peso(3), peso(6)]).unwrap();
    assert_eq!(outputs, vec![zero(), peso(9)]);
    assert!(mix_chain_holds(&ordered, &mid, &outputs));
}

#[test]
fn different_flavors_cannot_merge() {
    assert!(!mix_holds(&peso(3), &yuan(3), &peso(0), &yuan(6)));
    assert!(mix_holds(&peso(3), &yuan(3), &peso(3), &yuan(3)));
}

#[test]
fn three_values_partial_merge() {
    let inputs = vec![peso(3), peso(6), yuan(1)];
    let (ordered, mid, outputs) = cloak_values(&inputs).unwrap();
    assert_eq!(ordered, inputs);
    assert_eq!(mid, vec![peso(9)]);
    assert_eq!(outputs, vec![zero(), peso(9), yuan(1)]);
    assert!(mix_chain_holds(&inputs, &vec![peso(9)], &vec![peso(0), peso(9), yuan(1)]));
    assert!(!mix_chain_holds(&inputs, &vec![peso(9)], &vec![peso(0), peso(8), yuan(1)]));
    assert!(!mix_chain_holds(&inputs, &vec![peso(9)], &vec![peso(0), peso(10), yuan(1)]));
}

#[test]
fn grouped_sequence_is_kept() {
    assert_eq!(order_by_flavor(&vec![yuan(1), peso(2)]), vec![yuan(1), peso(2)]);
    let distinct = vec![val((1, 1)), val((2, 2)), val((3, 3)), val((4, 4))];
    assert_eq!(order_by_flavor(&distinct), distinct);
}

#[test]
fn merge_overflow_is_refused() {
    let big = Value { q: i128::MAX, f: Scalar::from(666u64) };
    assert_eq!(combine_by_flavor(&vec![big, peso(1)]), Err(CloakError::Overflow));
    assert_eq!(cloak_values(&vec![big, peso(1)]), Err(CloakError::Overflow));
    let low = Value { q: i128::MIN, f: Scalar::from(666u64) };
    let minus_one = Value { q: -1, f: Scalar::from(666u64) };
    assert_eq!(combine_by_flavor(&vec![low, minus_one]), Err(CloakError::Overflow));
    // No addition is made when the flavors differ.
    assert_eq!(
        combine_by_flavor(&vec![big, yuan(1)]),
        Ok((vec![], vec![big, yuan(1)]))
    );
}

#[test]
fn gate_count_depends_on_length_only() {
    let patterns = vec![
        vec![peso(1), peso(2), peso(3), peso(4)],
        vec![peso(1), yuan(2), peso(3), yuan(4)],
        vec![val((1, 1)), val((2, 2)), val((3, 3)), val((4, 4))],
    ];
    for inputs in patterns {
        let (ordered, mid, outputs) = cloak_values(&inputs).unwrap();
        assert_eq!(mid.len(), 2);
        assert_eq!(outputs.len(), 4);
        let gates = mix_gate_wiring(&ordered, &mid, &outputs).unwrap();
        assert_eq!(gates.len(), 3);
        assert!(mix_chain_holds(&ordered, &mid, &outputs));
    }
}

#[test]
fn wiring_order_of_gates() {
    let gates = mix_gate_wiring(&vec![10u32, 11, 12, 13], &vec![20u32, 21], &vec![30u32, 31, 32, 33])
        .unwrap();
    assert_eq!(gates, vec![(10, 11, 30, 20), (20, 12, 31, 21), (21, 13, 32, 33)]);
}

#[test]
fn wiring_refuses_wrong_lengths() {
    assert_eq!(
        mix_gate_wiring(&vec![1u32, 2, 3], &vec![], &vec![1u32, 2, 3]),
        Err(CloakError::LengthMismatch)
    );
    assert_eq!(
        mix_gate_wiring(&vec![1u32, 2], &vec![], &vec![1u32, 2, 3]),
        Err(CloakError::LengthMismatch)
    );
    assert_eq!(mix_gate_wiring(&vec![1u32], &vec![], &vec![1u32]), Err(CloakError::LengthMismatch));
    assert!(!mix_chain_holds(&vec![peso(1), peso(2)], &vec![peso(3)], &vec![peso(0), peso(3)]));
}

#[test]
fn assignments_are_collected_only_when_all_known() {
    assert_eq!(
        collect_assignments(&vec![Some(peso(1)), Some(yuan(2))]),
        Some(vec![peso(1), yuan(2)])
    );
    assert_eq!(collect_assignments(&vec![Some(peso(1)), None]), None);
}

#[test]
fn zero_value_has_zero_flavor() {
    assert_eq!(zero().f, Scalar::ZERO);
    assert_eq!(zero().q, 0);
}

#[test]
fn single_value_makes_no_merge_chain() {
    assert_eq!(combine_by_flavor(&vec![peso(1)]), Err(CloakError::LengthMismatch));
}

fn total(values: &[Value], f: Scalar) -> i128 {
    values.iter().filter(|v| v.f == f).map(|v| v.q).sum()
}

#[test]
fn cloak_conserves_each_flavor() {
    let inputs = vec![yuan(1), peso(3), yuan(2), peso(4), val((5, 7))];
    let (ordered, mid, outputs) = cloak_values(&inputs).unwrap();
    assert!(mix_chain_holds(&ordered, &mid, &outputs));
    for f in [Scalar::from(888u64), Scalar::from(666u64), Scalar::from(7u64)] {
        assert_eq!(total(&inputs, f), total(&outputs, f));
    }
    assert_eq!(outputs, vec![zero(), yuan(3), zero(), peso(7), val((5, 7))]);
}

#[test]
fn grouping_puts_each_flavor_together() {
    let inputs = vec![peso(1), yuan(2), val((3, 7)), peso(4), yuan(5), val((6, 7))];
    let out = order_by_flavor(&inputs);
    assert_eq!(out.len(), inputs.len());
    for i in 0..out.len() {
        for j in i + 1..out.len() {
            if out[j].f == out[i].f {
                assert_eq!(out[i + 1].f, out[i].f);
            }
        }
    }
}

fn dot(coeffs: &[Scalar], wires: &[Scalar]) -> Scalar {
    coeffs.iter().zip(wires.iter()).map(|(c, x)| c * x).sum()
}

fn wires(a: Value, b: Value, c: Value, d: Value) -> Vec<Scalar> {
    [a, b, c, d]
        .iter()
        .flat_map(|v| [Scalar::from(v.q as u64), v.f])
        .collect()
}

#[test]
fn gate_coefficients_for_small_challenge() {
    let (l, r) = gate_coefficients(&Scalar::from(2u64));
    let s = |n: u64| Scalar::from(n);
    assert_eq!(l, vec![s(1), s(2), s(4), s(8), -s(1), -s(2), -s(4), -s(8)]);
    assert_eq!(r, vec![-s(4), s(2) - s(8), -s(4), -s(2), s(1), s(0), s(4), s(8)]);
}

#[test]
fn gate_constraint_vanishes_exactly_on_the_relation() {
    let w = Scalar::from(1234567u64);
    let (l, r) = gate_coefficients(&w);
    let product = |a, b, c, d| {
        let x = wires(a, b, c, d);
        dot(&l, &x) * dot(&r, &x)
    };
    // merge and pass-through hold
    assert_eq!(product(peso(3), peso(6), zero(), peso(9)), Scalar::ZERO);
    assert_eq!(product(peso(3), yuan(3), peso(3), yuan(3)), Scalar::ZERO);
    // quantity not conserved, or two flavors merged
    assert_ne!(product(peso(3), peso(6), zero(), peso(8)), Scalar::ZERO);
    assert_ne!(product(peso(3), yuan(3), peso(0), yuan(6)), Scalar::ZERO);
}
