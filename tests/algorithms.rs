use homaya_algorithms::bernstein_vazirani::find_secret;
use homaya_algorithms::bits::binary_string;
use homaya_algorithms::circuit::{Circuit, Gate};
use homaya_algorithms::deutsch::FunctionType;
use homaya_algorithms::grover::search;
use homaya_algorithms::{BernsteinVazirani, DeutschJozsa, GroverSearch, InvalidParameter};

#[test]
fn bernstein_vazirani_test_circuit_size() {
    let bv = BernsteinVazirani::new(4, 0b1010).unwrap();
    let circuit = bv.build();
    assert_eq!(circuit.num_qubits(), 5);
}

#[test]
fn test_secret_binary() {
    let bv = BernsteinVazirani::new(4, 0b1010).unwrap();
    assert_eq!(bv.secret_as_binary(), "1010");

    let bv = BernsteinVazirani::new(4, 0b0101).unwrap();
    assert_eq!(bv.secret_as_binary(), "0101");
}

#[test]
fn test_invalid_secret() {
    let r = BernsteinVazirani::new(4, 16);
    assert_eq!(r.unwrap_err(), InvalidParameter::ValueOutOfRange { value: 16, n_qubits: 4 });
}

#[test]
fn test_zero_secret() {
    let bv = BernsteinVazirani::new(3, 0).unwrap();
    let circuit = bv.build();
    assert_eq!(circuit.num_qubits(), 4);
}

#[test]
fn deutsch_test_circuit_size() {
    let dj = DeutschJozsa::new(3, FunctionType::BalancedParity).unwrap();
    let circuit = dj.build();
    assert_eq!(circuit.num_qubits(), 4);
}

#[test]
fn test_all_function_types() {
    for func in [
        FunctionType::ConstantZero,
        FunctionType::ConstantOne,
        FunctionType::BalancedParity,
        FunctionType::BalancedFirstBit,
    ] {
        let dj = DeutschJozsa::new(2, func).unwrap();
        let circuit = dj.build();
        assert_eq!(circuit.num_qubits(), 3);
    }
}

#[test]
fn test_is_constant() {
    assert!(DeutschJozsa::is_constant("000"));
    assert!(DeutschJozsa::is_constant("0000"));
    assert!(!DeutschJozsa::is_constant("001"));
    assert!(!DeutschJozsa::is_constant("100"));
}

#[test]
fn test_grover_creates_circuit() {
    let circuit = search(3, 5).unwrap();
    assert!(circuit.num_qubits() == 3);
}

#[test]
fn test_optimal_iterations() {
    let grover = GroverSearch::new(3, 5).unwrap();
    assert!(grover.optimal_iterations() == 2);

    let grover = GroverSearch::new(4, 11).unwrap();
    assert!(grover.optimal_iterations() == 3);
}

#[test]
fn test_success_probability() {
    let grover = GroverSearch::new(3, 5).unwrap();
    let n = (1u64 << 3) as f64;
    let theta = (1.0 / n.sqrt()).asin();
    let k = grover.optimal_iterations() as f64;
    let prob = ((2.0 * k + 1.0) * theta).sin().powi(2);
    assert!(prob > 0.9, "Success probability {} too low", prob);
}

#[test]
fn test_invalid_target() {
    let r = GroverSearch::new(4, 16);
    assert_eq!(r.unwrap_err(), InvalidParameter::ValueOutOfRange { value: 16, n_qubits: 4 });
}

#[test]
fn bernstein_vazirani_gate_sequence() {
    let c = BernsteinVazirani::new(3, 0b101).unwrap().build();
    let expected = vec![
        Gate::X(3),
        Gate::H(0),
        Gate::H(1),
        Gate::H(2),
        Gate::H(3),
        Gate::Cx(0, 3),
        Gate::Cx(2, 3),
        Gate::H(0),
        Gate::H(1),
        Gate::H(2),
        Gate::Measure(0, 0),
        Gate::Measure(1, 1),
        Gate::Measure(2, 2),
    ];
    assert_eq!(c.gates(), expected.as_slice());
}

#[test]
fn bernstein_vazirani_secret_digits_read_back() {
    for n in 1..=6usize {
        for s in 0..(1usize << n) {
            let digits = BernsteinVazirani::new(n, s).unwrap().secret_as_binary();
            assert_eq!(digits.len(), n);
            assert_eq!(usize::from_str_radix(&digits, 2).unwrap(), s);
        }
    }
    assert_eq!(BernsteinVazirani::new(4, 0).unwrap().secret_as_binary(), "0000");
}

#[test]
fn bernstein_vazirani_rejects_every_value_past_range() {
    for n in 1..=6usize {
        assert!(BernsteinVazirani::new(n, 1 << n).is_err());
        assert!(BernsteinVazirani::new(n, (1 << n) + 7).is_err());
        assert!(BernsteinVazirani::new(n, (1 << n) - 1).is_ok());
    }
    assert!(BernsteinVazirani::new(64, usize::MAX).is_ok());
    assert!(BernsteinVazirani::new(63, usize::MAX).is_err());
}

#[test]
fn find_secret_matches_build() {
    let c = find_secret(4, 0b1010).unwrap();
    assert_eq!(c.num_qubits(), 5);
    assert_eq!(c.gates(), BernsteinVazirani::new(4, 0b1010).unwrap().build().gates());
    assert_eq!(
        find_secret(4, 16).unwrap_err(),
        InvalidParameter::ValueOutOfRange { value: 16, n_qubits: 4 }
    );
}

#[test]
fn binary_string_pads_with_zeros() {
    assert_eq!(binary_string(5, 6), "000101");
    assert_eq!(binary_string(6, 2), "10");
    assert_eq!(binary_string(1, 0), "");
    assert_eq!(binary_string(usize::MAX, 66), format!("00{}", "1".repeat(64)));
}

#[test]
fn deutsch_jozsa_oracles() {
    let oracle = |f: FunctionType| -> Vec<Gate> {
        let g = DeutschJozsa::new(2, f).unwrap().build().gates().to_vec();
        g[4..g.len() - 4].to_vec()
    };
    assert_eq!(oracle(FunctionType::ConstantZero), vec![]);
    assert_eq!(oracle(FunctionType::ConstantOne), vec![Gate::X(2)]);
    assert_eq!(oracle(FunctionType::BalancedParity), vec![Gate::Cx(0, 2), Gate::Cx(1, 2)]);
    assert_eq!(oracle(FunctionType::BalancedFirstBit), vec![Gate::Cx(0, 2)]);
}

#[test]
fn deutsch_jozsa_needs_a_query_qubit() {
    assert_eq!(
        DeutschJozsa::new(0, FunctionType::ConstantOne).unwrap_err(),
        InvalidParameter::NoQueryQubits
    );
    for n in 1..=5usize {
        assert_eq!(DeutschJozsa::new(n, FunctionType::BalancedFirstBit).unwrap().build().num_qubits(), n + 1);
    }
}

#[test]
fn is_constant_edge_cases() {
    assert!(DeutschJozsa::is_constant("0"));
    assert!(!DeutschJozsa::is_constant("1"));
    assert!(!DeutschJozsa::is_constant("0a0"));
    assert!(!DeutschJozsa::is_constant("00\u{0660}"));
}

#[test]
fn grover_optimal_iterations_match_closed_form() {
    for n in 1..=63usize {
        let g = GroverSearch::new(n, 0).unwrap();
        let expected = ((std::f64::consts::PI / 4.0 * ((1u64 << n) as f64).sqrt()).round() as usize).max(1);
        assert_eq!(g.optimal_iterations(), expected, "n = {}", n);
    }
    assert_eq!(GroverSearch::new(1, 1).unwrap().optimal_iterations(), 1);
    assert_eq!(GroverSearch::new(2, 3).unwrap().optimal_iterations(), 2);
}

#[test]
fn grover_rejects_bad_parameters() {
    assert_eq!(GroverSearch::new(0, 0).unwrap_err(), InvalidParameter::NoQueryQubits);
    assert_eq!(
        search(3, 8).unwrap_err(),
        InvalidParameter::ValueOutOfRange { value: 8, n_qubits: 3 }
    );
    assert!(GroverSearch::new(4, 15).is_ok());
}

#[test]
fn grover_two_qubit_sequence() {
    let c = GroverSearch::new(2, 0b10).unwrap().with_iterations(1).build();
    let mcz = [Gate::H(1), Gate::Cx(0, 1), Gate::H(1)];
    let mut expected = vec![Gate::H(0), Gate::H(1)];
    expected.push(Gate::X(0));
    expected.extend_from_slice(&mcz);
    expected.push(Gate::X(0));
    expected.extend_from_slice(&[Gate::H(0), Gate::H(1), Gate::X(0), Gate::X(1)]);
    expected.extend_from_slice(&mcz);
    expected.extend_from_slice(&[Gate::X(0), Gate::X(1), Gate::H(0), Gate::H(1)]);
    expected.push(Gate::MeasureAll);
    assert_eq!(c.num_qubits(), 2);
    assert_eq!(c.gates(), expected.as_slice());
}

#[test]
fn grover_iteration_override() {
    let c = GroverSearch::new(3, 5).unwrap().with_iterations(0).build();
    assert_eq!(c.gates(), &[Gate::H(0), Gate::H(1), Gate::H(2), Gate::MeasureAll]);
    let one = GroverSearch::new(3, 5).unwrap().with_iterations(1).build().gates().len();
    let five = GroverSearch::new(3, 5).unwrap().with_iterations(5).build().gates().len();
    assert_eq!(five - 4, 5 * (one - 4));
    let default = search(3, 5).unwrap().gates().len();
    assert_eq!(default - 4, 2 * (one - 4));
}

#[test]
fn grover_single_and_wide_multi_controlled_z() {
    let c = GroverSearch::new(1, 1).unwrap().with_iterations(1).build();
    assert_eq!(
        c.gates(),
        &[Gate::H(0), Gate::Z(0), Gate::H(0), Gate::X(0), Gate::Z(0), Gate::X(0), Gate::H(0), Gate::MeasureAll]
    );
    let c = GroverSearch::new(4, 0b1111).unwrap().with_iterations(1).build();
    let g = c.gates();
    assert_eq!(&g[4..9], &[Gate::H(3), Gate::Cx(0, 3), Gate::Cx(1, 3), Gate::Cx(2, 3), Gate::H(3)]);
    let c = GroverSearch::new(3, 0b011).unwrap().with_iterations(1).build();
    let g = c.gates();
    assert_eq!(&g[3..8], &[Gate::X(2), Gate::H(2), Gate::Ccx(0, 1, 2), Gate::H(2), Gate::X(2)]);
}

#[test]
fn circuit_records_operations() {
    let mut c = Circuit::new(3);
    c.h(0);
    c.cx(0, 1);
    c.ccx(0, 1, 2);
    c.z(2);
    c.measure(2, 0);
    c.measure_all();
    assert_eq!(c.num_qubits(), 3);
    assert_eq!(
        c.gates(),
        &[Gate::H(0), Gate::Cx(0, 1), Gate::Ccx(0, 1, 2), Gate::Z(2), Gate::Measure(2, 0), Gate::MeasureAll]
    );
}

#[test]
fn grover_iteration_count_follows_override() {
    let g = GroverSearch::new(4, 11).unwrap();
    assert_eq!(g.n_qubits(), 4);
    assert_eq!(g.iteration_count(), 3);
    assert_eq!(g.with_iterations(7).iteration_count(), 7);
}
