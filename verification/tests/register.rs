use num::complex::Complex64;
use qreg::{basis_ket, ket, Basis, QuantumRegister, Tensor};
use rand::rngs::StdRng;
use rand::{RngCore, SeedableRng};

fn c(re: f64, im: f64) -> Complex64 {
    Complex64::new(re, im)
}

fn entangled() -> Tensor {
    let zero = basis_ket(Basis::Zero);
    let one = basis_ket(Basis::One);
    let sum = zero.prod(&zero).add(&one.prod(&one));
    sum.scale_down(&c(2f64.sqrt(), 0.0))
}

fn three_qubits() -> Tensor {
    let data: Vec<Complex64> = (0..8).map(|k| c(1.0 + k as f64, 0.5 * k as f64 - 2.0)).collect();
    ket(data).unit()
}

#[test]
fn new_keeps_state_and_bits() {
    let r = QuantumRegister::new(entangled(), 2);
    assert_eq!(r.bits(), 2);
    assert_eq!(r.state().shape(), (4, 1));
    assert_eq!(r.state().data(), entangled().data());
}

#[test]
fn entangled_state_is_normalized() {
    let h = 1.0 / 2f64.sqrt();
    let state = entangled();
    assert_eq!(state.data(), &vec![c(h, 0.0), c(0.0, 0.0), c(0.0, 0.0), c(h, 0.0)]);
    assert!((state.norm_sqr().re - 1.0).abs() < 1e-15);
}

#[test]
fn branch_projects_onto_the_measured_value() {
    let h = 1.0 / 2f64.sqrt();
    let r = QuantumRegister::new(entangled(), 2);
    for bit in 0..2 {
        let zero = r.branch(bit, false);
        assert_eq!(zero.shape(), (4, 1));
        assert_eq!(zero.data(), &vec![c(h, 0.0), c(0.0, 0.0), c(0.0, 0.0), c(0.0, 0.0)]);
        let one = r.branch(bit, true);
        assert_eq!(one.shape(), (4, 1));
        assert_eq!(one.data(), &vec![c(0.0, 0.0), c(0.0, 0.0), c(0.0, 0.0), c(h, 0.0)]);
    }
}

#[test]
fn branch_takes_position_zero_as_the_leftmost_qubit() {
    // The state |01>: qubit 0 is 0, qubit 1 is 1.
    let state = basis_ket(Basis::Zero).prod(&basis_ket(Basis::One));
    let r = QuantumRegister::new(state, 2);
    assert_eq!(r.probability(0, false), c(1.0, 0.0));
    assert_eq!(r.probability(0, true), c(0.0, 0.0));
    assert_eq!(r.probability(1, false), c(0.0, 0.0));
    assert_eq!(r.probability(1, true), c(1.0, 0.0));
}

#[test]
fn probability_is_the_squared_norm_of_the_branch() {
    let state = ket(vec![c(0.6, 0.0), c(0.0, 0.8)]);
    let r = QuantumRegister::new(state, 1);
    assert_eq!(r.probability(0, false), c(0.36, 0.0));
    assert!((r.probability(0, true).re - 0.64).abs() < 1e-15);
    assert_eq!(r.probability(0, true).im, 0.0);
}

#[test]
fn probabilities_sum_to_one() {
    let r = QuantumRegister::new(entangled(), 2);
    for bit in 0..2 {
        let total = r.probability(bit, false).re + r.probability(bit, true).re;
        assert!((total - 1.0).abs() < 1e-12);
    }
    let r = QuantumRegister::new(three_qubits(), 3);
    for bit in 0..3 {
        let total = r.probability(bit, false).re + r.probability(bit, true).re;
        assert!((total - 1.0).abs() < 1e-12);
    }
    let r = QuantumRegister::new(basis_ket(Basis::Plus), 1);
    let total = r.probability(0, false).re + r.probability(0, true).re;
    assert!((total - 1.0).abs() < 1e-12);
}

#[test]
fn collapse_normalizes_the_chosen_branch() {
    let mut r = QuantumRegister::new(entangled(), 2);
    r.collapse(0, true);
    assert_eq!(r.bits(), 2);
    assert_eq!(r.state().shape(), (4, 1));
    assert_eq!(r.state().data(), &vec![c(0.0, 0.0), c(0.0, 0.0), c(0.0, 0.0), c(1.0, 0.0)]);

    let mut r = QuantumRegister::new(entangled(), 2);
    r.collapse(1, false);
    assert_eq!(r.state().data(), &vec![c(1.0, 0.0), c(0.0, 0.0), c(0.0, 0.0), c(0.0, 0.0)]);
}

#[test]
fn collapse_keeps_the_other_qubits_in_superposition() {
    let state = basis_ket(Basis::Plus).prod(&basis_ket(Basis::Plus));
    let mut r = QuantumRegister::new(state, 2);
    r.collapse(0, true);
    let h = 1.0 / 2f64.sqrt();
    let expected = [c(0.0, 0.0), c(0.0, 0.0), c(h, 0.0), c(h, 0.0)];
    for (got, want) in r.state().data().iter().zip(expected.iter()) {
        assert!((got - want).norm() < 1e-15);
    }
}

#[test]
fn collapse_onto_an_impossible_value_is_not_a_number() {
    let mut r = QuantumRegister::new(basis_ket(Basis::Zero), 1);
    r.collapse(0, true);
    assert_eq!(r.state().shape(), (2, 1));
    assert!(r.state().data().iter().all(|x| x.re.is_nan()));
}

#[test]
fn measure_of_a_basis_state_is_certain() {
    for _ in 0..50 {
        let mut r = QuantumRegister::new(basis_ket(Basis::One), 1);
        assert!(r.measure(0));
        assert_eq!(r.state().data(), &vec![c(0.0, 0.0), c(1.0, 0.0)]);

        let mut r = QuantumRegister::new(basis_ket(Basis::Zero), 1);
        assert!(!r.measure(0));
        assert_eq!(r.state().data(), &vec![c(1.0, 0.0), c(0.0, 0.0)]);
    }
}

#[test]
fn measure_leaves_the_state_of_the_value_drawn() {
    for _ in 0..50 {
        let mut r = QuantumRegister::new(entangled(), 2);
        let mut expected = QuantumRegister::new(entangled(), 2);
        let outcome = r.measure(0);
        expected.collapse(0, outcome);
        assert_eq!(r.state().data(), expected.state().data());
    }
}

#[test]
fn measuring_a_bit_twice_gives_the_same_value() {
    for round in 0..100 {
        let mut r = QuantumRegister::new(three_qubits(), 3);
        let bit = round % 3;
        let first = r.try_measure(bit).expect("the state is normalized");
        let norm = r.state().norm().re;
        assert!((norm - 1.0).abs() < 1e-12);
        let second = r.try_measure(bit).expect("the state is still normalized");
        assert_eq!(first, second);
        let norm = r.state().norm().re;
        assert!((norm - 1.0).abs() < 1e-12);
    }
}

#[test]
fn measuring_again_after_either_value_repeats_it() {
    for bit in 0..3 {
        for value in [false, true] {
            let mut r = QuantumRegister::new(three_qubits(), 3);
            r.collapse(bit, value);
            assert!((r.state().norm().re - 1.0).abs() < 1e-12);
            assert!((r.probability(bit, value).re - 1.0).abs() < 1e-12);
            assert!(r.probability(bit, !value).re.abs() < 1e-12);
            assert_eq!(r.try_measure(bit), Some(value));
            assert!((r.state().norm().re - 1.0).abs() < 1e-12);
        }
    }
}

#[test]
fn entangled_bits_are_measured_alike() {
    let runs = 1000;
    let mut ones = 0;
    for _ in 0..runs {
        let mut r = QuantumRegister::new(entangled(), 2);
        let first = r.try_measure(0).expect("the state is normalized");
        let second = r.try_measure(1).expect("the state is still normalized");
        assert_eq!(first, second);
        if first {
            ones += 1;
        }
    }
    let frequency = ones as f64 / runs as f64;
    assert!(frequency > 0.4 && frequency < 0.6);
}

#[test]
fn entangled_bits_are_measured_alike_from_the_other_side() {
    for _ in 0..200 {
        let mut r = QuantumRegister::new(entangled(), 2);
        let second = r.try_measure(1).expect("the state is normalized");
        let first = r.try_measure(0).expect("the state is still normalized");
        assert_eq!(first, second);
    }
}

#[test]
fn try_measure_refuses_a_probability_above_one() {
    let state = ket(vec![c(0.0, 0.0), c(2.0, 0.0)]);
    let mut r = QuantumRegister::new(state, 1);
    assert_eq!(r.probability(0, true), c(4.0, 0.0));
    assert_eq!(r.try_measure(0), None);
    assert_eq!(r.state().data(), &vec![c(0.0, 0.0), c(2.0, 0.0)]);
    assert_eq!(r.bits(), 1);
}

#[test]
fn try_measure_refuses_a_probability_that_is_not_a_number() {
    let state = ket(vec![c(0.0, 0.0), c(f64::NAN, 0.0)]);
    let mut r = QuantumRegister::new(state, 1);
    assert_eq!(r.try_measure(0), None);
    assert_eq!(r.state().data()[0], c(0.0, 0.0));
    assert!(r.state().data()[1].re.is_nan());
}

#[test]
fn try_measure_accepts_the_probabilities_zero_and_one() {
    let mut r = QuantumRegister::new(basis_ket(Basis::Zero), 1);
    assert_eq!(r.try_measure(0), Some(false));
    let mut r = QuantumRegister::new(basis_ket(Basis::One), 1);
    assert_eq!(r.try_measure(0), Some(true));
}

#[test]
fn try_measure_accepts_a_state_that_is_too_short() {
    // The probability of 1 is 0.25, which the generator accepts though the
    // state is not normalized.
    let state = ket(vec![c(0.5, 0.0), c(0.5, 0.0)]);
    let mut r = QuantumRegister::new(state, 1);
    let outcome = r.try_measure(0).expect("0.25 is a probability");
    let expected = if outcome { vec![c(0.0, 0.0), c(1.0, 0.0)] } else { vec![c(1.0, 0.0), c(0.0, 0.0)] };
    assert_eq!(r.state().data(), &expected);
}

#[test]
fn measuring_beyond_the_register_projects_nothing() {
    let mut r = QuantumRegister::new(basis_ket(Basis::Zero).prod(&basis_ket(Basis::One)), 2);
    assert_eq!(r.probability(2, false), c(1.0, 0.0));
    assert_eq!(r.probability(2, true), c(1.0, 0.0));
    assert_eq!(r.try_measure(2), Some(true));
    assert_eq!(r.state().data(), &vec![c(0.0, 0.0), c(1.0, 0.0), c(0.0, 0.0), c(0.0, 0.0)]);
}

#[test]
fn plus_state_is_measured_both_ways() {
    let mut ones = 0;
    let runs = 1000;
    for _ in 0..runs {
        let mut r = QuantumRegister::new(basis_ket(Basis::Plus), 1);
        if r.try_measure(0).expect("the state is normalized") {
            ones += 1;
            assert!((r.state().data()[1] - c(1.0, 0.0)).norm() < 1e-15);
        } else {
            assert!((r.state().data()[0] - c(1.0, 0.0)).norm() < 1e-15);
        }
    }
    assert!(ones > 400 && ones < 600);
}

#[test]
fn seeded_measurements_repeat() {
    let mut first_run = Vec::new();
    let mut rng = StdRng::seed_from_u64(2024);
    for _ in 0..64 {
        let mut r = QuantumRegister::new(basis_ket(Basis::Plus), 1);
        first_run.push(r.measure_with(0, &mut rng));
    }
    let mut second_run = Vec::new();
    let mut rng = StdRng::seed_from_u64(2024);
    for _ in 0..64 {
        let mut r = QuantumRegister::new(basis_ket(Basis::Plus), 1);
        second_run.push(r.measure_with(0, &mut rng));
    }
    assert_eq!(first_run, second_run);
    assert!(first_run.iter().any(|v| *v));
    assert!(first_run.iter().any(|v| !*v));
}

#[test]
fn seeded_measure_leaves_the_state_of_the_value_drawn() {
    let mut rng = StdRng::seed_from_u64(11);
    for _ in 0..50 {
        let mut r = QuantumRegister::new(three_qubits(), 3);
        let mut expected = QuantumRegister::new(three_qubits(), 3);
        let outcome = r.measure_with(1, &mut rng);
        expected.collapse(1, outcome);
        assert_eq!(r.state().data(), expected.state().data());
    }
}

#[test]
fn seeded_entangled_bits_are_measured_alike() {
    let mut rng = StdRng::seed_from_u64(5);
    let runs = 1000;
    let mut ones = 0;
    for _ in 0..runs {
        let mut r = QuantumRegister::new(entangled(), 2);
        let first = r.try_measure_with(0, &mut rng).expect("the state is normalized");
        let second = r.try_measure_with(1, &mut rng).expect("the state is still normalized");
        assert_eq!(first, second);
        if first {
            ones += 1;
        }
    }
    assert!(ones > 400 && ones < 600);
}

#[test]
fn try_measure_with_leaves_the_generator_where_it_refuses() {
    let mut rng = StdRng::seed_from_u64(3);
    let untouched = rng.clone().next_u64();
    let mut r = QuantumRegister::new(ket(vec![c(0.0, 0.0), c(2.0, 0.0)]), 1);
    assert_eq!(r.try_measure_with(0, &mut rng), None);
    assert_eq!(r.state().data(), &vec![c(0.0, 0.0), c(2.0, 0.0)]);
    assert_eq!(rng.next_u64(), untouched);
}

#[test]
fn try_measure_with_draws_where_it_accepts() {
    let mut rng = StdRng::seed_from_u64(3);
    let mut r = QuantumRegister::new(basis_ket(Basis::One), 1);
    assert_eq!(r.try_measure_with(0, &mut rng), Some(true));
    let mut r = QuantumRegister::new(basis_ket(Basis::Zero), 1);
    assert_eq!(r.try_measure_with(0, &mut rng), Some(false));
}
