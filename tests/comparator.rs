use comparator_gadget::circuit::{Bit, ConstraintSystem, Gate, SynthesisError};
use comparator_gadget::comparator::{bitwise_less_than, ComparatorGadget, EvaluateLtGadget};
use comparator_gadget::uint::{UInt128, UInt16, UInt32, UInt64, UInt8};

const ROOM: usize = 10_000;

fn lt8(x: u8, y: u8) -> bool {
    let mut cs = ConstraintSystem::new(ROOM);
    let a = UInt8::allocate(&mut cs, x).unwrap();
    let b = UInt8::allocate(&mut cs, y).unwrap();
    let r = a.less_than(&mut cs, &b).unwrap();
    cs.value(r)
}

fn gt8(x: u8, y: u8) -> bool {
    let mut cs = ConstraintSystem::new(ROOM);
    let a = UInt8::allocate(&mut cs, x).unwrap();
    let b = UInt8::allocate(&mut cs, y).unwrap();
    let r = a.greater_than(&mut cs, &b).unwrap();
    cs.value(r)
}

fn le8(x: u8, y: u8) -> bool {
    let mut cs = ConstraintSystem::new(ROOM);
    let a = UInt8::allocate(&mut cs, x).unwrap();
    let b = UInt8::allocate(&mut cs, y).unwrap();
    let r = a.less_than_or_equal(&mut cs, &b).unwrap();
    cs.value(r)
}

fn ge8(x: u8, y: u8) -> bool {
    let mut cs = ConstraintSystem::new(ROOM);
    let a = UInt8::allocate(&mut cs, x).unwrap();
    let b = UInt8::allocate(&mut cs, y).unwrap();
    let r = a.greater_than_or_equal(&mut cs, &b).unwrap();
    cs.value(r)
}

#[test]
fn less_than_zero_one() {
    assert!(lt8(0, 1));
}

#[test]
fn less_than_max_max() {
    assert!(!lt8(255, 255));
}

#[test]
fn less_than_max_zero() {
    assert!(!lt8(255, 0));
}

#[test]
fn less_than_zero_max() {
    assert!(lt8(0, 255));
}

#[test]
fn greater_than_or_equal_equal_values() {
    assert!(ge8(128, 128));
}

#[test]
fn less_than_or_equal_larger_first() {
    assert!(!le8(200, 100));
}

#[test]
fn all_8_bit_pairs_match_integer_order() {
    for x in (0u16..256).step_by(5) {
        for y in 0u16..256 {
            let (x, y) = (x as u8, y as u8);
            assert_eq!(lt8(x, y), x < y, "{} < {}", x, y);
        }
    }
}

#[test]
fn derived_relations_match_integer_order() {
    let samples = [0u8, 1, 2, 7, 8, 100, 127, 128, 129, 200, 254, 255];
    for &x in samples.iter() {
        for &y in samples.iter() {
            assert_eq!(gt8(x, y), x > y);
            assert_eq!(le8(x, y), x <= y);
            assert_eq!(ge8(x, y), x >= y);
        }
    }
}

#[test]
fn trichotomy_and_consistency() {
    let samples = [0u8, 3, 64, 65, 128, 255];
    for &x in samples.iter() {
        for &y in samples.iter() {
            let lt = lt8(x, y);
            let gt = gt8(x, y);
            let held = [lt, x == y, gt].iter().filter(|b| **b).count();
            assert_eq!(held, 1);
            assert_eq!(le8(x, y), !gt);
            assert_eq!(ge8(x, y), le8(y, x));
        }
    }
}

#[test]
fn reflexivity() {
    for x in [0u8, 1, 77, 255] {
        assert!(!lt8(x, x));
        assert!(le8(x, x));
    }
}

#[test]
fn antisymmetry() {
    for x in [0u8, 5, 6, 250] {
        for y in [0u8, 5, 6, 250] {
            assert!(!(lt8(x, y) && lt8(y, x)));
        }
    }
}

#[test]
fn wider_operands() {
    let mut cs = ConstraintSystem::new(ROOM);
    let a = UInt16::allocate(&mut cs, 0x1234).unwrap();
    let b = UInt16::allocate(&mut cs, 0x1235).unwrap();
    let r = a.less_than(&mut cs, &b).unwrap();
    assert!(cs.value(r));

    let a = UInt32::allocate(&mut cs, 0x8000_0000).unwrap();
    let b = UInt32::allocate(&mut cs, 0x7fff_ffff).unwrap();
    let r = a.less_than(&mut cs, &b).unwrap();
    assert!(!cs.value(r));
    let r = a.greater_than(&mut cs, &b).unwrap();
    assert!(cs.value(r));

    let a = UInt64::allocate(&mut cs, u64::MAX - 1).unwrap();
    let b = UInt64::allocate(&mut cs, u64::MAX).unwrap();
    let r = a.less_than(&mut cs, &b).unwrap();
    assert!(cs.value(r));

    let a = UInt128::allocate(&mut cs, u128::MAX).unwrap();
    let b = UInt128::allocate(&mut cs, u128::MAX).unwrap();
    let r = a.less_than(&mut cs, &b).unwrap();
    assert!(!cs.value(r));
    let r = a.greater_than_or_equal(&mut cs, &b).unwrap();
    assert!(cs.value(r));
    let c = UInt128::allocate(&mut cs, 1u128 << 127).unwrap();
    let r = c.less_than(&mut cs, &a).unwrap();
    assert!(cs.value(r));
}

#[test]
fn allocation_holds_bits_least_significant_first() {
    let mut cs = ConstraintSystem::new(ROOM);
    let a = UInt8::allocate(&mut cs, 0b0000_0110).unwrap();
    let values: Vec<bool> = a.bits().iter().map(|b| cs.value(*b)).collect();
    assert_eq!(values, vec![false, true, true, false, false, false, false, false]);
    assert_eq!(cs.num_wires(), 8);
}

#[test]
fn constraint_count_depends_on_width_alone() {
    for (x, y) in [(0u8, 0u8), (0, 255), (255, 0), (17, 42)] {
        let mut cs = ConstraintSystem::new(ROOM);
        let a = UInt8::allocate(&mut cs, x).unwrap();
        let b = UInt8::allocate(&mut cs, y).unwrap();
        let before = cs.num_wires();
        a.less_than(&mut cs, &b).unwrap();
        assert_eq!(cs.num_wires() - before, 5 * 8 + 1);
    }
    let mut cs = ConstraintSystem::new(ROOM);
    let a = UInt64::allocate(&mut cs, 9).unwrap();
    let b = UInt64::allocate(&mut cs, 3).unwrap();
    let before = cs.num_wires();
    a.less_than_or_equal(&mut cs, &b).unwrap();
    assert_eq!(cs.num_wires() - before, 5 * 64 + 1);
}

#[test]
fn comparison_fails_without_room() {
    let mut cs = ConstraintSystem::new(16 + 40);
    let a = UInt8::allocate(&mut cs, 1).unwrap();
    let b = UInt8::allocate(&mut cs, 2).unwrap();
    assert_eq!(a.less_than(&mut cs, &b), Err(SynthesisError::CapacityExhausted));
    assert_eq!(cs.num_wires(), 16 + 40);

    let mut cs = ConstraintSystem::new(16 + 41);
    let a = UInt8::allocate(&mut cs, 1).unwrap();
    let b = UInt8::allocate(&mut cs, 2).unwrap();
    assert!(a.less_than(&mut cs, &b).is_ok());
}

#[test]
fn allocation_fails_without_room() {
    let mut cs = ConstraintSystem::new(7);
    assert_eq!(UInt8::allocate(&mut cs, 3).err(), Some(SynthesisError::CapacityExhausted));
}

#[test]
fn scan_over_constant_bits() {
    let mut cs = ConstraintSystem::new(ROOM);
    let five = vec![Bit::constant(true), Bit::constant(false), Bit::constant(true)];
    let six = vec![Bit::constant(false), Bit::constant(true), Bit::constant(true)];
    let r = bitwise_less_than(&mut cs, &five, &six).unwrap();
    assert!(cs.value(r));
    let r = bitwise_less_than(&mut cs, &six, &five).unwrap();
    assert!(!cs.value(r));
    let empty: Vec<Bit> = Vec::new();
    let r = bitwise_less_than(&mut cs, &empty, &empty).unwrap();
    assert!(!cs.value(r));
}

#[test]
fn gates_and_negation() {
    let mut cs = ConstraintSystem::new(ROOM);
    let t = cs.alloc_input(true).unwrap();
    let f = cs.alloc_input(false).unwrap();
    assert_eq!(t.not(), Bit::Not(0));
    assert!(!cs.value(t.not()));
    let and = cs.enforce(Gate::And(t, f)).unwrap();
    let or = cs.enforce(Gate::Or(t, f)).unwrap();
    let xor = cs.enforce(Gate::Xor(t, t)).unwrap();
    assert!(!cs.value(and));
    assert!(cs.value(or));
    assert!(!cs.value(xor));
    let s = cs.enforce(Gate::Select(f, t, f)).unwrap();
    assert!(!cs.value(s));
    assert_eq!(Bit::constant(false).not(), Bit::Constant(true));
}
