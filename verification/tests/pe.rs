use simtpu::hardware::pe::{Pe, PeInputs, PeStrobes};

type TestPe = Pe<u8, u8, u8>;

fn inputs(weight: u8, act: u8, psum: u8, load_weight: bool, reset: bool) -> PeInputs<u8, u8, u8> {
    PeInputs { weight, act, psum, strobes: PeStrobes { load_weight, reset } }
}

#[test]
fn new_initializes_to_default() {
    let pe = TestPe::new().unwrap();
    assert_eq!(pe.weight(), 0);
    assert_eq!(pe.out_act(), 0);
    assert_eq!(pe.out_psum(), 0);
}

#[test]
fn compute_updates_activation_and_psum() {
    let mut pe = TestPe::new().unwrap();
    pe.tick(inputs(5, 0, 0, true, false)).unwrap();
    pe.tick(inputs(0, 3, 7, false, false)).unwrap();

    assert_eq!(pe.weight(), 5);
    assert_eq!(pe.out_act(), 3);
    assert_eq!(pe.out_psum(), 22); // 3 * 5 + 7
}

#[test]
fn multiple_compute_cycles_use_loaded_weight() {
    let mut pe = TestPe::new().unwrap();
    pe.tick(inputs(4, 0, 0, true, false)).unwrap();
    pe.tick(inputs(0, 2, 1, false, false)).unwrap();
    assert_eq!(pe.out_psum(), 9);
    pe.tick(inputs(0, 3, 10, false, false)).unwrap();
    assert_eq!(pe.out_psum(), 22);
    assert_eq!(pe.weight(), 4);
}

#[test]
fn reset_clears_all_state() {
    let mut pe = TestPe::new().unwrap();
    pe.tick(inputs(5, 2, 3, true, false)).unwrap();
    pe.tick(inputs(0, 4, 6, false, false)).unwrap();
    pe.tick(inputs(0, 0, 0, false, true)).unwrap();

    assert_eq!(pe.weight(), 0);
    assert_eq!(pe.out_act(), 0);
    assert_eq!(pe.out_psum(), 0);
}

#[test]
fn reset_has_priority_over_load_weight() {
    let mut pe = TestPe::new().unwrap();
    pe.tick(inputs(7, 0, 0, true, true)).unwrap();

    assert_eq!(pe.weight(), 0);
    assert_eq!(pe.out_act(), 0);
    assert_eq!(pe.out_psum(), 0);
}

#[test]
fn compute_uses_wrapping_arithmetic() {
    let mut pe = TestPe::new().unwrap();
    pe.tick(inputs(250, 0, 0, true, false)).unwrap();
    pe.tick(inputs(0, 2, 20, false, false)).unwrap();
    // 250 * 2 + 20 = 520 ≡ 8 (mod 256)
    assert_eq!(pe.out_psum(), 8);
}

#[test]
fn signed_words_widen_before_multiplying() {
    let mut pe: Pe<i8, i8, i32> = Pe::new().unwrap();
    pe.tick(PeInputs { weight: -128, act: 0, psum: 0, strobes: PeStrobes { load_weight: true, reset: false } }).unwrap();
    pe.tick(PeInputs { weight: 0, act: -128, psum: 5, strobes: PeStrobes { load_weight: false, reset: false } })
        .unwrap();
    assert_eq!(pe.out_psum(), 16389);
    assert_eq!(pe.out_act(), -128);
}

#[test]
fn signed_partial_sums_wrap() {
    let mut pe: Pe<i8, i8, i8> = Pe::new().unwrap();
    pe.tick(PeInputs { weight: 100, act: 0, psum: 0, strobes: PeStrobes { load_weight: true, reset: false } }).unwrap();
    pe.tick(PeInputs { weight: 0, act: 2, psum: 0, strobes: PeStrobes { load_weight: false, reset: false } }).unwrap();
    // 200 wraps to -56
    assert_eq!(pe.out_psum(), -56);
}
