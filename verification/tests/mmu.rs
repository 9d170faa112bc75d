use simtpu::hardware::mmu::{Mmu, MmuInputs, MmuStrobes};

type TestMmu = Mmu<u8, u8, u8, 2, 2>;

fn cycle(weights: [u8; 2], acts: [u8; 2], load: bool, reset: bool) -> MmuInputs<u8, u8, 2, 2> {
    MmuInputs { weights, acts, strobes: MmuStrobes { load_weight: [load, load], reset } }
}

#[test]
fn mmu_new_is_all_zero() {
    let mmu = TestMmu::new().unwrap();
    assert_eq!(mmu.out_acc(), [0, 0]);
    for i in 0..2 {
        for j in 0..2 {
            assert_eq!(mmu.pe(i, j).weight(), 0);
            assert_eq!(mmu.pe(i, j).out_psum(), 0);
        }
    }
}

#[test]
fn mmu_weights_shift_down_the_columns() {
    let mut mmu = TestMmu::new().unwrap();
    mmu.tick(cycle([1, 2], [0, 0], true, false)).unwrap();
    assert_eq!((mmu.pe(0, 0).weight(), mmu.pe(0, 1).weight()), (1, 2));
    assert_eq!((mmu.pe(1, 0).weight(), mmu.pe(1, 1).weight()), (0, 0));
    mmu.tick(cycle([3, 4], [0, 0], true, false)).unwrap();
    assert_eq!((mmu.pe(0, 0).weight(), mmu.pe(0, 1).weight()), (3, 4));
    assert_eq!((mmu.pe(1, 0).weight(), mmu.pe(1, 1).weight()), (1, 2));
}

#[test]
fn mmu_partial_sums_flow_down_and_activations_right() {
    let mut mmu = TestMmu::new().unwrap();
    mmu.tick(cycle([1, 2], [0, 0], true, false)).unwrap();
    mmu.tick(cycle([3, 4], [0, 0], true, false)).unwrap();
    mmu.tick(cycle([0, 0], [5, 6], false, false)).unwrap();
    assert_eq!(mmu.out_acc(), [6, 0]);
    assert_eq!(mmu.pe(0, 0).out_psum(), 15);
    mmu.tick(cycle([0, 0], [7, 8], false, false)).unwrap();
    assert_eq!(mmu.out_acc(), [23, 12]);
    assert_eq!(mmu.pe(0, 1).out_psum(), 20);
    assert_eq!(mmu.pe(0, 0).out_psum(), 21);
}

#[test]
fn mmu_reset_clears_every_element() {
    let mut mmu = TestMmu::new().unwrap();
    mmu.tick(cycle([1, 2], [0, 0], true, false)).unwrap();
    mmu.tick(cycle([0, 0], [5, 6], false, false)).unwrap();
    mmu.tick(cycle([9, 9], [9, 9], true, true)).unwrap();
    assert_eq!(mmu.out_acc(), [0, 0]);
    for i in 0..2 {
        for j in 0..2 {
            assert_eq!(mmu.pe(i, j).weight(), 0);
            assert_eq!(mmu.pe(i, j).out_act(), 0);
            assert_eq!(mmu.pe(i, j).out_psum(), 0);
        }
    }
}

#[test]
fn mmu_loading_weights_keeps_activations_and_sums() {
    let mut mmu = TestMmu::new().unwrap();
    mmu.tick(cycle([1, 2], [0, 0], true, false)).unwrap();
    mmu.tick(cycle([3, 4], [0, 0], true, false)).unwrap();
    mmu.tick(cycle([0, 0], [5, 6], false, false)).unwrap();
    assert_eq!(mmu.pe(0, 0).out_psum(), 15);
    assert_eq!(mmu.out_acc(), [6, 0]);
    mmu.tick(cycle([7, 8], [9, 9], true, false)).unwrap();
    assert_eq!((mmu.pe(0, 0).weight(), mmu.pe(0, 1).weight()), (7, 8));
    assert_eq!((mmu.pe(1, 0).weight(), mmu.pe(1, 1).weight()), (3, 4));
    assert_eq!(mmu.pe(0, 0).out_psum(), 15);
    assert_eq!(mmu.pe(0, 0).out_act(), 5);
    assert_eq!(mmu.out_acc(), [6, 0]);
}
