use simtpu::hardware::acc::{Acc, AccInputs, AccStrobes};
use simtpu::hardware::bias::{Bias, BiasInputs, BiasStrobes};
use simtpu::hardware::trans::{Trans, TransFn, TransInputs, TransStrobes};
use simtpu::hardware::vmem::{Vmem, VmemInputs, VmemStrobes};

fn vmem_cycle(addr: usize, size: usize, wr_data: Vec<i8>, read: bool, write: bool, reset: bool) -> VmemInputs {
    VmemInputs { addr, size, wr_data, strobes: VmemStrobes { read, write, reset } }
}

#[test]
fn vmem_reads_back_what_was_written() {
    let mut vmem: Vmem<8> = Vmem::new().unwrap();
    vmem.tick(vmem_cycle(2, 3, vec![1, -2, 3], false, true, false)).unwrap();
    assert!(!vmem.out_valid());
    vmem.tick(vmem_cycle(1, 5, vec![], true, false, false)).unwrap();
    assert!(vmem.out_valid());
    assert_eq!(vmem.out_data(), vec![0, 1, -2, 3, 0]);
}

#[test]
fn vmem_read_in_the_write_cycle_sees_old_words() {
    let mut vmem: Vmem<4> = Vmem::new().unwrap();
    vmem.tick(vmem_cycle(0, 2, vec![5, 6], true, true, false)).unwrap();
    assert_eq!(vmem.out_data(), vec![0, 0]);
    vmem.tick(vmem_cycle(0, 2, vec![], true, false, false)).unwrap();
    assert_eq!(vmem.out_data(), vec![5, 6]);
}

#[test]
fn vmem_out_of_range_accesses_are_ignored() {
    let mut vmem: Vmem<4> = Vmem::new().unwrap();
    vmem.tick(vmem_cycle(0, 1, vec![9], true, true, false)).unwrap();
    vmem.tick(vmem_cycle(3, 2, vec![7, 7], true, true, false)).unwrap();
    assert!(!vmem.out_valid());
    assert_eq!(vmem.out_data(), vec![0]);
    vmem.tick(vmem_cycle(0, 4, vec![], true, false, false)).unwrap();
    assert_eq!(vmem.out_data(), vec![9, 0, 0, 0]);
    vmem.tick(vmem_cycle(0, 0, vec![], false, false, true)).unwrap();
    assert!(vmem.out_data().is_empty());
    vmem.tick(vmem_cycle(0, 4, vec![], true, false, false)).unwrap();
    assert_eq!(vmem.out_data(), vec![0, 0, 0, 0]);
}

#[test]
fn bias_adds_the_bias_held_before_the_edge() {
    let mut bias: Bias<i32, i32> = Bias::new().unwrap();
    let cycle = |bias_value: i32, acc: i32, valid_in: bool, load_bias: bool, reset: bool| BiasInputs {
        bias: bias_value,
        acc,
        strobes: BiasStrobes { valid_in, load_bias, reset },
    };
    bias.tick(cycle(10, 5, true, true, false)).unwrap();
    assert_eq!(bias.out_preact(), 5);
    bias.tick(cycle(0, 5, true, false, false)).unwrap();
    assert_eq!(bias.out_preact(), 15);
    bias.tick(cycle(0, i32::MAX, true, false, false)).unwrap();
    assert_eq!(bias.out_preact(), i32::MIN + 9);
    bias.tick(cycle(0, 1, false, false, true)).unwrap();
    assert_eq!(bias.out_preact(), 0);
    bias.tick(cycle(0, 1, true, false, false)).unwrap();
    assert_eq!(bias.out_preact(), 11);
}

#[test]
fn trans_applies_relu_then_switches_to_leaky() {
    let mut trans: Trans<i32> = Trans::new().unwrap();
    let cycle = |f: TransFn<i32>, preact: i32, valid: bool, switch_transfn: bool, reset: bool| TransInputs {
        trans: f,
        preact,
        strobes: TransStrobes { valid, switch_transfn, reset },
    };
    trans.tick(cycle(TransFn::LeakyReLU(3), -4, true, true, false)).unwrap();
    assert_eq!(trans.out_act(), 0);
    assert!(trans.out_valid());
    trans.tick(cycle(TransFn::ReLU, -4, true, false, false)).unwrap();
    assert_eq!(trans.out_act(), -12);
    trans.tick(cycle(TransFn::ReLU, 7, true, false, false)).unwrap();
    assert_eq!(trans.out_act(), 7);
    trans.tick(cycle(TransFn::ReLU, 1, false, false, false)).unwrap();
    assert_eq!(trans.out_act(), 7);
    assert!(!trans.out_valid());
    trans.tick(cycle(TransFn::ReLU, 1, true, false, true)).unwrap();
    assert_eq!(trans.out_act(), 0);
    assert!(!trans.out_valid());
}

#[test]
fn acc_lanes_delay_inversely_to_skew() {
    let mut acc: Acc<i32, 3> = Acc::new().unwrap();
    assert_eq!((acc.lane_len(0), acc.lane_len(1), acc.lane_len(2)), (2, 1, 0));
    let mut outs = Vec::new();
    for t in 0..4 {
        acc.tick(AccInputs { in_data: [10 * t, 10 * t + 1, 10 * t + 2], strobes: AccStrobes { load: true, reset: false } })
            .unwrap();
        outs.push(acc.out_data());
    }
    assert_eq!(outs[0], [0, 0, 2]);
    assert_eq!(outs[1], [0, 1, 12]);
    assert_eq!(outs[2], [0, 11, 22]);
    assert_eq!(outs[3], [10, 21, 32]);
    assert!(acc.out_valid());
    acc.tick(AccInputs { in_data: [0, 0, 0], strobes: AccStrobes { load: false, reset: true } }).unwrap();
    assert_eq!(acc.out_data(), [0, 0, 0]);
    assert!(!acc.out_valid());
}

#[test]
fn acc_idle_cycles_move_nothing() {
    let mut acc: Acc<i32, 2> = Acc::new().unwrap();
    acc.tick(AccInputs { in_data: [1, 2], strobes: AccStrobes { load: true, reset: false } }).unwrap();
    assert_eq!(acc.out_data(), [0, 2]);
    assert!(acc.out_valid());
    acc.tick(AccInputs { in_data: [9, 9], strobes: AccStrobes { load: false, reset: false } }).unwrap();
    assert_eq!(acc.out_data(), [0, 2]);
    assert!(!acc.out_valid());
    assert_eq!((acc.lane_len(0), acc.lane_len(1)), (1, 0));
    acc.tick(AccInputs { in_data: [3, 4], strobes: AccStrobes { load: true, reset: false } }).unwrap();
    assert_eq!(acc.out_data(), [1, 4]);
    assert!(acc.out_valid());
}
