use simtpu::hardware::fifo::{Fifo, FifoError, FifoInputs, FifoStrobes};

type TestFifo = Fifo<u8>;

fn inputs(weight: u8, load_weight: bool, release_weight: bool, reset: bool) -> FifoInputs<u8> {
    FifoInputs { weight, strobes: FifoStrobes { load_weight, release_weight, reset } }
}

#[test]
fn new_initializes_state_to_default() {
    let fifo = TestFifo::new().unwrap();
    assert!(fifo.queue_len() == 0);
    assert_eq!(fifo.out_weight(), 0);
    assert!(!fifo.out_valid());
}

#[test]
fn releases_weights_in_fifo_order() {
    let mut fifo = TestFifo::new().unwrap();

    fifo.tick(inputs(3, true, false, false)).unwrap();
    fifo.tick(inputs(7, true, false, false)).unwrap();
    fifo.tick(inputs(0, false, true, false)).unwrap();
    assert_eq!(fifo.out_weight(), 3);
    assert!(fifo.out_valid());

    fifo.tick(inputs(0, false, true, false)).unwrap();
    assert_eq!(fifo.out_weight(), 7);
    assert!(fifo.out_valid());
}

#[test]
fn load_deasserts_valid_output_and_idle_cycle_keeps_weight() {
    let mut fifo = TestFifo::new().unwrap();
    fifo.tick(inputs(5, true, false, false)).unwrap();
    fifo.tick(inputs(0, false, true, false)).unwrap();
    assert!(fifo.out_valid());

    fifo.tick(inputs(0, false, false, false)).unwrap();
    assert_eq!(fifo.out_weight(), 5);
    assert!(!fifo.out_valid());
}

#[test]
fn load_has_priority_over_release() {
    let mut fifo = TestFifo::new().unwrap();
    fifo.tick(inputs(4, true, false, false)).unwrap();
    fifo.tick(inputs(9, true, true, false)).unwrap();
    assert!(!fifo.out_valid());

    fifo.tick(inputs(0, false, true, false)).unwrap();
    assert_eq!(fifo.out_weight(), 4);
    fifo.tick(inputs(0, false, true, false)).unwrap();
    assert_eq!(fifo.out_weight(), 9);
}

#[test]
fn reset_clears_queue_and_output_state() {
    let mut fifo = TestFifo::new().unwrap();
    fifo.tick(inputs(6, true, false, false)).unwrap();
    fifo.tick(inputs(8, true, false, false)).unwrap();
    fifo.tick(inputs(0, false, true, false)).unwrap();

    fifo.tick(inputs(99, true, true, true)).unwrap();
    assert!(fifo.queue_len() == 0);
    assert_eq!(fifo.out_weight(), 0);
    assert!(!fifo.out_valid());
}

#[test]
fn releasing_empty_fifo_returns_error() {
    let mut fifo = TestFifo::new().unwrap();
    assert!(matches!(fifo.tick(inputs(0, false, true, false)), Err(FifoError::PopEmptyQueue)));
}

#[test]
fn refused_release_leaves_state_unchanged() {
    let mut fifo = TestFifo::new().unwrap();
    fifo.tick(inputs(2, true, false, false)).unwrap();
    fifo.tick(inputs(0, false, true, false)).unwrap();
    assert!(fifo.tick(inputs(0, false, true, false)).is_err());
    assert_eq!(fifo.out_weight(), 2);
    assert!(fifo.out_valid());
    assert_eq!(fifo.queue_len(), 0);
}

#[test]
fn queue_holds_loaded_weights_until_released() {
    let mut fifo = TestFifo::new().unwrap();
    for w in [1u8, 2, 3] {
        fifo.tick(inputs(w, true, false, false)).unwrap();
    }
    assert_eq!(fifo.queue_len(), 3);
    fifo.tick(inputs(0, false, true, false)).unwrap();
    fifo.tick(inputs(4, true, false, false)).unwrap();
    let mut out = Vec::new();
    for _ in 0..3 {
        fifo.tick(inputs(0, false, true, false)).unwrap();
        out.push(fifo.out_weight());
    }
    assert_eq!(out, vec![2, 3, 4]);
}
