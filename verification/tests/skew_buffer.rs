use simtpu::hardware::skew_buffer::{SkewBuffer, SkewBufferInputs, SkewBufferStrobes};
use simtpu::types::MMU_ROWS;

type TestSkewBuffer = SkewBuffer<u8, MMU_ROWS>;

fn inputs(data: [u8; MMU_ROWS], load: bool, reset: bool) -> SkewBufferInputs<u8, MMU_ROWS> {
    SkewBufferInputs { in_data: data, strobes: SkewBufferStrobes { load, reset } }
}

#[test]
fn new_initializes_buffer_with_staggered_delays() {
    let buffer = TestSkewBuffer::new().unwrap();
    // Each buffer[i] should start with i default elements
    for i in 0..MMU_ROWS {
        assert_eq!(buffer.lane_len(i), i);
    }
    assert_eq!(buffer.out_data(), [u8::default(); MMU_ROWS]);
    assert!(!buffer.out_valid());
}

#[test]
fn load_strobes_data_through_buffer() {
    let mut buffer = TestSkewBuffer::new().unwrap();
    let in_data = [1, 2];
    buffer.tick(inputs(in_data, true, false)).unwrap();

    // After first load:
    // buffer[0] receives 1, pops immediately -> out_data[0] = 1
    // buffer[1] receives 2, pops (had 1 default) -> out_data[1] = default (0)
    assert_eq!(buffer.out_data()[0], 1);
    assert_eq!(buffer.out_data()[1], 0);
    assert!(buffer.out_valid());
}

#[test]
fn staggered_output_appears_at_different_times() {
    let mut buffer = TestSkewBuffer::new().unwrap();
    let in_data = [10, 20];
    // Load cycle 1: Load initial values
    buffer.tick(inputs(in_data, true, false)).unwrap();
    let cycle1_out = buffer.out_data();
    // Load cycle 2: Load new values, and see first set come out staggered
    buffer.tick(inputs([30, 40], true, false)).unwrap();
    let cycle2_out = buffer.out_data();
    // Cycle 1: First element of batch exits, rest are still in delay lines
    assert_eq!(cycle1_out[0], 10);
    // Cycle 2: Second element of first batch exits (was delayed by 1 cycle in buffer[1])
    assert_eq!(cycle2_out[1], 20);
}

#[test]
fn valid_flag_set_on_load_and_cleared_on_idle() {
    let mut buffer = TestSkewBuffer::new().unwrap();

    buffer.tick(inputs([1, 2], true, false)).unwrap();
    assert!(buffer.out_valid());
    buffer.tick(inputs([0, 0], false, false)).unwrap();
    assert!(!buffer.out_valid());
    buffer.tick(inputs([5, 6], true, false)).unwrap();
    assert!(buffer.out_valid());
}

#[test]
fn reset_clears_buffer_state() {
    let mut buffer = TestSkewBuffer::new().unwrap();
    // Load some data
    buffer.tick(inputs([10, 20], true, false)).unwrap();
    assert!(buffer.out_valid());
    // Reset
    buffer.tick(inputs([0, 0], false, true)).unwrap();

    // After reset, buffer should be reinitialized
    assert!(!buffer.out_valid());
    assert_eq!(buffer.out_data(), [0; MMU_ROWS]);
    // Verify internal state is reset to initial staggered delays
    for i in 0..MMU_ROWS {
        assert_eq!(buffer.lane_len(i), i);
    }
}

#[test]
fn idle_cycle_maintains_output_without_advancing() {
    let mut buffer = TestSkewBuffer::new().unwrap();
    buffer.tick(inputs([1, 2], true, false)).unwrap();
    let data_after_load = buffer.out_data();

    // Idle cycle (load and reset both false)
    buffer.tick(inputs([0, 0], false, false)).unwrap();
    let data_after_idle = buffer.out_data();
    // Output should remain the same, but valid flag should be deasserted
    assert_eq!(data_after_load, data_after_idle);
    assert!(!buffer.out_valid());
}

#[test]
fn consecutive_loads_create_pipeline_behavior() {
    let mut buffer = TestSkewBuffer::new().unwrap();
    // Simulate continuous stream of data
    let mut all_outputs = Vec::new();

    for cycle in 0..6 {
        let input_data = [(cycle * 2 + 1) as u8, (cycle * 2 + 2) as u8];
        buffer.tick(inputs(input_data, true, false)).unwrap();
        all_outputs.push(buffer.out_data());
    }
    // First element appears immediately in each cycle
    for (cycle, output) in all_outputs.iter().enumerate() {
        let expected = (cycle * 2 + 1) as u8;
        assert_eq!(output[0], expected, "First element should appear immediately");
    }
    // Second element should lag by one cycle
    for cycle in 1..all_outputs.len() {
        let expected = ((cycle - 1) * 2 + 2) as u8;
        assert_eq!(all_outputs[cycle][1], expected, "Second element should lag by 1 cycle");
    }
}

#[test]
fn output_contains_all_elements_across_staggered_cycles() {
    let mut buffer = TestSkewBuffer::new().unwrap();
    let input_batch = [100, 101];
    // Load the batch
    buffer.tick(inputs(input_batch, true, false)).unwrap();
    // Collect outputs over following cycles
    let mut collected_outputs = vec![buffer.out_data()];

    for _ in 1..MMU_ROWS {
        buffer.tick(inputs([0, 0], true, false)).unwrap();
        collected_outputs.push(buffer.out_data());
    }

    // Verify all input elements appear in the outputs across the staggered cycles
    let mut found = [false; 2];
    for output in collected_outputs {
        for (i, val) in output.iter().enumerate() {
            if i < 2 && *val == input_batch[i] {
                found[i] = true;
            }
        }
    }

    for i in 0..2 {
        assert!(found[i], "Element {} should appear in output somewhere", i);
    }
}

#[test]
fn lane_delay_equals_lane_index_on_a_wider_buffer() {
    let mut buffer: SkewBuffer<u8, 4> = SkewBuffer::new().unwrap();
    let mut outs = Vec::new();
    for t in 0..6u8 {
        buffer
            .tick(SkewBufferInputs { in_data: [10 * t, 10 * t + 1, 10 * t + 2, 10 * t + 3], strobes: SkewBufferStrobes { load: true, reset: false } })
            .unwrap();
        outs.push(buffer.out_data());
    }
    for t in 0..6usize {
        for i in 0..4usize {
            let expected = if t >= i { (10 * (t - i) + i) as u8 } else { 0 };
            assert_eq!(outs[t][i], expected);
        }
    }
}
