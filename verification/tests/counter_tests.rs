use vanity_finder::add1_to_bytes;
use vanity_finder::counter::{increment_counter, COUNTER_WIDTH, MESSAGE_LEN};

#[test]
fn add1_increments_last_byte() {
    let mut buf = [0u8; 132];
    add1_to_bytes(&mut buf);
    let mut expected = [0u8; 132];
    expected[131] = 1;
    assert_eq!(buf, expected);
}

#[test]
fn add1_carries_into_next_byte() {
    let mut buf = [0u8; 132];
    buf[131] = 255;
    add1_to_bytes(&mut buf);
    let mut expected = [0u8; 132];
    expected[130] = 1;
    expected[131] = 0;
    assert_eq!(buf, expected);
}

#[test]
fn add1_carries_through_a_run_of_255() {
    let mut buf = [0u8; 132];
    buf[128] = 41;
    buf[129] = 255;
    buf[130] = 255;
    buf[131] = 255;
    add1_to_bytes(&mut buf);
    let mut expected = [0u8; 132];
    expected[128] = 42;
    assert_eq!(buf, expected);
}

#[test]
fn add1_wraps_inside_the_counter_region() {
    let mut buf = [7u8; 132];
    let mut at: usize = MESSAGE_LEN - COUNTER_WIDTH;
    while at < MESSAGE_LEN {
        buf[at] = 255;
        at += 1;
    }
    add1_to_bytes(&mut buf);
    let mut expected = [7u8; 132];
    let mut at: usize = 100;
    while at < 132 {
        expected[at] = 0;
        at += 1;
    }
    assert_eq!(buf, expected);
    assert_eq!(buf[99], 7);
}

#[test]
fn add1_leaves_the_header_alone() {
    let mut buf = [0u8; 132];
    let mut at: usize = 0;
    while at < 100 {
        buf[at] = (at as u8).wrapping_mul(3).wrapping_add(1);
        at += 1;
    }
    let before = buf;
    let mut round: u32 = 0;
    while round < 1000 {
        add1_to_bytes(&mut buf);
        round += 1;
    }
    assert_eq!(buf[..100], before[..100]);
    assert_eq!(buf[130], 3);
    assert_eq!(buf[131], 232);
    assert_eq!(buf[100..130], [0u8; 30]);
}

#[test]
fn increment_two_byte_counter_wraps_to_zero() {
    let mut buf = [255u8, 255u8];
    let wrapped = increment_counter(&mut buf, 2);
    assert_eq!(buf, [0u8, 0u8]);
    assert!(wrapped);
}

#[test]
fn increment_reports_no_wrap_on_carry() {
    let mut buf = [9u8, 0u8, 255u8];
    let wrapped = increment_counter(&mut buf, 2);
    assert_eq!(buf, [9u8, 1u8, 0u8]);
    assert!(!wrapped);
}

#[test]
fn increment_wrap_does_not_reach_the_prefix() {
    let mut buf = [9u8, 254u8, 255u8, 255u8];
    let wrapped = increment_counter(&mut buf, 2);
    assert_eq!(buf, [9u8, 254u8, 0u8, 0u8]);
    assert!(wrapped);
}

#[test]
fn increment_with_zero_width_changes_nothing() {
    let mut buf = [1u8, 2u8, 3u8];
    let wrapped = increment_counter(&mut buf, 0);
    assert_eq!(buf, [1u8, 2u8, 3u8]);
    assert!(wrapped);
}

#[test]
fn increment_of_the_whole_buffer() {
    let mut buf = [0u8, 255u8, 255u8];
    let wrapped = increment_counter(&mut buf, 3);
    assert_eq!(buf, [1u8, 0u8, 0u8]);
    assert!(!wrapped);
}

#[test]
fn increment_of_an_empty_buffer() {
    let mut buf: [u8; 0] = [];
    let wrapped = increment_counter(&mut buf, 0);
    assert!(wrapped);
}

#[test]
fn many_increments_add_modulo_the_period() {
    let mut buf = vec![5u8, 6u8, 7u8, 0u8, 0u8];
    let mut wraps: u32 = 0;
    let mut round: u32 = 0;
    while round < 70000 {
        if increment_counter(&mut buf, 2) {
            wraps += 1;
        }
        round += 1;
    }
    assert_eq!(buf, vec![5u8, 6u8, 7u8, 17u8, 112u8]);
    assert_eq!(wraps, 1);
}

#[test]
fn a_full_period_returns_to_the_start() {
    let mut buf = vec![1u8, 2u8, 77u8];
    let mut round: u32 = 0;
    while round < 256 {
        increment_counter(&mut buf, 1);
        round += 1;
    }
    assert_eq!(buf, vec![1u8, 2u8, 77u8]);
}

#[test]
fn increment_matches_integer_addition() {
    let mut start: u32 = 0;
    while start < 65536 {
        let mut buf = [0xAAu8, (start >> 8) as u8, (start & 255) as u8];
        let wrapped = increment_counter(&mut buf, 2);
        let next: u32 = (start + 1) % 65536;
        assert_eq!(buf, [0xAAu8, (next >> 8) as u8, (next & 255) as u8]);
        assert_eq!(wrapped, start == 65535);
        start += 1;
    }
}

#[test]
fn different_starts_never_meet_at_the_same_step() {
    let mut first = vec![1u8, 2u8, 0u8];
    let mut second = vec![1u8, 2u8, 5u8];
    let mut step: u32 = 0;
    while step < 600 {
        increment_counter(&mut first, 1);
        increment_counter(&mut second, 1);
        assert_ne!(first, second);
        step += 1;
    }
}
