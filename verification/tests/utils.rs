use semdoc::utils::{push_be_bytes, Align, CloneFromSlice, RoundUpToMultipleOf};

#[test]
fn zero_is_rounded_up_to_zero() {
    assert_eq!(0usize.round_up_to_multiple_of(8), 0);
}

#[test]
fn a_multiple_is_left_unchanged() {
    assert_eq!(8usize.round_up_to_multiple_of(8), 8);
    assert_eq!(16usize.round_up_to_multiple_of(8), 16);
    assert_eq!(4096usize.round_up_to_multiple_of(8), 4096);
}

#[test]
fn other_numbers_are_rounded_up_to_the_next_multiple() {
    assert_eq!(1usize.round_up_to_multiple_of(8), 8);
    assert_eq!(7usize.round_up_to_multiple_of(8), 8);
    assert_eq!(9usize.round_up_to_multiple_of(8), 16);
    assert_eq!(15usize.round_up_to_multiple_of(8), 16);
    assert_eq!(17usize.round_up_to_multiple_of(8), 24);
}

#[test]
fn rounding_works_for_other_steps() {
    assert_eq!(13usize.round_up_to_multiple_of(5), 15);
    assert_eq!(15usize.round_up_to_multiple_of(5), 15);
    assert_eq!(3usize.round_up_to_multiple_of(1), 3);
}

#[test]
fn the_rounded_value_is_the_least_multiple_that_is_large_enough() {
    for n in 0usize..200 {
        for step in 1usize..20 {
            let rounded = n.round_up_to_multiple_of(step);
            assert_eq!(rounded % step, 0);
            assert!(rounded >= n);
            assert!(rounded < n + step);
        }
    }
}

#[test]
fn aligning_pads_with_zeros_up_to_a_word() {
    let mut bytes = vec![1u8, 2, 3];
    bytes.align();
    assert_eq!(bytes, vec![1, 2, 3, 0, 0, 0, 0, 0]);
}

#[test]
fn aligning_leaves_whole_words_unchanged() {
    let mut empty: Vec<u8> = vec![];
    empty.align();
    assert_eq!(empty, Vec::<u8>::new());

    let mut word = vec![9u8; 8];
    word.align();
    assert_eq!(word, vec![9u8; 8]);

    let mut words = vec![7u8; 9];
    words.align();
    assert_eq!(words.len(), 16);
    assert_eq!(&words[..9], &[7u8; 9]);
    assert_eq!(&words[9..], &[0u8; 7]);
}

#[test]
fn numbers_are_read_most_significant_byte_first() {
    assert_eq!(u64::clone_from_slice(&[]), 0);
    assert_eq!(u64::clone_from_slice(&[0x2a]), 42);
    assert_eq!(u64::clone_from_slice(&[0x01, 0x02]), 0x0102);
    assert_eq!(
        u64::clone_from_slice(&[0x01, 0x02, 0x03, 0x04, 0x05, 0x06]),
        0x0102_0304_0506
    );
    assert_eq!(
        u64::clone_from_slice(&[0x01, 0x02, 0x03, 0x04, 0x05, 0x06, 0x07]),
        0x01_0203_0405_0607
    );
    assert_eq!(u64::clone_from_slice(&[0xff; 8]), u64::MAX);
}

#[test]
fn numbers_are_written_most_significant_byte_first() {
    let mut bytes = vec![0xaa];
    push_be_bytes(&mut bytes, 0x0102_0304_0506, 6);
    assert_eq!(bytes, vec![0xaa, 1, 2, 3, 4, 5, 6]);

    let mut bytes = vec![];
    push_be_bytes(&mut bytes, 1, 2);
    assert_eq!(bytes, vec![0, 1]);

    let mut bytes = vec![];
    push_be_bytes(&mut bytes, u64::MAX, 8);
    assert_eq!(bytes, vec![0xff; 8]);

    let mut bytes = vec![5];
    push_be_bytes(&mut bytes, 77, 0);
    assert_eq!(bytes, vec![5]);
}

#[test]
fn only_the_lowest_bytes_of_a_number_are_written() {
    let mut bytes = vec![];
    push_be_bytes(&mut bytes, 0x0102_0304, 2);
    assert_eq!(bytes, vec![3, 4]);
}

#[test]
fn written_numbers_are_read_back() {
    for value in [0u64, 1, 255, 256, 65535, 0xffff_ffff_ffff, 0x1234_5678_9abc] {
        let mut bytes = vec![];
        push_be_bytes(&mut bytes, value, 6);
        assert_eq!(bytes.len(), 6);
        assert_eq!(u64::clone_from_slice(&bytes), value);
    }
}
