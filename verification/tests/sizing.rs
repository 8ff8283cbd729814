use spring_reverb::sizing::find_segment_size;
use spring_reverb::sizing::next_power_of_two;

#[test]
fn next_power_of_two_small_values() {
    assert_eq!(next_power_of_two(0), 1);
    assert_eq!(next_power_of_two(1), 1);
    assert_eq!(next_power_of_two(2), 2);
    assert_eq!(next_power_of_two(3), 4);
    assert_eq!(next_power_of_two(5), 8);
    assert_eq!(next_power_of_two(-7), 1);
}

#[test]
fn next_power_of_two_keeps_powers() {
    assert_eq!(next_power_of_two(512), 512);
    assert_eq!(next_power_of_two(1024), 1024);
    assert_eq!(next_power_of_two(16384), 16384);
}

#[test]
fn next_power_of_two_typical_block() {
    assert_eq!(next_power_of_two(1000), 1024);
    assert_eq!(next_power_of_two(513), 1024);
}

#[test]
fn find_segment_size_uses_shorter_buffer() {
    assert_eq!(find_segment_size(8000, 512), 1024);
    assert_eq!(find_segment_size(512, 8000), 1024);
    assert_eq!(find_segment_size(3, 100000), 8);
}

#[test]
fn find_segment_size_equal_lengths() {
    assert_eq!(find_segment_size(16, 16), 32);
    assert_eq!(find_segment_size(1, 1), 2);
}
