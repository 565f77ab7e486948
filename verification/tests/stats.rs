use log_aggregator::stats::{percentile_position, sort_samples};
use log_aggregator::timekey::{key_bits, time_key};

#[test]
fn sort_samples_sorts_ascending_and_keeps_every_time() {
    assert_eq!(sort_samples(&vec![3, 1, 2]), vec![1, 2, 3]);
    assert_eq!(sort_samples(&vec![5, 5, 1, 5, 0, u64::MAX, 1]), vec![0, 1, 1, 5, 5, 5, u64::MAX]);
    assert_eq!(sort_samples(&vec![9, 8, 7, 6, 5, 4, 3, 2, 1, 0]), vec![0, 1, 2, 3, 4, 5, 6, 7, 8, 9]);
    assert_eq!(sort_samples(&vec![7]), vec![7]);
    assert_eq!(sort_samples(&Vec::new()), Vec::<u64>::new());
}

#[test]
fn sort_samples_agrees_with_the_standard_sort() {
    let mut samples: Vec<u64> = Vec::new();
    let mut state: u64 = 0x2545_f491_4f6c_dd1d;
    for _ in 0..1000 {
        state ^= state << 13;
        state ^= state >> 7;
        state ^= state << 17;
        samples.push(state % 257);
    }
    let mut expected = samples.clone();
    expected.sort();
    assert_eq!(sort_samples(&samples), expected);
}

#[test]
fn percentile_position_rounds_down() {
    assert_eq!(percentile_position(1, 50), 0);
    assert_eq!(percentile_position(1, 99), 0);
    assert_eq!(percentile_position(2, 50), 1);
    assert_eq!(percentile_position(2, 75), 1);
    assert_eq!(percentile_position(3, 50), 1);
    assert_eq!(percentile_position(3, 75), 2);
    assert_eq!(percentile_position(4, 75), 3);
    assert_eq!(percentile_position(10, 50), 5);
    assert_eq!(percentile_position(10, 75), 7);
    assert_eq!(percentile_position(10, 90), 9);
    assert_eq!(percentile_position(10, 95), 9);
    assert_eq!(percentile_position(10, 99), 9);
    assert_eq!(percentile_position(100, 99), 99);
    assert_eq!(percentile_position(200, 50), 100);
    assert_eq!(percentile_position(200, 75), 150);
    assert_eq!(percentile_position(200, 90), 180);
    assert_eq!(percentile_position(200, 95), 190);
    assert_eq!(percentile_position(200, 99), 198);
    assert_eq!(percentile_position(7, 0), 0);
}

#[test]
fn percentile_position_stays_on_the_last_time() {
    assert_eq!(percentile_position(1, 100), 0);
    assert_eq!(percentile_position(10, 100), 9);
    assert_eq!(percentile_position(10, 255), 9);
    assert_eq!(percentile_position(usize::MAX, 99), (usize::MAX as u128 * 99 / 100) as usize);
    assert_eq!(percentile_position(usize::MAX, 100), usize::MAX - 1);
}

#[test]
fn time_keys_order_as_the_numbers_do() {
    let ascending = [
        f64::NEG_INFINITY,
        -1.0e300,
        -2.5,
        -1.0,
        -f64::MIN_POSITIVE,
        -0.0,
        0.0,
        f64::MIN_POSITIVE,
        0.1,
        1.0,
        10.0,
        30.0,
        1.0e300,
        f64::INFINITY,
    ];
    for pair in ascending.windows(2) {
        assert!(time_key(pair[0].to_bits()) < time_key(pair[1].to_bits()));
    }
}

#[test]
fn time_keys_have_exact_values() {
    assert_eq!(time_key(0), 0x8000_0000_0000_0000);
    assert_eq!(time_key(0x8000_0000_0000_0000), 0x7fff_ffff_ffff_ffff);
    assert_eq!(time_key(0xffff_ffff_ffff_ffff), 0);
    assert_eq!(time_key(0x7fff_ffff_ffff_ffff), 0xffff_ffff_ffff_ffff);
    assert_eq!(time_key(1), 0x8000_0000_0000_0001);
    assert_eq!(key_bits(0), 0xffff_ffff_ffff_ffff);
    assert_eq!(key_bits(0x8000_0000_0000_0000), 0);
}

#[test]
fn key_bits_undoes_time_key() {
    for value in [0.0, -0.0, 1.5, -1.5, 10.0, f64::MAX, f64::MIN, f64::INFINITY, f64::NEG_INFINITY] {
        let bits = value.to_bits();
        assert_eq!(key_bits(time_key(bits)), bits);
    }
    for key in [0u64, 1, 0x7fff_ffff_ffff_ffff, 0x8000_0000_0000_0000, u64::MAX] {
        assert_eq!(time_key(key_bits(key)), key);
    }
}
