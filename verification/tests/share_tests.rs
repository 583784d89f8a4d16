use agentropic_patterns::binary64::Binary64;
use agentropic_patterns::share::{round_integer, share_of};

fn number(value: f64) -> Binary64 {
    Binary64::from_bits(value.to_bits())
}

fn assert_share(count: usize, total: usize) {
    let expected = count as f64 / total as f64;
    let share = share_of(count, total);
    if expected.is_nan() {
        assert!(share.is_not_a_number(), "{count} / {total}");
    } else {
        assert_eq!(share.to_bits(), expected.to_bits(), "{count} / {total}");
    }
}

fn large_counts() -> Vec<usize> {
    let mut counts: Vec<usize> = vec![0, 1, 2, 3, 5, 7, 10, 100, 1000, usize::MAX, usize::MAX - 1];
    for exponent in [31u32, 32, 52, 53, 54, 55, 60, 62, 63] {
        let power = 1usize << exponent;
        for offset in [0usize, 1, 2, 3, 4, 5, 1023, 1024, 1025, 2047, 2048, 2049] {
            counts.push(power + offset);
            counts.push(power - offset.min(power));
            counts.push(power.wrapping_mul(3) / 2 + offset);
        }
    }
    counts
}

#[test]
fn share_of_small_counts_is_their_quotient() {
    for total in 0usize..=200 {
        for count in 0usize..=200 {
            assert_share(count, total);
        }
    }
}

#[test]
fn share_of_large_counts_is_their_quotient() {
    let counts = large_counts();
    for count in &counts {
        for total in &counts {
            assert_share(*count, *total);
        }
    }
}

#[test]
fn share_of_scattered_counts_is_their_quotient() {
    let mut state: u64 = 0x9E37_79B9_7F4A_7C15;
    let mut next = || {
        state = state.wrapping_mul(6364136223846793005).wrapping_add(1442695040888963407);
        state
    };
    for _ in 0..100000 {
        let count = (next() >> (next() % 64)) as usize;
        let total = (next() >> (next() % 64)) as usize;
        assert_share(count, total);
    }
}

#[test]
fn share_at_the_named_boundaries() {
    assert_eq!(share_of(4, 5).to_bits(), 0.8f64.to_bits());
    assert_eq!(share_of(1, 10).to_bits(), 0.1f64.to_bits());
    assert_eq!(share_of(1, 5).to_bits(), 0.2f64.to_bits());
    assert_eq!(share_of(2, 5).to_bits(), 0.4f64.to_bits());
    assert_eq!(share_of(9, 10).to_bits(), 0.9f64.to_bits());
    assert_eq!(share_of(11, 20).to_bits(), 0.55f64.to_bits());
    assert_eq!(share_of(1, 3).to_bits(), 0x3FD5_5555_5555_5555);
    assert_eq!(share_of(2, 3).to_bits(), 0x3FE5_5555_5555_5555);
    assert_eq!(share_of(1, 1).to_bits(), 1.0f64.to_bits());
    assert_eq!(share_of(0, 1).to_bits(), 0);
    assert_eq!(share_of(1, 0).to_bits(), f64::INFINITY.to_bits());
    assert!(share_of(0, 0).is_not_a_number());
}

#[test]
fn round_integer_is_the_nearest_number() {
    for n in large_counts() {
        assert_eq!(round_integer(n), (n as f64) as u128, "{n}");
    }
    assert_eq!(round_integer(usize::MAX), 1u128 << 64);
    assert_eq!(round_integer((1 << 53) + 1), 1 << 53);
    assert_eq!(round_integer((1 << 53) + 2), (1 << 53) + 2);
    assert_eq!(round_integer((1 << 53) + 3), (1 << 53) + 4);
}

#[test]
fn share_of_the_greatest_counts() {
    let greatest = usize::MAX;
    assert_eq!(share_of(greatest, greatest).to_bits(), 1.0f64.to_bits());
    assert_eq!(share_of(greatest - 1, greatest).to_bits(), 1.0f64.to_bits());
    assert_eq!(share_of(greatest, 1).to_bits(), 18446744073709551616.0f64.to_bits());
    assert_eq!(share_of(1, greatest).to_bits(), (1.0f64 / 18446744073709551616.0).to_bits());
    assert_eq!(share_of(3, 4).to_bits(), 0.75f64.to_bits());
    assert_eq!(share_of(0, greatest).to_bits(), 0);
}

#[test]
fn threshold_against_rounded_share() {
    let thresholds = [
        0.0, -0.0, 5e-324, 0.1, 0.2, 0.55, 0.8, 0.7999999999999999, 0.8000000000000002, 1.0,
        1.0000000000000002, 2.0, -1.0, f64::INFINITY, f64::NEG_INFINITY, f64::NAN,
    ];
    for threshold in thresholds {
        for total in 0usize..=20 {
            for count in 0usize..=25 {
                let expected = count as f64 / total as f64 >= threshold;
                assert_eq!(
                    number(threshold).is_at_most_rounded_share(count, total),
                    expected,
                    "{threshold} <= {count} / {total}"
                );
            }
        }
    }
}
