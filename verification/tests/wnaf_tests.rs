use barustenberg::wnaf::{decompose, wnaf_size, SCALAR_BITS};

fn value_of(digits: &[i64], w: usize) -> i128 {
    let mut total: i128 = 0;
    for d in digits.iter().rev() {
        total = (total << w) + *d as i128;
    }
    total
}

#[test]
fn wnaf_size_rounds_up() {
    assert_eq!(SCALAR_BITS, 127);
    assert_eq!(wnaf_size(1), 127);
    assert_eq!(wnaf_size(2), 64);
    assert_eq!(wnaf_size(5), 26);
    assert_eq!(wnaf_size(7), 19);
    assert_eq!(wnaf_size(126), 2);
    assert_eq!(wnaf_size(127), 1);
    assert_eq!(wnaf_size(128), 1);
    assert_eq!(wnaf_size(usize::MAX), 1);
}

#[test]
fn decompose_gives_odd_digits_that_spell_the_scalar() {
    let scalars: [u128; 8] = [
        0,
        1,
        2,
        3,
        0x7fff_ffff_ffff_ffff_ffff_ffff_ffff_ffff,
        0x7fff_ffff_ffff_ffff_ffff_ffff_ffff_fffe,
        0x1234_5678_9abc_def0_0fed_cba9_8765_4321,
        1 << 126,
    ];
    for w in [1usize, 2, 3, 4, 5, 7, 13, 21, 62] {
        for k in scalars {
            let (digits, skew) = decompose(k, w);
            assert_eq!(digits.len(), wnaf_size(w));
            assert_eq!(skew, k % 2 == 0);
            for d in digits.iter() {
                assert!(d % 2 != 0, "digit {} of {} for width {} is even", d, k, w);
                assert!(d.unsigned_abs() < (1u64 << w));
            }
            let spelled = value_of(&digits, w);
            assert_eq!(spelled, k as i128 + if skew { 1 } else { 0 });
        }
    }
}

#[test]
fn decompose_small_example() {
    // 6 is even, so 7 is recoded. With windows of 2 bits: 7 = 3 + 1 * 4, and
    // what is left, 1, has an even rest, so its digit is 1 - 4 and one is
    // carried on, window after window; the last digit is what is left
    let (digits, skew) = decompose(6, 2);
    assert!(skew);
    assert_eq!(digits.len(), 64);
    assert_eq!(digits[0], 3);
    assert!(digits[1..63].iter().all(|d| *d == -3));
    assert_eq!(digits[63], 1);
    // 5 is odd and is recoded as it is: 5 = 1 + 1 * 4
    let (digits, skew) = decompose(5, 2);
    assert!(!skew);
    assert_eq!(digits[0], 1);
    assert_eq!(digits[1], -3);
    assert_eq!(digits[63], 1);
}
