use dot_marketplace::milestone_id::{create_milestone_id, get_milestone_and_project_id};
use dot_marketplace::utils::{dot_shuffle, get_sum, lcg, roundoff};

/// The rounding of the average as a float computation gives it.
fn float_roundoff(total: u8, n: u8) -> u8 {
    let avg = total as f32 / n as f32;
    let whole = avg as u8;
    if whole != 0 {
        if avg.fract() >= 0.5 {
            whole + 1
        } else {
            whole
        }
    } else {
        0
    }
}

#[test]
fn roundoff_rounds_halves_up() {
    assert_eq!(roundoff(7, 2), 4);
    assert_eq!(roundoff(5, 2), 3);
    assert_eq!(roundoff(10, 4), 3);
    assert_eq!(roundoff(9, 4), 2);
    assert_eq!(roundoff(14, 3), 5);
    assert_eq!(roundoff(13, 3), 4);
}

#[test]
fn roundoff_of_an_average_below_one_is_zero() {
    assert_eq!(roundoff(1, 3), 0);
    assert_eq!(roundoff(0, 5), 0);
}

#[test]
fn roundoff_of_no_ratings() {
    assert_eq!(roundoff(0, 0), 0);
    assert_eq!(roundoff(5, 0), 255);
}

#[test]
fn roundoff_agrees_with_the_float_average_everywhere() {
    for total in 0..=255u8 {
        for n in 1..=255u8 {
            assert_eq!(roundoff(total, n), float_roundoff(total, n), "{} / {}", total, n);
        }
    }
}

#[test]
fn get_sum_adds_digits() {
    assert_eq!(get_sum(12345, 20), 15);
    assert_eq!(get_sum(0, 0), 0);
    assert_eq!(get_sum(7, 9), 7);
}

#[test]
fn get_sum_reduces_until_within_length() {
    // 9 + 9 = 18 > 5, then 17 gives 8, then 7, 6, 5
    assert_eq!(get_sum(99, 5), 5);
    assert_eq!(get_sum(4, 2), 2);
    assert_eq!(get_sum(5, 3), 3);
}

#[test]
fn get_sum_never_exceeds_length() {
    for number in [0u32, 1, 9, 10, 99, 123456789, u32::MAX] {
        for length in 0..12u32 {
            assert!(get_sum(number, length) <= length);
        }
    }
}

#[test]
fn lcg_sums_halved_terms() {
    // modulus 10: terms 2, 7, 12 % 10, 17 % 10
    assert_eq!(lcg(0, 4), 1 + 3 + 1 + 3);
    // modulus 15: terms 2, 7, 12
    assert_eq!(lcg(5, 3), 1 + 3 + 6);
    assert_eq!(lcg(3, 0), 0);
}

#[test]
fn dot_shuffle_picks_by_digit_sums() {
    assert_eq!(dot_shuffle(vec![1, 2, 3], 0, 3), vec![3, 2, 1]);
    let empty: Vec<u8> = Vec::new();
    assert_eq!(dot_shuffle(empty, 4, 0), Vec::<u8>::new());
}

#[test]
fn dot_shuffle_is_a_permutation() {
    for seed in 0..40u32 {
        let input: Vec<u32> = (0..9).collect();
        let mut out = dot_shuffle(input.clone(), seed, 9);
        out.sort();
        assert_eq!(out, input);
    }
}

#[test]
fn milestone_ids_name_project_and_position() {
    assert_eq!(create_milestone_id(1, 0), b"1a".to_vec());
    assert_eq!(create_milestone_id(12, 2), b"12c".to_vec());
    assert_eq!(create_milestone_id(0, 4), b"0e".to_vec());
}

#[test]
fn milestone_ids_parse_back() {
    assert_eq!(get_milestone_and_project_id(&b"12c".to_vec()), Some((2, 12)));
    assert_eq!(get_milestone_and_project_id(&create_milestone_id(340282366920938463463374607431768211455, 25)), Some((25, u128::MAX)));
    for pid in [0u128, 1, 9, 10, 999, 123456789012345678901234567890] {
        for n in 0..26u8 {
            assert_eq!(get_milestone_and_project_id(&create_milestone_id(pid, n)), Some((n, pid)));
        }
    }
}

#[test]
fn malformed_milestone_ids_are_refused() {
    assert_eq!(get_milestone_and_project_id(&b"a".to_vec()), None);
    assert_eq!(get_milestone_and_project_id(&b"".to_vec()), None);
    assert_eq!(get_milestone_and_project_id(&b"12".to_vec()), None);
    assert_eq!(get_milestone_and_project_id(&b"x1a".to_vec()), None);
}
