use password_strength_rs::entropy::estimate;

#[test]
fn estimate_of_known_passwords() {
    assert_eq!(estimate(11, 36), 28);
    assert_eq!(estimate(10, 26), 24);
    assert_eq!(estimate(20, 93), 65);
}

#[test]
fn estimate_over_an_empty_alphabet_is_zero() {
    assert_eq!(estimate(0, 0), 0);
    assert_eq!(estimate(5, 0), 0);
    assert_eq!(estimate(usize::MAX, 0), 0);
}

#[test]
fn estimate_of_no_characters_is_zero() {
    assert_eq!(estimate(0, 1), 0);
    assert_eq!(estimate(0, 26), 0);
    assert_eq!(estimate(0, 93), 0);
}

#[test]
fn estimate_over_one_symbol_is_zero() {
    assert_eq!(estimate(3, 1), 0);
    assert_eq!(estimate(usize::MAX, 1), 0);
}

#[test]
fn estimate_rounds_a_half_up() {
    // over two symbols the unrounded value is len / 2
    assert_eq!(estimate(1, 2), 1);
    assert_eq!(estimate(2, 2), 1);
    assert_eq!(estimate(3, 2), 2);
    assert_eq!(estimate(64, 2), 32);
    assert_eq!(estimate(65, 2), 33);
    assert_eq!(estimate(127, 2), 64);
    assert_eq!(estimate(128, 2), 64);
    assert_eq!(estimate(129, 2), 65);
}

#[test]
fn estimate_rounds_to_the_nearest() {
    // 28.43 and 28.50
    assert_eq!(estimate(11, 36), 28);
    assert_eq!(estimate(10, 52), 29);
    // 58.85 and 59.54
    assert_eq!(estimate(18, 93), 59);
    assert_eq!(estimate(20, 62), 60);
    // 126.91 and 127.51
    assert_eq!(estimate(54, 26), 127);
    assert_eq!(estimate(39, 93), 128);
}

#[test]
fn estimate_of_long_passwords() {
    assert_eq!(estimate(200, 62), 595);
    assert_eq!(estimate(1000, 93), 3270);
    assert_eq!(estimate(100000, 93), 326958);
}

#[test]
fn estimate_over_a_wide_alphabet() {
    // over 2^32 - 1 symbols a character is worth just under 16
    assert_eq!(estimate(1, u32::MAX), 16);
    assert_eq!(estimate(2, u32::MAX), 32);
    assert_eq!(estimate(4, 65536), 32);
    assert_eq!(estimate(5, 65536), 40);
}

#[test]
fn estimate_grows_with_length_and_alphabet() {
    let mut last: u128 = 0;
    for len in 0..200usize {
        let e = estimate(len, 41);
        assert!(e >= last);
        last = e;
    }
    let mut last: u128 = 0;
    for alphabet in [10u32, 26, 31, 36, 41, 52, 57, 62, 67, 83, 93] {
        let e = estimate(30, alphabet);
        assert!(e >= last);
        last = e;
    }
}

#[test]
fn estimate_never_rounds_a_half_over_the_class_alphabets() {
    // a half is met where twice the power of the alphabet size is a power of 4
    for alphabet in [10u128, 26, 31, 36, 41, 52, 57, 62, 67, 83, 93] {
        let mut power: u128 = 1;
        while power <= u128::MAX / (2 * alphabet) {
            power *= alphabet;
            let doubled = 2 * power;
            assert!(!(doubled.is_power_of_two() && doubled.trailing_zeros() % 2 == 0));
        }
    }
}

#[test]
fn estimate_brackets_the_power() {
    // 4^e <= 2 * alphabet^len < 4^(e + 1)
    for alphabet in [2u32, 3, 10, 26, 36, 62, 93] {
        let mut power: u128 = 1;
        let mut len: usize = 0;
        while power <= (u128::MAX / 4) / alphabet as u128 {
            let e = estimate(len, alphabet) as u32;
            assert!(4u128.pow(e) <= 2 * power);
            assert!(2 * power < 4u128.pow(e + 1));
            power *= alphabet as u128;
            len += 1;
        }
    }
}
