use password_strength_rs::Calculator;

fn entropy_of(password: &str) -> u128 {
    Calculator::new(password.to_string()).get_entropy()
}

fn strength_of(password: &str) -> &'static str {
    Calculator::new(password.to_string()).get_strength()
}

#[test]
fn entropy_test() {
    let mock_input_value = "password123".to_string();

    let pw_strength = Calculator::new(mock_input_value);

    assert_eq!(28, pw_strength.get_entropy());
}

#[test]
fn strength_test() {
    let mock_input_value = "password123".to_string();

    let pw_strength = Calculator::new(mock_input_value);

    assert_eq!("very-weak", pw_strength.get_strength());
}

#[test]
fn empty_password_has_no_entropy() {
    assert_eq!(entropy_of(""), 0);
    assert_eq!(strength_of(""), "very-weak");
}

#[test]
fn lowercase_only_password() {
    // 10 * log2(26) / 2 = 23.502...
    assert_eq!(entropy_of("abcdefghij"), 24);
    assert_eq!(strength_of("abcdefghij"), "very-weak");
}

#[test]
fn fully_mixed_password_of_twenty() {
    // 20 * log2(93) / 2 = 65.39...
    let password = "aB3$eF7&iJ1*mN5(qR9)";
    assert_eq!(password.chars().count(), 20);
    assert_eq!(entropy_of(password), 65);
    assert_eq!(strength_of(password), "strong");
}

#[test]
fn very_weak_meets_weak_between_28_and_29() {
    // 36 symbols, 11 characters: 28.43...
    assert_eq!(entropy_of("password123"), 28);
    assert_eq!(strength_of("password123"), "very-weak");
    // 52 symbols, 10 characters: 28.50...
    assert_eq!(entropy_of("abcdeFGHIJ"), 29);
    assert_eq!(strength_of("abcdeFGHIJ"), "weak");
}

#[test]
fn weak_meets_strong_between_59_and_60() {
    // 93 symbols, 18 characters: 58.85...
    let weak = "aB3$eF7&iJ1*mN5(qR";
    assert_eq!(entropy_of(weak), 59);
    assert_eq!(strength_of(weak), "weak");
    // 62 symbols, 20 characters: 59.54...
    let strong = "abcdefghijKLMNOPQR12";
    assert_eq!(entropy_of(strong), 60);
    assert_eq!(strength_of(strong), "strong");
}

#[test]
fn strong_meets_very_strong_between_127_and_128() {
    // 26 symbols, 54 characters: 126.91...
    let strong = "a".repeat(54);
    assert_eq!(entropy_of(&strong), 127);
    assert_eq!(strength_of(&strong), "strong");
    // 93 symbols, 39 characters: 127.51...
    let very_strong = format!("{}{}", "aB3$eF7&iJ1*mN5(qR9)", "aB3$eF7&iJ1*mN5(qR9");
    assert_eq!(very_strong.chars().count(), 39);
    assert_eq!(entropy_of(&very_strong), 128);
    assert_eq!(strength_of(&very_strong), "very-strong");
}

#[test]
fn entropy_is_the_same_on_every_call() {
    let calculator = Calculator::new("correct horse battery staple".to_string());
    let first = calculator.get_entropy();
    assert_eq!(calculator.get_entropy(), first);
    assert_eq!(calculator.get_entropy(), first);
    let label = calculator.get_strength();
    assert_eq!(calculator.get_strength(), label);
    let again = Calculator::new("correct horse battery staple".to_string());
    assert_eq!(again.get_entropy(), first);
    assert_eq!(again.get_strength(), label);
}

#[test]
fn characters_outside_the_classes_count_for_length_only() {
    // 9 characters from 26 symbols: 21.15...
    assert_eq!(entropy_of("pass word"), 21);
    assert_eq!(entropy_of("passxword"), 21);
}

#[test]
fn length_is_counted_in_characters_not_bytes() {
    // 5 characters, 6 bytes, 26 symbols: 11.75...
    assert_eq!("h\u{e9}llo".len(), 6);
    assert_eq!(entropy_of("h\u{e9}llo"), 12);
    assert_eq!(entropy_of("hzllo"), 12);
}

#[test]
fn password_without_any_class_has_no_entropy() {
    assert_eq!(entropy_of("   "), 0);
    assert_eq!(strength_of("   "), "very-weak");
    assert_eq!(entropy_of("\u{65e5}\u{672c}\u{8a9e}"), 0);
    assert_eq!(strength_of("\u{65e5}\u{672c}\u{8a9e}"), "very-weak");
    assert_eq!(entropy_of("\t\n"), 0);
}

#[test]
fn the_password_is_not_trimmed_or_folded() {
    // 13 characters from 26 symbols, blanks included: 30.55...
    assert_eq!(entropy_of(" abcdefghijk "), 31);
    // upper case is a class of its own: 3 characters from 52 symbols, 8.55...
    assert_eq!(entropy_of("abC"), 9);
    assert_eq!(entropy_of("abc"), 7);
}

#[test]
fn each_class_widens_the_alphabet() {
    // 8 characters each
    assert_eq!(entropy_of("12345678"), 13);
    assert_eq!(entropy_of("abcdefgh"), 19);
    assert_eq!(entropy_of("ABCDEFGH"), 19);
    assert_eq!(entropy_of("!@#$%^&*"), 20);
    assert_eq!(entropy_of("abcd1234"), 21);
    assert_eq!(entropy_of("abcdEFGH"), 23);
    assert_eq!(entropy_of("abCD12!@"), 26);
}

#[test]
fn long_password_is_very_strong() {
    let password = "aB3$".repeat(250);
    assert_eq!(entropy_of(&password), 3270);
    assert_eq!(strength_of(&password), "very-strong");
}
