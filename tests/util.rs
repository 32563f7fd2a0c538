use call_the_police_bot::util::{call_police_string, rand_num};

const ALPHABET: [char; 4] = ['\u{1F6A8}', '\u{1F46E}', '\u{1F694}', '\u{1F693}'];

#[test]
fn util_test_rand_num() {
    let min = 0;
    let max = 10;
    let n = rand_num(min, max);
    assert!(n >= min && n < max);
}

#[test]
fn util_test_call_police_string() {
    let s = call_police_string(8);
    assert!(!s.is_empty());

    let len = s.chars().count();
    assert_eq!(len, 8);
}

#[test]
fn generated_string_has_requested_length_and_alphabet() {
    for n in [0u64, 1, 8, 95, 4096] {
        let s = call_police_string(n);
        assert_eq!(s.chars().count() as u64, n);
        assert!(s.chars().all(|c| ALPHABET.contains(&c)));
    }
}

#[test]
fn generate_zero_is_empty() {
    assert_eq!(call_police_string(0), "");
}

#[test]
fn generate_eight_example() {
    let s = call_police_string(8);
    assert_eq!(s.chars().count(), 8);
    assert!(s.chars().all(|c| ALPHABET.contains(&c)));
}

#[test]
fn rand_num_in_order() {
    for _ in 0..200 {
        let v = rand_num(8, 96);
        assert!(8 <= v && v < 96);
    }
}

#[test]
fn rand_num_swapped_bounds() {
    for _ in 0..200 {
        let v = rand_num(96, 8);
        assert!(8 <= v && v < 96);
    }
}

#[test]
fn rand_num_single_value_range() {
    assert_eq!(rand_num(5, 6), 5);
    assert_eq!(rand_num(6, 5), 5);
    assert_eq!(rand_num(u64::MAX, u64::MAX - 1), u64::MAX - 1);
}

#[test]
fn rand_num_varies() {
    let first = rand_num(0, 1_000_000);
    let differs = (0..100).any(|_| rand_num(0, 1_000_000) != first);
    assert!(differs);
}

#[test]
fn generated_string_mixes_symbols() {
    let s = call_police_string(4096);
    let first = s.chars().next().unwrap();
    assert!(s.chars().any(|c| c != first));
}
