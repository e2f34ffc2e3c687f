use luhn3::fold::{fold10, fold36};
use luhn3::swar::fold10w;
use luhn3::vector::{fold10v, fold_block};
use luhn3::{alphanum, decimal, swar, Mixer};

const DECIMAL: &[&str] = &[
    "378282246310005",
    "5610591081018250",
    "30569309025904",
    "4222222222222",
    "358771054102508",
    "79927398713",
    "0",
    "18",
    "00000000000000000000000000000000",
    "99999999999999999999999999999999994",
];

const ALPHANUM: &[&str] = &["US5949181045", "US38259P5089", "BMG491BT1088", "IE00B4BNMY34", "KR4301Q93579"];

fn next_digit(digit: u8) -> u8 {
    if digit == b'9' {
        b'0'
    } else {
        digit + 1
    }
}

fn mixer_of(digits: &[u8]) -> Mixer {
    let mut m = Mixer::default();
    for d in digits {
        m.push(d - b'0');
    }
    m
}

// A little generator, so that the tiers meet inputs of every length.
fn digits(seed: u64, len: usize) -> Vec<u8> {
    let mut state = seed;
    let mut out = Vec::new();
    for _ in 0..len {
        state = state.wrapping_mul(6364136223846793005).wrapping_add(1442695040888963407);
        out.push(b'0' + ((state >> 33) % 10) as u8);
    }
    out
}

#[test]
fn tiers_agree_on_digit_strings() {
    for len in 0..40usize {
        for seed in 0..25u64 {
            let s = digits(seed * 41 + len as u64, len);
            let expected = decimal::valid(&s);
            assert_eq!(swar::valid(&s), expected);
            assert_eq!(decimal::valid_vec(&s, fold_block), expected);
            assert_eq!(alphanum::valid(&s), expected);
            assert_eq!(mixer_of(&s).valid(), expected);
            let check = decimal::checksum(&s);
            assert_eq!(swar::checksum(&s), check);
            assert_eq!(decimal::checksum_vec(&s, fold_block), check);
            assert_eq!(alphanum::checksum(&s), check);
            assert_eq!(Some(mixer_of(&s).checksum()), check);
            for flag in [false, true] {
                let a = fold10(flag, &s).unwrap();
                let b = fold10w(flag, &s).unwrap();
                let c = fold36(flag, &s).unwrap();
                let d = fold10v(flag, &s, fold_block).unwrap();
                assert_eq!(a, c);
                assert_eq!(a % 10, b % 10);
                assert_eq!(a % 10, d % 10);
            }
        }
    }
}

#[test]
fn tiers_reject_the_same_strings() {
    for len in 1..30usize {
        let clean = digits(len as u64, len);
        for at in 0..len {
            for bad in [b'/', b':', b' ', b'x', 0u8, 0x80, 0xb5, 0xff] {
                let mut s = clean.clone();
                s[at] = bad;
                assert!(!decimal::valid(&s));
                assert!(!swar::valid(&s));
                assert!(!decimal::valid_vec(&s, fold_block));
                assert!(!alphanum::valid(&s));
                assert_eq!(decimal::checksum_vec(&s, fold_block), None);
                assert_eq!(decimal::checksum(&s), None);
                assert_eq!(swar::checksum(&s), None);
                assert_eq!(alphanum::checksum(&s), None);
            }
            let mut s = clean.clone();
            s[at] = b'K';
            assert!(!decimal::valid(&s));
            assert!(!swar::valid(&s));
            assert_eq!(decimal::checksum(&s), None);
            assert_eq!(swar::checksum(&s), None);
            assert!(alphanum::checksum(&s).is_some());
        }
    }
}

#[test]
fn check_digit_completes_its_body() {
    for len in 0..30usize {
        let mut s = digits(1000 + len as u64, len);
        let c = decimal::checksum(&s).unwrap();
        assert!((b'0'..=b'9').contains(&c));
        s.push(c);
        assert!(decimal::valid(&s));
        assert!(swar::valid(&s));
    }
    for sample in ALPHANUM {
        let mut s = Vec::from(&sample.as_bytes()[..sample.len() - 1]);
        let c = alphanum::checksum(&s).unwrap();
        s.push(c);
        assert!(alphanum::valid(&s));
        assert_eq!(s, sample.as_bytes());
    }
}

#[test]
fn any_stepped_digit_is_caught() {
    for sample in DECIMAL {
        assert!(decimal::valid(sample.as_bytes()));
        for i in 0..sample.len() {
            let mut s = Vec::from(*sample);
            s[i] = next_digit(s[i]);
            assert!(!decimal::valid(&s));
            assert!(!swar::valid(&s));
        }
    }
    for sample in ALPHANUM {
        assert!(alphanum::valid(sample.as_bytes()));
        for i in 0..sample.len() {
            let mut s = Vec::from(*sample);
            if s[i].is_ascii_digit() {
                s[i] = next_digit(s[i]);
                assert!(!alphanum::valid(&s));
            }
        }
    }
}

#[test]
fn swapped_neighbours_are_caught() {
    for sample in DECIMAL {
        for i in 0..sample.len() - 1 {
            let mut s = Vec::from(*sample);
            let zero_and_nine = (s[i] == b'0' && s[i + 1] == b'9') || (s[i] == b'9' && s[i + 1] == b'0');
            if s[i] != s[i + 1] && !zero_and_nine {
                s.swap(i, i + 1);
                assert!(!decimal::valid(&s));
                assert!(!swar::valid(&s));
            }
        }
    }
}

#[test]
fn swapped_zero_and_nine_pass_unnoticed() {
    assert!(decimal::valid(b"091"));
    assert!(decimal::valid(b"901"));
    assert!(swar::valid(b"091"));
    assert!(swar::valid(b"901"));
}
