use luhn3::vector::fold_block;
use luhn3::{alphanum, decimal};

const DECIMAL_LUHN_SAMPLES: &[&str] = &[
    // test cc numbers
    "378282246310005",  // American Express
    "371449635398431",  // American Express
    "378734493671000",  // American Express Corporate
    "5610591081018250", // Australian BankCard
    "30569309025904",   // Diners Club
    "38520000023237",   // Diners Club
    "6011111111111117", // Discover
    "6011000990139424", // Discover
    "3530111333300000", // JCB
    "3566002020360505", // JCB
    "5555555555554444", // MasterCard
    "5105105105105100", // MasterCard
    "4111111111111111", // Visa
    "4012888888881881", // Visa
    "4222222222222",    // Visa
    "5019717010103742", // Dankort (PBS)
    "6331101999990016", // Switch/Solo (Paymentech)
    // random IMEI
    "358771054102508", // Apple iPad Air (A1475)
    "867103029110602", // HUAWEI G610-U20
    "358625057927511", // Cinterion PHS8-P
    "359513063006075", // Samsung GT-I9300I
    "351813076684290", // Samsung SM-G531H/DS
];

const ALPHANUM_LUHN_SAMPLES: &[&str] = &[
    "US5949181045", // Microsoft
    "US38259P5089", // Google
    "US0378331005", // Apple
    "BMG491BT1088", // Invesco
    "IE00B4BNMY34", // Accenture
    "US0231351067", // Amazon
    "US64110L1061", // Netflix
    "US30303M1027", // Facebook
    "CH0031240127", // BMW Australia
    "CA9861913023", // Yorbeau Res
    // various Kospi200 options with all possible checksum digits
    "KR4101R60000",
    "KR4201QB2551",
    "KR4201RC3102",
    "KR4201Q92623",
    "KR4205QB2904",
    "KR4301R12825",
    "KR4301QC2906",
    "KR4205Q92327",
    "KR4301QB3228",
    "KR4301Q93579",
];

fn change_digit(digit: u8) -> u8 {
    if digit == b'9' {
        b'0'
    } else {
        digit + 1
    }
}

#[test]
fn test_ae_checksum() {
    let (&check, body) = b"378282246310005".split_last().unwrap();
    assert_eq!(Some(check), decimal::checksum(body));
}

#[test]
fn test_decimal_luhn_checksum() {
    for sample in DECIMAL_LUHN_SAMPLES {
        // number is valid as is valid
        assert!(decimal::valid(sample.as_bytes()));

        // luhn checksum detects a single changed digit
        let mut s = Vec::from(*sample);
        s[3] = change_digit(s[3]);
        assert!(!decimal::valid(&s));

        // luhn checksum also detects two digit swap
        let mut s = Vec::from(*sample);
        if s[3] != s[4] {
            s.swap(3, 4);
            assert!(!decimal::valid(&s));
        }

        // last digit is it's luhn checksum
        let (checksum, body) = sample.as_bytes().split_last().unwrap();
        assert_eq!(Some(*checksum), decimal::checksum(body));

        // and finally only decimal numbers are accepted
        let mut s = Vec::from(*sample);
        s[3] = b'x';
        assert!(!decimal::valid(&s));
    }
}

#[test]
fn test_decimal_luhn_checksum_vec() {
    for sample in DECIMAL_LUHN_SAMPLES {
        // number is valid as is valid
        assert!(decimal::valid_vec(sample.as_bytes(), fold_block));

        // luhn checksum detects a single changed digit
        let mut s = Vec::from(*sample);
        s[3] = change_digit(s[3]);
        assert!(!decimal::valid_vec(&s, fold_block));

        // luhn checksum also detects two digit swap
        let mut s = Vec::from(*sample);
        if s[3] != s[4] {
            s.swap(3, 4);
            assert!(!decimal::valid_vec(&s, fold_block));
        }

        // last digit is it's luhn checksum
        let (checksum, body) = sample.as_bytes().split_last().unwrap();
        assert_eq!(Some(*checksum), decimal::checksum_vec(body, fold_block));

        // and finally only decimal numbers are accepted
        let mut s = Vec::from(*sample);
        s[3] = b'x';
        assert!(!decimal::valid_vec(&s, fold_block));
    }
}

#[test]
fn test_alphanum_luhn_samples() {
    for sample in ALPHANUM_LUHN_SAMPLES {
        // number is valid as is valid
        assert!(alphanum::valid(sample.as_bytes()));

        // luhn checksum detects a single changed digit
        let mut s = Vec::from(*sample);
        s[3] = change_digit(s[3]);
        assert!(!alphanum::valid(&s));

        // last digit is it's luhn checksum
        let (checksum, body) = sample.as_bytes().split_last().unwrap();
        assert_eq!(Some(*checksum), alphanum::checksum(body));

        // and finally only alphanum numbers are accepted
        let mut s = Vec::from(*sample);
        s[3] = b'x';
        assert!(!alphanum::valid(&s));
    }
}
