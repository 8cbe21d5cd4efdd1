use shamir::field::{gf_add, gf_div, gf_inv, gf_mul};
use shamir::{simple_combine, simple_split, Share, SssError};

#[test]
fn test_field_addition_is_xor() {
    assert_eq!(gf_add(0x53, 0xCA), 0x99);
    assert_eq!(gf_add(0xFF, 0xFF), 0);
    assert_eq!(gf_add(0, 0x2A), 0x2A);
}

#[test]
fn test_field_multiplication() {
    assert_eq!(gf_mul(3, 2), 6);
    assert_eq!(gf_mul(4, 2), 8);
    // 0x80 * 2 overflows the byte and is reduced by the modulus 0x11d.
    assert_eq!(gf_mul(0x80, 2), 0x1d);
    assert_eq!(gf_mul(0, 0x7B), 0);
    assert_eq!(gf_mul(0x7B, 0), 0);
    assert_eq!(gf_mul(0x7B, 1), 0x7B);
    assert_eq!(gf_mul(1, 0x7B), 0x7B);
}

#[test]
fn test_field_division() {
    assert_eq!(gf_div(6, 2), Ok(3));
    assert_eq!(gf_div(8, 4), Ok(2));
    assert_eq!(gf_inv(1), Ok(1));
    // Every nonzero element times its inverse is one.
    for b in 1..=255u8 {
        let inv = gf_inv(b).unwrap();
        assert_eq!(gf_mul(b, inv), 1);
    }
    // Division by the zero element fails.
    assert_eq!(gf_div(5, 0), Err(SssError::ArithmeticError));
    assert_eq!(gf_inv(0), Err(SssError::ArithmeticError));
}

#[test]
fn test_share_bytes_round_trip() {
    let share = Share { x: 7, ys: vec![1, 2, 3] };
    let bytes = share.to_bytes();
    assert_eq!(bytes, vec![7, 1, 2, 3]);
    let back = Share::from_bytes(bytes.as_slice()).unwrap();
    assert_eq!(back.x, 7);
    assert_eq!(back.ys, vec![1, 2, 3]);

    // A single byte is a share of the empty secret.
    let lone = Share::from_bytes(&[9]).unwrap();
    assert_eq!(lone.x, 9);
    assert_eq!(lone.ys, Vec::<u8>::new());

    // No bytes at all is not a share.
    assert_eq!(Share::from_bytes(&[]).unwrap_err(), SssError::DecodeError);
}

#[test]
fn test_concrete_scenario() {
    let secret = "Hello World!";
    let shares = simple_split(secret, 2, 4).unwrap();
    assert_eq!(shares.len(), 4);

    let result = simple_combine(shares[0..2].to_vec()).unwrap();
    assert_eq!(result, secret);
    let result = simple_combine(shares[1..3].to_vec()).unwrap();
    assert_eq!(result, secret);

    // A single share is below the threshold and cannot recover the secret.
    let result = simple_combine(shares[0..1].to_vec());
    assert_ne!(result, Ok(secret.to_string()));
}

#[test]
fn test_order_independence() {
    let secret = "order does not matter";
    let shares = simple_split(secret, 3, 5).unwrap();
    let forward = vec![shares[0].clone(), shares[2].clone(), shares[4].clone()];
    let backward = vec![shares[4].clone(), shares[0].clone(), shares[2].clone()];
    let a = simple_combine(forward).unwrap();
    let b = simple_combine(backward).unwrap();
    assert_eq!(a, secret);
    assert_eq!(a, b);
}

#[test]
fn test_undersized_subset() {
    let secret = "secret stuff";
    let shares = simple_split(secret, 3, 5).unwrap();
    // Several (threshold - 1)-subsets: none recovers the secret.
    let pairs = [(0, 1), (1, 2), (2, 3), (0, 4)];
    for (a, b) in pairs {
        let subset = vec![shares[a].clone(), shares[b].clone()];
        let result = simple_combine(subset);
        assert_ne!(result, Ok(secret.to_string()));
    }
}

#[test]
fn test_single_share_threshold_one() {
    let secret = "one is enough";
    let shares = simple_split(secret, 1, 3).unwrap();
    for s in shares {
        assert_eq!(simple_combine(vec![s]).unwrap(), secret);
    }
}

#[test]
fn test_empty_secret() {
    let shares = simple_split("", 2, 3).unwrap();
    assert_eq!(shares.len(), 3);
    // Each share is one bare x-coordinate byte; any two give back the
    // empty secret.
    assert_eq!(simple_combine(shares[0..2].to_vec()).unwrap(), "");
    assert_eq!(simple_combine(shares[1..3].to_vec()).unwrap(), "");
    assert_eq!(
        simple_combine(vec![shares[0].clone(), shares[2].clone()]).unwrap(),
        ""
    );
}

#[test]
fn test_malformed_input() {
    // Wrong alphabet.
    let result = simple_combine(vec!["!!!not-base64!!!".to_string()]);
    assert_eq!(result.unwrap_err(), SssError::DecodeError);

    // Truncated transport string.
    let result = simple_combine(vec!["AR0UGMgRlTD5XNUsy".to_string()]);
    assert_eq!(result.unwrap_err(), SssError::DecodeError);

    // Decodes to zero bytes: too short to carry even an x-coordinate.
    let result = simple_combine(vec!["".to_string()]);
    assert_eq!(result.unwrap_err(), SssError::DecodeError);
}

#[test]
fn test_duplicate_share() {
    let shares = simple_split("Hello World!", 2, 4).unwrap();
    let result = simple_combine(vec![shares[0].clone(), shares[0].clone()]);
    assert_eq!(result.unwrap_err(), SssError::DuplicateShare);
}

#[test]
fn test_inconsistent_share_length() {
    let short = simple_split("ab", 2, 2).unwrap();
    let long = simple_split("abcd", 2, 2).unwrap();
    let result = simple_combine(vec![short[0].clone(), long[1].clone()]);
    assert_eq!(result.unwrap_err(), SssError::InconsistentShareLength);
}

#[test]
fn test_too_many_shares() {
    let shares = simple_split("x", 2, 2).unwrap();
    let many = vec![shares[0].clone(); 256];
    let result = simple_combine(many);
    assert_eq!(result.unwrap_err(), SssError::TooManyShares);
}
