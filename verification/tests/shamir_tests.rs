use rand::distributions::{Alphanumeric, DistString};
use rand::{thread_rng, Rng};
use shamir::{simple_combine, simple_split};

#[test]
fn test_simple_split() {
    let secret = "Hello World!";
    let threshold = 2;
    let shares = 4;

    // Test with valid input
    let result = simple_split(secret, threshold, shares);

    assert!(result.is_ok());
    let result = result.unwrap();
    assert_eq!(result.len(), shares as usize);

    // Tests with invalid input
    let result = simple_split(secret, 0, shares);

    assert!(result.is_err());
    let result = result.unwrap_err();
    assert_eq!(result.message(), "invalid threshold: 0");

    let result = simple_split(secret, threshold, 0);

    assert!(result.is_err());
    let result = result.unwrap_err();
    assert_eq!(result.message(), "invalid shares: 0");

    let result = simple_split(secret, 4, 2);

    assert!(result.is_err());
    let result = result.unwrap_err();
    assert_eq!(result.message(), "threshold can't be bigger than shares");
}

#[test]
fn test_simple_combine() {
    let expected_secret = "Hello World!";
    let shares = vec![
        "AR0UGMgRlTD5XNUsyw==".to_string(),
        "AuKHhDmTV5leLgP06A==".to_string(),
        "A7f28J3t4v7IALq8Ag==".to_string(),
        "BAG8ocaKztYNyrJZrg==".to_string(),
    ];

    let result = simple_combine(shares.to_vec());

    assert!(result.is_ok());
    let result = result.unwrap();
    assert_eq!(result, expected_secret);

    // Test only 2 shares
    let result = simple_combine(shares[0..2].to_vec());

    assert!(result.is_ok());
    let result = result.unwrap();
    assert_eq!(result, expected_secret);
}

#[test]
fn test_simple_flow_loop() {
    let secret = "Hello World!";

    // Test with all combinations of threshold and shares
    for threshold in 1..=255 {
        // 80% change of skipping this loop
        if rand::random::<u8>() < 204 {
            continue;
        }

        for shares in threshold..=255 {
            // 80% change of skipping this loop
            if rand::random::<u8>() < 204 {
                continue;
            }

            let result = simple_split(secret, threshold, shares);

            assert!(result.is_ok());
            let result = result.unwrap();
            assert_eq!(result.len(), shares as usize);

            // Test with all shares
            let combine = simple_combine(result.to_vec());

            assert!(combine.is_ok());
            let combine = combine.unwrap();
            assert_eq!(combine, secret);

            // Test with minimum shares
            let combine = simple_combine(result[0..threshold as usize].to_vec());

            assert!(combine.is_ok());
            let combine = combine.unwrap();
            assert_eq!(combine, secret);
        }
    }
}

#[test]
fn test_simple_flow_random() {
    // Test with random secret, threshold and shares
    let mut rng = thread_rng();
    for _ in 0..=100 {
        let secret_len = rng.gen_range(0..=512);
        let secret = Alphanumeric.sample_string(&mut rng, secret_len);
        let threshold = rng.gen_range(1..=255);
        let shares = rng.gen_range(threshold..=255);

        let result = simple_split(&secret, threshold, shares);

        assert!(result.is_ok());
        let result = result.unwrap();
        assert_eq!(result.len(), shares as usize);

        let combine = simple_combine(result);

        assert!(combine.is_ok());
        let combine = combine.unwrap();
        assert_eq!(combine, secret);
    }
}
