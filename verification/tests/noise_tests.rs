use murali::noise::{hash2, hash3};

#[test]
fn hash2_of_origin_is_zero() {
    assert_eq!(hash2(0, 0), 0);
}

#[test]
fn hash2_known_values() {
    assert_eq!(hash2(1, 0), 2182377942);
    assert_eq!(hash2(0, 1), 3299714085);
    assert_eq!(hash2(-1, -1), 731167729);
    assert_eq!(hash2(12345, -678), 2771372155);
    assert_eq!(hash2(i32::MAX, i32::MIN), 2321422717);
}

#[test]
fn hash2_is_not_symmetric() {
    assert_ne!(hash2(1, 0), hash2(0, 1));
}

#[test]
fn hash3_known_values() {
    assert_eq!(hash3(0, 0, 0), 0);
    assert_eq!(hash3(1, 2, 3), 11126309);
    assert_eq!(hash3(-1, -1, -1), 3710266402);
    assert_eq!(hash3(0, 0, 1), 41681532);
    assert_eq!(hash3(100, -200, 300), 2763151827);
}

#[test]
fn hash_is_deterministic() {
    assert_eq!(hash3(7, 8, 9), hash3(7, 8, 9));
    assert_eq!(hash2(7, 8), hash2(7, 8));
}
