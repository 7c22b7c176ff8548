use zkp_auth::{BigNat, BigUintExt, Vecu8Ext};

#[test]
fn arithmetic_values() {
    let a = BigNat::from_u64(42);
    let b = BigNat::from_u64(5);
    assert_eq!(a.mul(&b), BigNat::from_u64(210));
    assert_eq!(a.sub(&b), BigNat::from_u64(37));
    assert_eq!(a.rem(&b), BigNat::from_u64(2));
    assert!(a.ge(&b));
    assert!(!b.ge(&a));
    assert!(a.ge(&a.copy()));
    assert_eq!(BigNat::from_u64(4).modpow(&BigNat::from_u64(7), &BigNat::from_u64(23)), BigNat::from_u64(8));
}

#[test]
fn hex_numerals() {
    assert_eq!(BigNat::from_hex("ff"), Some(BigNat::from_u64(255)));
    assert_eq!(BigNat::from_hex("1A2b"), Some(BigNat::from_u64(0x1a2b)));
    assert_eq!(BigNat::from_hex(""), None);
    assert_eq!(BigNat::from_hex("12g4"), None);
    assert_eq!(BigNat::from_hex("+ff"), Some(BigNat::from_u64(255)));
    assert_eq!(BigNat::from_hex("f_f"), Some(BigNat::from_u64(255)));
    assert_eq!(BigNat::from_hex("_ff"), None);
    assert_eq!(BigNat::from_hex("++f"), None);
    assert_eq!(BigNat::from_hex("+"), None);
}

#[test]
fn wire_encoding() {
    assert_eq!(BigNat::from_u64(256).serialise(), vec![1u8, 0u8]);
    assert_eq!(BigNat::from_u64(0).serialise(), vec![0u8]);
    let n = vec![0u8, 1u8, 0u8].deserialise_big_uint();
    assert_eq!(n, BigNat::from_u64(256));
    assert_eq!(n.serialise(), vec![1u8, 0u8]);
    assert_eq!(n.to_bytes_be(), vec![1u8, 0u8]);
    assert_eq!(vec![0u8, 0u8].deserialise_big_uint().serialise(), vec![0u8]);
    assert_eq!(Vec::<u8>::new().deserialise_big_uint(), BigNat::from_u64(0));
    assert_eq!(BigNat::from_bytes_be(vec![1u8, 2u8, 3u8]), BigNat::from_u64(0x010203));
}
