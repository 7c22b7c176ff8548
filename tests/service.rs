use zkp_auth::table::Table;
use zkp_auth::{
    big_unit_of_entry, get_big_unit, group_from_parameters, mod_sub, parse_columnar_hex, AuthError, AuthService, BigNat,
    ChallengeStore, ChaumPedersen, ParamError,
    UserRegistry,
};

fn toy_group() -> ChaumPedersen {
    ChaumPedersen::new(BigNat::from_u64(23), BigNat::from_u64(11), BigNat::from_u64(4), BigNat::from_u64(9))
}

fn registered_service(name: &str, x: u64) -> AuthService {
    let mut service = AuthService::new(toy_group());
    let (y1, y2) = service.get_params().generate_pair(&BigNat::from_u64(x));
    assert_eq!(service.register(name.to_string(), y1, y2), Ok(()));
    service
}

#[test]
fn full_login_succeeds() {
    let mut service = registered_service("alice", 6);
    let cp = toy_group();
    let k = cp.generate_q_random();
    let (r1, r2) = cp.generate_pair(&k);
    let (id, c) = service.create_authentication_challenge("alice".to_string(), r1, r2).unwrap();
    let s = cp.solve(&k, &c, &BigNat::from_u64(6));
    let session = service.verify_authentication(&id, &s).unwrap();
    assert_eq!(session.user_name, "alice");
    assert_eq!(session.session_id.chars().count(), 36);
}

#[test]
fn wrong_secret_is_permission_denied() {
    let mut service = registered_service("bob", 6);
    let cp = toy_group();
    let k = BigNat::from_u64(7);
    let (r1, r2) = cp.generate_pair(&k);
    let (id, c) = service.create_authentication_challenge("bob".to_string(), r1, r2).unwrap();
    // s + 1 modulo 11 is wrong whatever c is, since g has order 11.
    let s = cp.solve(&k, &c, &BigNat::from_u64(6));
    let wrong = mod_sub(&s, &BigNat::from_u64(10), &BigNat::from_u64(11));
    assert_eq!(service.verify_authentication(&id, &wrong).err(), Some(AuthError::PermissionDenied));
    // The challenge is gone: answering it again, even correctly, is refused.
    assert_eq!(service.verify_authentication(&id, &s).err(), Some(AuthError::Unauthenticated));
}

#[test]
fn replayed_answer_is_refused() {
    let mut service = registered_service("carol", 3);
    let cp = toy_group();
    let k = BigNat::from_u64(5);
    let (r1, r2) = cp.generate_pair(&k);
    let (id, c) = service.create_authentication_challenge("carol".to_string(), r1, r2).unwrap();
    let s = cp.solve(&k, &c, &BigNat::from_u64(3));
    assert!(service.verify_authentication(&id, &s).is_ok());
    assert_eq!(service.verify_authentication(&id, &s).err(), Some(AuthError::Unauthenticated));
}

#[test]
fn second_registration_is_refused_and_keeps_commitment() {
    let mut service = registered_service("dave", 6);
    let (y1, y2) = toy_group().generate_pair(&BigNat::from_u64(9));
    assert_eq!(service.register("dave".to_string(), y1, y2), Err(AuthError::AlreadyExists));
    // The first commitment still holds: the secret 6 still logs in.
    let cp = toy_group();
    let k = BigNat::from_u64(2);
    let (r1, r2) = cp.generate_pair(&k);
    let (id, c) = service.create_authentication_challenge("dave".to_string(), r1, r2).unwrap();
    let s = cp.solve(&k, &c, &BigNat::from_u64(6));
    assert!(service.verify_authentication(&id, &s).is_ok());
}

#[test]
fn challenge_for_unknown_user_is_not_found() {
    let mut service = registered_service("erin", 6);
    let result = service.create_authentication_challenge("frank".to_string(), BigNat::from_u64(1), BigNat::from_u64(1));
    assert_eq!(result.err(), Some(AuthError::NotFound));
}

#[test]
fn answer_to_unknown_token_is_unauthenticated() {
    let mut service = registered_service("grace", 6);
    let result = service.verify_authentication(&"no-such-token".to_string(), &BigNat::from_u64(1));
    assert_eq!(result.err(), Some(AuthError::Unauthenticated));
}

#[test]
fn registry_register_and_lookup() {
    let mut registry = UserRegistry::new();
    assert_eq!(registry.lookup(&"heidi".to_string()).err(), Some(AuthError::NotFound));
    assert_eq!(registry.register("heidi".to_string(), BigNat::from_u64(2), BigNat::from_u64(3)), Ok(()));
    assert_eq!(
        registry.register("heidi".to_string(), BigNat::from_u64(4), BigNat::from_u64(5)),
        Err(AuthError::AlreadyExists)
    );
    let user = registry.lookup(&"heidi".to_string()).unwrap();
    assert_eq!(user.user_name, "heidi");
    assert_eq!(user.y1, BigNat::from_u64(2));
    assert_eq!(user.y2, BigNat::from_u64(3));
}

#[test]
fn consume_twice_gives_record_then_not_found() {
    let cp = toy_group();
    let mut store = ChallengeStore::new();
    let (id, c) = store.create(&cp, "ivan".to_string(), BigNat::from_u64(8), BigNat::from_u64(12));
    let (other, _) = store.create(&cp, "judy".to_string(), BigNat::from_u64(1), BigNat::from_u64(1));
    assert_ne!(id, other);
    let first = store.consume(&id).unwrap();
    assert_eq!(first.user_name, "ivan");
    assert_eq!(first.r1, BigNat::from_u64(8));
    assert_eq!(first.r2, BigNat::from_u64(12));
    assert_eq!(first.c, c);
    assert_eq!(store.consume(&id).err(), Some(AuthError::NotFound));
    assert!(store.consume(&other).is_ok());
}

#[test]
fn columnar_hex_is_parsed() {
    assert_eq!(parse_columnar_hex("f f\n0"), Ok(BigNat::from_u64(0xff0)));
    assert_eq!(parse_columnar_hex("  17  "), Ok(BigNat::from_u64(0x17)));
    assert_eq!(parse_columnar_hex(" \n "), Err(AuthError::InvalidArgument));
    assert_eq!(parse_columnar_hex("12 zz"), Err(AuthError::InvalidArgument));
    assert_eq!(parse_columnar_hex("\tA0\r\n0B\r\n"), Ok(BigNat::from_u64(0xa00b)));
    assert_eq!(parse_columnar_hex("+1_0"), Ok(BigNat::from_u64(0x10)));
}

#[test]
fn group_parameters_are_checked() {
    let ok = group_from_parameters(BigNat::from_u64(23), BigNat::from_u64(11), BigNat::from_u64(4)).unwrap();
    assert_eq!(ok.p, BigNat::from_u64(23));
    assert_eq!(ok.q, BigNat::from_u64(11));
    assert_eq!(ok.g, BigNat::from_u64(4));
    // h is a power of g other than one: 4 generates {1, 4, 16, 18, 3, 12, 2, 8, 9, 13, 6}.
    assert_ne!(ok.h, BigNat::from_u64(1));
    let powers: Vec<BigNat> = (1..11u64).map(|t| BigNat::from_u64(4).modpow(&BigNat::from_u64(t), &BigNat::from_u64(23))).collect();
    assert!(powers.contains(&ok.h));
    assert!(group_from_parameters(BigNat::from_u64(1), BigNat::from_u64(11), BigNat::from_u64(4)).is_err());
    assert!(group_from_parameters(BigNat::from_u64(23), BigNat::from_u64(0), BigNat::from_u64(4)).is_err());
    assert_eq!(
        group_from_parameters(BigNat::from_u64(23), BigNat::from_u64(1), BigNat::from_u64(4)).err(),
        Some(AuthError::InvalidArgument)
    );
    for _ in 0..30 {
        let cp = group_from_parameters(BigNat::from_u64(23), BigNat::from_u64(11), BigNat::from_u64(4)).unwrap();
        assert_ne!(cp.h, BigNat::from_u64(1));
    }
}

#[test]
fn parameters_are_read_from_a_table() {
    let config: toml::Table = "p = \"1 7\"\nq = 11\ng = \"x1\"\n".parse().unwrap();
    assert_eq!(get_big_unit(&config, "p"), Ok(BigNat::from_u64(0x17)));
    assert_eq!(get_big_unit(&config, "q"), Err(ParamError::NotAString));
    assert_eq!(get_big_unit(&config, "g"), Err(ParamError::NotHex));
    assert_eq!(get_big_unit(&config, "h"), Err(ParamError::MissingKey));
}

#[test]
fn table_entries_are_read() {
    assert_eq!(big_unit_of_entry(Some(Some("a\nb"))), Ok(BigNat::from_u64(0xab)));
    assert_eq!(big_unit_of_entry(Some(Some(""))), Err(ParamError::NotHex));
    assert_eq!(big_unit_of_entry(Some(None)), Err(ParamError::NotAString));
    assert_eq!(big_unit_of_entry(None), Err(ParamError::MissingKey));
}

#[test]
fn colliding_token_is_made_fresh() {
    let mut table: Table<u64> = Table::new();
    table.insert("abc".to_string(), 1);
    table.insert("x".to_string(), 2);
    assert_eq!(table.fresh_key("new".to_string()), "new");
    let fresh = table.fresh_key("abc".to_string());
    assert_eq!(fresh, "abcabcx0");
    assert!(!table.contains(&fresh));
    assert_eq!(table.get(&"abc".to_string()), Some(&1));
}

#[test]
fn tokens_are_distinct_uuids() {
    let cp = toy_group();
    let mut store = ChallengeStore::new();
    let mut seen: Vec<String> = Vec::new();
    for _ in 0..20 {
        let (id, _) = store.create(&cp, "kim".to_string(), BigNat::from_u64(1), BigNat::from_u64(1));
        assert_eq!(id.chars().count(), 36);
        assert!(!seen.contains(&id));
        seen.push(id);
    }
}

#[test]
fn table_entries_of_each_kind() {
    let config: toml::Table = "a = \"+1_f\"\nb = [1]\nc = \"\\t\"\n".parse().unwrap();
    assert_eq!(get_big_unit(&config, "a"), Ok(BigNat::from_u64(0x1f)));
    assert_eq!(get_big_unit(&config, "b"), Err(ParamError::NotAString));
    assert_eq!(get_big_unit(&config, "c"), Err(ParamError::NotHex));
}
