use candid::error::Error;
use candid::idl_hash;
use candid::leb::{
    read_le_bytes, read_leb128, read_sleb128, write_le_bytes, write_leb128, write_sleb128,
};
use candid::types::{field_id, field_named, record, variant, Type};

#[test]
fn hash_known_vectors() {
    // fold s = s*223 + b (mod 2^32), from zero
    assert_eq!(idl_hash(""), 0);
    assert_eq!(idl_hash("a"), 97);
    assert_eq!(idl_hash("ab"), 97 * 223 + 98);
    assert_eq!(idl_hash("abc"), (97u32 * 223 + 98).wrapping_mul(223).wrapping_add(99));
    let expected = "description"
        .bytes()
        .fold(0u32, |s, b| s.wrapping_mul(223).wrapping_add(b as u32));
    assert_eq!(idl_hash("description"), expected);
}

#[test]
fn hash_is_deterministic() {
    assert_eq!(idl_hash("head"), idl_hash("head"));
    assert_ne!(idl_hash("head"), idl_hash("tail"));
}

#[test]
fn leb_zero_is_single_zero_byte() {
    let mut buf: Vec<u8> = Vec::new();
    write_leb128(&mut buf, 0);
    assert_eq!(buf, vec![0u8]);
    let (v, p) = read_leb128(&buf, 0).unwrap();
    assert_eq!(v, 0);
    assert_eq!(p, 1);
}

#[test]
fn leb_multi_byte_round_trip() {
    let mut buf: Vec<u8> = Vec::new();
    write_leb128(&mut buf, 624485);
    assert_eq!(buf, vec![0xE5, 0x8E, 0x26]);
    let (v, p) = read_leb128(&buf, 0).unwrap();
    assert_eq!(v, 624485);
    assert_eq!(p, 3);
}

#[test]
fn leb_extremes_round_trip() {
    for value in [1u64, 127, 128, 300, u64::MAX - 1, u64::MAX] {
        let mut buf: Vec<u8> = Vec::new();
        write_leb128(&mut buf, value);
        let (v, p) = read_leb128(&buf, 0).unwrap();
        assert_eq!(v, value);
        assert_eq!(p, buf.len());
    }
}

#[test]
fn leb_rejects_truncated() {
    let r = read_leb128(&[0x80u8], 0);
    assert!(matches!(r, Err(Error::Format(_))));
}

#[test]
fn leb_rejects_overlong() {
    // 0 written in two groups
    let r = read_leb128(&[0x80u8, 0x00], 0);
    assert!(matches!(r, Err(Error::Format(_))));
}

#[test]
fn leb_rejects_too_wide() {
    // 2^64, one past the largest 64-bit value
    let r = read_leb128(&[0x80u8, 0x80, 0x80, 0x80, 0x80, 0x80, 0x80, 0x80, 0x80, 0x02], 0);
    assert!(matches!(r, Err(Error::Format(_))));
}

#[test]
fn sleb_minus_one_round_trips() {
    let mut buf: Vec<u8> = Vec::new();
    write_sleb128(&mut buf, -1);
    assert_eq!(buf, vec![0x7F]);
    let (v, p) = read_sleb128(&buf, 0).unwrap();
    assert_eq!(v, -1);
    assert_eq!(p, 1);
}

#[test]
fn sleb_known_vector() {
    let mut buf: Vec<u8> = Vec::new();
    write_sleb128(&mut buf, -123456);
    assert_eq!(buf, vec![0xC0, 0xBB, 0x78]);
    let (v, _) = read_sleb128(&buf, 0).unwrap();
    assert_eq!(v, -123456);
}

#[test]
fn sleb_extremes_round_trip() {
    for value in [0i64, 1, -1, 63, 64, -64, -65, 127, -128, i64::MAX, i64::MIN] {
        let mut buf: Vec<u8> = Vec::new();
        write_sleb128(&mut buf, value);
        let (v, p) = read_sleb128(&buf, 0).unwrap();
        assert_eq!(v, value);
        assert_eq!(p, buf.len());
    }
}

#[test]
fn sleb_rejects_overlong() {
    // -1 written in two groups
    let r = read_sleb128(&[0xFFu8, 0x7F], 0);
    assert!(matches!(r, Err(Error::Format(_))));
}

#[test]
fn le_bytes_round_trip() {
    let mut buf: Vec<u8> = Vec::new();
    write_le_bytes(&mut buf, 0x1234, 2);
    assert_eq!(buf, vec![0x34, 0x12]);
    let (v, p) = read_le_bytes(&buf, 0, 2).unwrap();
    assert_eq!(v, 0x1234);
    assert_eq!(p, 2);
}

#[test]
fn le_bytes_rejects_short_buffer() {
    let r = read_le_bytes(&[0x34u8], 0, 2);
    assert!(matches!(r, Err(Error::Format(_))));
}

#[test]
fn record_sorts_fields_by_hash() {
    let fields = vec![
        field_named("tail", Type::Null),
        field_named("head", Type::Int),
    ];
    let h_head = idl_hash("head");
    let h_tail = idl_hash("tail");
    let t = record(fields).unwrap();
    match t {
        Type::Record(fs) => {
            assert_eq!(fs.len(), 2);
            assert!(fs[0].hash < fs[1].hash);
            assert_eq!(fs[0].hash, h_head.min(h_tail));
            assert_eq!(fs[1].hash, h_head.max(h_tail));
        }
        _ => panic!("expected a record"),
    }
}

#[test]
fn record_rejects_colliding_siblings() {
    let fields = vec![field_id(42, Type::Int), field_id(42, Type::Text)];
    let r = record(fields);
    assert!(matches!(r, Err(Error::TypeTable(_))));
}

#[test]
fn variant_rejects_colliding_siblings() {
    let fields = vec![field_id(7, Type::Null), field_id(7, Type::Bool)];
    let r = variant(fields);
    assert!(matches!(r, Err(Error::TypeTable(_))));
}

#[test]
fn numeric_label_is_its_own_hash() {
    let f = field_id(1234, Type::Bool);
    assert_eq!(f.hash, 1234);
    let t = variant(vec![f]).unwrap();
    match t {
        Type::Variant(fs) => assert_eq!(fs[0].hash, 1234),
        _ => panic!("expected a variant"),
    }
}

#[test]
fn error_message_is_carried() {
    let r = read_leb128(&[0x80u8], 0);
    match r {
        Err(e) => assert!(!e.message().is_empty()),
        Ok(_) => panic!("expected an error"),
    }
}

#[test]
fn magic_marker_accepted() {
    let p = candid::wire::check_magic(&[0x44u8, 0x49, 0x44, 0x4C, 0x00, 0x00]).unwrap();
    assert_eq!(p, 4);
}

#[test]
fn magic_marker_mismatch_fails() {
    let r = candid::wire::check_magic(&[0x44u8, 0x49, 0x44, 0x4D]);
    assert!(matches!(r, Err(Error::Format(_))));
}

#[test]
fn short_message_fails_magic() {
    let r = candid::wire::check_magic(&[0x44u8, 0x49]);
    assert!(matches!(r, Err(Error::Format(_))));
}

#[test]
fn crafted_length_is_rejected_before_allocation() {
    // a message claiming a four-billion element sequence in a six-byte buffer
    let bytes = [0x44u8, 0x49, 0x44, 0x4C, 0x01, 0x02];
    let r = candid::wire::guard_declared_len(&bytes, 4, 4_000_000_000);
    assert!(matches!(r, Err(Error::Format(_))));
}

#[test]
fn declared_length_within_buffer_is_accepted() {
    let bytes = [0x44u8, 0x49, 0x44, 0x4C, 0x01, 0x02];
    let n = candid::wire::guard_declared_len(&bytes, 4, 2).unwrap();
    assert_eq!(n, 2);
}

#[test]
fn env_defines_and_finds() {
    let mut env = candid::env::TypeEnv::new();
    env.define("List", Type::Opt(Box::new(Type::Null))).unwrap();
    match env.find("List") {
        Some(Type::Opt(inner)) => assert!(matches!(**inner, Type::Null)),
        _ => panic!("expected the bound type"),
    }
    assert!(env.find("Tree").is_none());
}

#[test]
fn env_rejects_redefinition() {
    let mut env = candid::env::TypeEnv::new();
    env.define("T", Type::Int).unwrap();
    let r = env.define("T", Type::Nat);
    assert!(matches!(r, Err(Error::TypeTable(_))));
}

#[test]
fn recursive_reference_is_representable() {
    // a self-referential list shape: List = opt record { head : int; tail : List }
    let mut env = candid::env::TypeEnv::new();
    let body = record(vec![
        field_named("head", Type::Int),
        field_named("tail", Type::Var("List".to_string())),
    ])
    .unwrap();
    env.define("List", Type::Opt(Box::new(body))).unwrap();
    match env.find("List") {
        Some(Type::Opt(inner)) => match &**inner {
            Type::Record(fs) => {
                assert_eq!(fs.len(), 2);
                assert!(fs.iter().any(|f| matches!(&f.ty, Type::Var(n) if n == "List")));
            }
            _ => panic!("expected a record body"),
        },
        _ => panic!("expected the bound type"),
    }
}

#[test]
fn record_keeps_fields_through_sorting() {
    let t = record(vec![
        field_named("tail", Type::Null),
        field_named("head", Type::Int),
        field_id(3, Type::Bool),
    ])
    .unwrap();
    match t {
        Type::Record(fs) => {
            assert_eq!(fs.len(), 3);
            assert!(fs[0].hash < fs[1].hash && fs[1].hash < fs[2].hash);
            let head = fs.iter().find(|f| f.hash == idl_hash("head")).unwrap();
            assert_eq!(head.label, "head");
            assert!(matches!(head.ty, Type::Int));
            let tail = fs.iter().find(|f| f.hash == idl_hash("tail")).unwrap();
            assert_eq!(tail.label, "tail");
            assert!(matches!(tail.ty, Type::Null));
            let third = fs.iter().find(|f| f.hash == 3).unwrap();
            assert!(matches!(third.ty, Type::Bool));
        }
        _ => panic!("expected a record"),
    }
}

#[test]
fn collision_free_construction_always_succeeds() {
    // distinct numeric ids can never collide, so construction is owed
    let fields: Vec<_> = (0u32..50).map(|i| field_id(i, Type::Nat)).collect();
    assert!(record(fields).is_ok());
}

#[test]
fn resolve_follows_reference_chains() {
    let mut env = candid::env::TypeEnv::new();
    env.define("byte", Type::Nat8).unwrap();
    env.define("octet", Type::Var("byte".to_string())).unwrap();
    let t = Type::Var("octet".to_string());
    let u = env.resolve(&t, 16).unwrap();
    assert!(matches!(u, Type::Nat8));
    // a non-reference resolves to itself
    let v = env.resolve(&Type::Text, 16).unwrap();
    assert!(matches!(v, Type::Text));
}

#[test]
fn resolve_rejects_reference_cycles() {
    let mut env = candid::env::TypeEnv::new();
    env.define("A", Type::Var("B".to_string())).unwrap();
    env.define("B", Type::Var("A".to_string())).unwrap();
    let t = Type::Var("A".to_string());
    let r = env.resolve(&t, 32);
    assert!(matches!(r, Err(Error::TypeTable(_))));
}

#[test]
fn resolve_rejects_dangling_references() {
    let env = candid::env::TypeEnv::new();
    let t = Type::Var("Missing".to_string());
    let r = env.resolve(&t, 32);
    assert!(matches!(r, Err(Error::TypeTable(_))));
}

#[test]
fn blob_round_trips() {
    let mut buf: Vec<u8> = Vec::new();
    candid::wire::write_blob(&mut buf, &[0xDEu8, 0xAD, 0xBE, 0xEF]);
    assert_eq!(buf, vec![0x04, 0xDE, 0xAD, 0xBE, 0xEF]);
    let (data, p) = candid::wire::read_blob(&buf, 0).unwrap();
    assert_eq!(data, vec![0xDEu8, 0xAD, 0xBE, 0xEF]);
    assert_eq!(p, buf.len());
}

#[test]
fn empty_blob_round_trips() {
    let mut buf: Vec<u8> = Vec::new();
    candid::wire::write_blob(&mut buf, &[]);
    assert_eq!(buf, vec![0x00]);
    let (data, p) = candid::wire::read_blob(&buf, 0).unwrap();
    assert!(data.is_empty());
    assert_eq!(p, 1);
}

#[test]
fn blob_with_forged_length_fails() {
    // declares five bytes, carries two
    let r = candid::wire::read_blob(&[0x05u8, 0xAA, 0xBB], 0);
    assert!(matches!(r, Err(Error::Format(_))));
}
