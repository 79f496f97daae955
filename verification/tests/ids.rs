use persist_client::ids::{
    accept_parsed, format_id, parse_id, CriticalReaderId, LeasedReaderId, ShardId, WriterId,
};

#[test]
fn fmt_ids() {
    assert_eq!(
        ShardId([0u8; 16]).to_string(),
        "s00000000-0000-0000-0000-000000000000"
    );
    assert_eq!(
        ShardId([0u8; 16]).debug_string(),
        "ShardId(00000000-0000-0000-0000-000000000000)"
    );
    assert_eq!(
        LeasedReaderId([0u8; 16]).to_string(),
        "r00000000-0000-0000-0000-000000000000"
    );
    assert_eq!(
        LeasedReaderId([0u8; 16]).debug_string(),
        "LeasedReaderId(00000000-0000-0000-0000-000000000000)"
    );

    // ShardId can be parsed back from its Display/to_string format.
    assert_eq!(
        ShardId::from_str("s00000000-0000-0000-0000-000000000000"),
        Ok(ShardId([0u8; 16]))
    );
    assert_eq!(
        ShardId::from_str("x00000000-0000-0000-0000-000000000000"),
        Err(
            "invalid ShardId x00000000-0000-0000-0000-000000000000: incorrect prefix"
                .to_string()
        )
    );
    assert_eq!(
        ShardId::from_str("s0"),
        Err(
            "invalid ShardId s0: invalid length: expected length 32 for simple format, found 1"
                .to_string()
        )
    );
    assert_eq!(
        ShardId::from_str("s00000000-0000-0000-0000-000000000000FOO"),
        Err("invalid ShardId s00000000-0000-0000-0000-000000000000FOO: invalid character: expected an optional prefix of `urn:uuid:` followed by [0-9a-zA-Z], found `O` at 38".to_string())
    );
}

#[test]
fn shard_id_round_trips() {
    let mut bytes = [0u8; 16];
    for seed in 0..=255u8 {
        for (i, b) in bytes.iter_mut().enumerate() {
            *b = seed.wrapping_mul(31).wrapping_add((i as u8).wrapping_mul(17));
        }
        let id = ShardId(bytes);
        assert_eq!(ShardId::from_str(&id.to_string()), Ok(id));
    }
    let id = ShardId([0xff; 16]);
    assert_eq!(id.to_string(), "sffffffff-ffff-ffff-ffff-ffffffffffff");
    assert_eq!(ShardId::from_str("sffffffff-ffff-ffff-ffff-ffffffffffff"), Ok(id));
}

#[test]
fn id_text_is_lower_case_hyphenated() {
    let id = ShardId([
        0x00, 0x01, 0x23, 0x45, 0x67, 0x89, 0xab, 0xcd, 0xef, 0x10, 0x32, 0x54, 0x76, 0x98, 0xba,
        0xdc,
    ]);
    assert_eq!(id.to_string(), "s00012345-6789-abcd-ef10-32547698badc");
    assert_eq!(format_id('q', &id.0), "q00012345-6789-abcd-ef10-32547698badc");
    assert_eq!(
        id.debug_string(),
        "ShardId(00012345-6789-abcd-ef10-32547698badc)"
    );
}

#[test]
fn upper_case_digits_are_read() {
    assert_eq!(
        ShardId::from_str("s00012345-6789-ABCD-EF10-32547698BADC"),
        ShardId::from_str("s00012345-6789-abcd-ef10-32547698badc")
    );
}

#[test]
fn other_uuid_forms_are_refused() {
    // 32 digits without hyphens are a UUID, but not the text of an identifier.
    assert_eq!(
        ShardId::from_str("s00000000000000000000000000000000"),
        Err("invalid ShardId s00000000000000000000000000000000: incorrect length".to_string())
    );
    assert_eq!(
        ShardId::from_str("s{00000000-0000-0000-0000-000000000000}"),
        Err(
            "invalid ShardId s{00000000-0000-0000-0000-000000000000}: incorrect length"
                .to_string()
        )
    );
    assert_eq!(
        ShardId::from_str(""),
        Err("invalid ShardId : incorrect prefix".to_string())
    );
    assert_eq!(
        ShardId::from_str("s"),
        Err(
            "invalid ShardId s: invalid length: expected length 32 for simple format, found 0"
                .to_string()
        )
    );
}

#[test]
fn accept_parsed_decides_by_length() {
    let text = "s00000000-0000-0000-0000-000000000000";
    assert_eq!(accept_parsed("ShardId", text, Ok([7u8; 16])), Ok([7u8; 16]));
    assert_eq!(
        accept_parsed("ShardId", "s0", Ok([7u8; 16])),
        Err("invalid ShardId s0: incorrect length".to_string())
    );
    assert_eq!(
        accept_parsed("WriterId", text, Err("bad".to_string())),
        Err("invalid WriterId s00000000-0000-0000-0000-000000000000: bad".to_string())
    );
}

#[test]
fn parse_id_checks_the_prefix() {
    assert_eq!(
        parse_id('w', "WriterId", "w00000000-0000-0000-0000-000000000001"),
        Ok([0, 0, 0, 0, 0, 0, 0, 0, 0, 0, 0, 0, 0, 0, 0, 1])
    );
    assert_eq!(
        parse_id('w', "WriterId", "r00000000-0000-0000-0000-000000000001"),
        Err("invalid WriterId r00000000-0000-0000-0000-000000000001: incorrect prefix".to_string())
    );
}

#[test]
fn prefixes_of_the_kinds() {
    assert_eq!(
        WriterId([0u8; 16]).to_string(),
        "w00000000-0000-0000-0000-000000000000"
    );
    assert_eq!(
        WriterId([0u8; 16]).debug_string(),
        "WriterId(00000000-0000-0000-0000-000000000000)"
    );
    assert_eq!(
        CriticalReaderId([0, 0, 0, 0, 17, 17, 34, 34, 51, 51, 68, 68, 68, 68, 68, 68]).to_string(),
        "c00000000-1111-2222-3333-444444444444"
    );
    assert_eq!(
        LeasedReaderId::from_str("r00000000-0000-0000-0000-00000000000a"),
        Ok(LeasedReaderId([0, 0, 0, 0, 0, 0, 0, 0, 0, 0, 0, 0, 0, 0, 0, 10]))
    );
    assert_eq!(
        WriterId::from_str("s00000000-0000-0000-0000-000000000000"),
        Err("invalid WriterId s00000000-0000-0000-0000-000000000000: incorrect prefix".to_string())
    );
}

#[test]
fn new_ids_are_version_four_and_differ() {
    let a = ShardId::new();
    let b = ShardId::new();
    assert_ne!(a, b);
    assert_eq!(a.0[6] >> 4, 4);
    assert_eq!(a.0[8] >> 6, 2);
    assert_eq!(ShardId::from_str(&a.to_string()), Ok(a));
    assert!(a.same(&a));
    assert!(!a.same(&b));
    let w = WriterId::new();
    assert_eq!(w.0[6] >> 4, 4);
}
