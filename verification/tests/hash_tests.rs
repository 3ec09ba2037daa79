use collision_editor::hash::name_hash;

#[test]
fn empty_name_hashes_to_zero() {
    assert_eq!(name_hash(b""), 0);
}

#[test]
fn single_byte_is_its_lowercase_value() {
    assert_eq!(name_hash(b"a"), 97);
    assert_eq!(name_hash(b"A"), 97);
}

#[test]
fn two_bytes_fold_left_with_factor_137() {
    // 'a' = 97, 'b' = 98: 98 + 137 * 97 = 13387
    assert_eq!(name_hash(b"ab"), 13387);
}

#[test]
fn hash_is_case_insensitive() {
    assert_eq!(name_hash(b"A.txt"), name_hash(b"a.txt"));
    assert_eq!(name_hash(b"MiXeD_CaSe.BIN"), name_hash(b"mixed_case.bin"));
}

#[test]
fn hash_is_deterministic() {
    let a = name_hash(b"some_member.jonbin");
    let b = name_hash(b"some_member.jonbin");
    assert_eq!(a, b);
}

#[test]
fn hash_wraps_in_32_bits() {
    // long inputs exercise the wrapping fold; the call must not panic and
    // must stay reproducible
    let long: Vec<u8> = (0..=255u8).cycle().take(10_000).collect();
    assert_eq!(name_hash(&long), name_hash(&long));
}
