use vstd::prelude::*;

verus! {

/// The ASCII-lowercased image of one byte: `b'A'..=b'Z'` maps to
/// `b'a'..=b'z'`; every other byte is unchanged.
pub open spec fn lower_byte(b: u8) -> u8 {
    if 65 <= b && b <= 90 {
        (b + 32) as u8
    } else {
        b
    }
}

/// The ASCII-lowercased image of a byte string.
pub open spec fn lower_bytes(s: Seq<u8>) -> Seq<u8> {
    s.map_values(|b: u8| lower_byte(b))
}

/// The legacy ordering hash of a member name: each byte is ASCII-lowercased,
/// then folded left to right as `acc = byte + 137 * acc` in wrapping 32-bit
/// arithmetic, starting from 0.  A repacked archive places its members in
/// ascending order of this value.
pub open spec fn name_hash_spec(s: Seq<u8>) -> u32
    decreases s.len(),
{
    if s.len() == 0 {
        0u32
    } else {
        (((lower_byte(s.last()) as int) + 137 * (name_hash_spec(s.drop_last()) as int))
            % 0x1_0000_0000) as u32
    }
}

/// Computes the legacy ordering hash of `name`.
pub fn name_hash(name: &[u8]) -> (r: u32)
    ensures
        r == name_hash_spec(name@),
{
    let mut acc: u32 = 0;
    let mut i: usize = 0;
    while i < name.len()
        invariant
            i <= name@.len(),
            acc == name_hash_spec(name@.take(i as int)),
        decreases name@.len() - i,
    {
        let b: u8 = name[i];
        let low: u8 = if 65 <= b && b <= 90 {
            b + 32
        } else {
            b
        };
        let next: u32 = (low as u32).wrapping_add(137u32.wrapping_mul(acc));
        proof {
            let t = name@.take(i + 1);
            assert(t.drop_last() =~= name@.take(i as int));
            assert(t.last() == name@[i as int]);
            lemma_hash_step(acc, name@[i as int]);
        }
        acc = next;
        i = i + 1;
    }
    proof {
        assert(name@.take(name@.len() as int) =~= name@);
    }
    acc
}

/// One fold step of the hash agrees with the wrapping arithmetic the
/// executable code uses.
proof fn lemma_hash_step(acc: u32, b: u8)
    ensures
        vstd::wrapping::u32_specs::wrapping_add(
            lower_byte(b) as u32,
            vstd::wrapping::u32_specs::wrapping_mul(137u32, acc),
        ) == (((lower_byte(b) as int) + 137 * (acc as int)) % 0x1_0000_0000) as u32,
{
    let m: int = 0x1_0000_0000;
    let low: int = lower_byte(b) as int;
    let prod: int = 137 * (acc as int);
    assert(vstd::wrapping::u32_specs::wrapping_mul(137u32, acc) == (prod % m) as u32);
    vstd::arithmetic::div_mod::lemma_add_mod_noop(low, prod, m);
    vstd::arithmetic::div_mod::lemma_small_mod(low as nat, m as nat);
    vstd::arithmetic::div_mod::lemma_mod_twice(prod, m);
}

/// Lowercasing a name first does not change its hash: the hash already
/// lowercases every byte, and ASCII lowercasing is idempotent.
pub proof fn lemma_name_hash_case_insensitive(s: Seq<u8>)
    ensures
        name_hash_spec(lower_bytes(s)) == name_hash_spec(s),
    decreases s.len(),
{
    if s.len() == 0 {
        assert(lower_bytes(s) =~= s);
    } else {
        lemma_name_hash_case_insensitive(s.drop_last());
        assert(lower_bytes(s).drop_last() =~= lower_bytes(s.drop_last()));
        assert(lower_bytes(s).last() == lower_byte(s.last()));
        assert(lower_byte(lower_byte(s.last())) == lower_byte(s.last()));
    }
}

} // verus!
