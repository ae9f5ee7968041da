//! Packing of a position into one integer, so that positions can key hash
//! tables whose key type the verifier models.
use vstd::prelude::*;
use crate::coords::IVec3;

verus! {

/// The key of position `p`: its three coordinates as 32-bit fields of one integer.
pub open spec fn key_of(p: IVec3) -> u128 {
    ((p.x as u32) as u128) << 64u128 | ((p.y as u32) as u128) << 32u128 | ((p.z as u32) as u128)
}

/// The position a key stands for.
pub open spec fn pos_of_key(k: u128) -> IVec3 {
    IVec3 {
        x: ((k >> 64u128) as u32) as i32,
        y: ((k >> 32u128) as u32) as i32,
        z: (k as u32) as i32,
    }
}

/// True when `k` is the key of some position.
pub open spec fn is_pos_key(k: u128) -> bool {
    k < 0x1_0000_0000_0000_0000_0000_0000u128
}

/// The set by position of a set of position keys.
pub open spec fn set_by_pos(s: Set<u128>) -> Set<IVec3> {
    Set::new(|p: IVec3| s.contains(key_of(p)))
}

/// The key of a position.
pub fn key(p: IVec3) -> (r: u128)
    ensures
        r == key_of(p),
{
    ((p.x as u32) as u128) << 64u128 | ((p.y as u32) as u128) << 32u128 | ((p.z as u32) as u128)
}

/// The position a key stands for.
pub fn pos_of(k: u128) -> (r: IVec3)
    ensures
        r == pos_of_key(k),
{
    IVec3 { x: ((k >> 64u128) as u32) as i32, y: ((k >> 32u128) as u32) as i32, z: (k as u32) as i32 }
}

proof fn lemma_key_fields(x: i32, y: i32, z: i32)
    ensures
        ((((((x as u32) as u128) << 64u128 | ((y as u32) as u128) << 32u128 | ((z as u32) as u128))
            >> 64u128) as u32) as i32) == x,
        ((((((x as u32) as u128) << 64u128 | ((y as u32) as u128) << 32u128 | ((z as u32) as u128))
            >> 32u128) as u32) as i32) == y,
        (((((x as u32) as u128) << 64u128 | ((y as u32) as u128) << 32u128 | ((z as u32) as u128))
            as u32) as i32) == z,
        (((x as u32) as u128) << 64u128 | ((y as u32) as u128) << 32u128 | ((z as u32) as u128))
            < 0x1_0000_0000_0000_0000_0000_0000u128,
{
    assert(((((((x as u32) as u128) << 64u128 | ((y as u32) as u128) << 32u128 | ((z as u32) as u128))
        >> 64u128) as u32) as i32) == x) by (bit_vector);
    assert(((((((x as u32) as u128) << 64u128 | ((y as u32) as u128) << 32u128 | ((z as u32) as u128))
        >> 32u128) as u32) as i32) == y) by (bit_vector);
    assert((((((x as u32) as u128) << 64u128 | ((y as u32) as u128) << 32u128 | ((z as u32) as u128))
        as u32) as i32) == z) by (bit_vector);
    assert((((x as u32) as u128) << 64u128 | ((y as u32) as u128) << 32u128 | ((z as u32) as u128))
        < 0x1_0000_0000_0000_0000_0000_0000u128) by (bit_vector);
}

proof fn lemma_key_of_fields(k: u128)
    requires
        k < 0x1_0000_0000_0000_0000_0000_0000u128,
    ensures
        ((((((k >> 64u128) as u32) as i32) as u32) as u128) << 64u128
            | (((((k >> 32u128) as u32) as i32) as u32) as u128) << 32u128
            | ((((k as u32) as i32) as u32) as u128)) == k,
{
    assert(((((((k >> 64u128) as u32) as i32) as u32) as u128) << 64u128
        | (((((k >> 32u128) as u32) as i32) as u32) as u128) << 32u128
        | ((((k as u32) as i32) as u32) as u128)) == k) by (bit_vector)
        requires
            k < 0x1_0000_0000_0000_0000_0000_0000u128,
    ;
}

/// A key gives back its position, and every key is a position key.
pub proof fn lemma_key_roundtrip(p: IVec3)
    ensures
        pos_of_key(key_of(p)) == p,
        is_pos_key(key_of(p)),
{
    lemma_key_fields(p.x, p.y, p.z);
}

/// Every position key is the key of the position it stands for.
pub proof fn lemma_pos_key_roundtrip(k: u128)
    requires
        is_pos_key(k),
    ensures
        key_of(pos_of_key(k)) == k,
{
    lemma_key_of_fields(k);
}

/// Distinct positions have distinct keys.
pub proof fn lemma_key_injective(a: IVec3, b: IVec3)
    ensures
        key_of(a) == key_of(b) <==> a == b,
{
    lemma_key_roundtrip(a);
    lemma_key_roundtrip(b);
}

} // verus!
