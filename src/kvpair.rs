use vstd::prelude::*;
use crate::bytes::le_bytes;
use crate::bytes::u64_to_le_bytes;

verus! {

/// The 32-byte database id and the leaf address that a key-value request names: the
/// id is the first two limbs' bytes, least significant first, then sixteen zeros; the
/// address is the third limb.
pub fn get_merkle_db_address(address_limbs: &Vec<u64>) -> (r: (Vec<u8>, u64))
    requires
        address_limbs@.len() >= 3,
    ensures
        r.0@ == le_bytes(address_limbs@[0] as nat, 8) + le_bytes(address_limbs@[1] as nat, 8)
            + Seq::new(16, |i: int| 0u8),
        r.1 == address_limbs@[2],
{
    let mut id = u64_to_le_bytes(address_limbs[0]);
    let mut second = u64_to_le_bytes(address_limbs[1]);
    id.append(&mut second);
    let ghost head = id@;
    let mut k: usize = 0;
    while k < 16
        invariant
            k <= 16,
            id@ == head + Seq::new(k as nat, |i: int| 0u8),
        decreases 16 - k,
    {
        id.push(0);
        k = k + 1;
        proof {
            assert(id@ =~= head + Seq::new(k as nat, |i: int| 0u8));
        }
    }
    (id, address_limbs[2])
}

} // verus!
