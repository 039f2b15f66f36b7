//! Account records and the addresses that they carry.

use vstd::prelude::*;

verus! {

/// The address of an account or of a program.
#[derive(Debug, Clone, Copy, Eq)]
pub struct Pubkey(pub [u8; 32]);

impl PartialEq for Pubkey {
    fn eq(&self, other: &Self) -> (equal: bool) {
        let mut i: usize = 0;
        while i < 32
            invariant
                i <= 32,
                forall|j: int| 0 <= j < i ==> self.0[j] == other.0[j],
            decreases 32 - i,
        {
            if self.0[i] != other.0[i] {
                return false;
            }
            i += 1;
        }
        assert(self.0 =~= other.0);
        true
    }
}

impl vstd::std_specs::cmp::PartialEqSpecImpl for Pubkey {
    open spec fn obeys_eq_spec() -> bool {
        true
    }

    open spec fn eq_spec(&self, other: &Self) -> bool {
        *self == *other
    }
}

/// Two addresses are equal exactly if they are equal in each of their bytes.
pub proof fn law_addresses_equal_byte_by_byte(a: Pubkey, b: Pubkey)
    ensures
        vstd::std_specs::cmp::PartialEqSpec::eq_spec(&a, &b) <==> forall|k: int|
            0 <= k < 32 ==> #[trigger] a.0[k] == b.0[k],
{
    assert((a.0 =~= b.0) <==> a == b);
}

/// One archived state of an account: what it held at a slot.
#[derive(Debug, PartialEq, Eq)]
pub struct EpochAccount {
    /// The account's address, in text.
    pub key: String,
    pub slot: u64,
    /// The address of the owning program, in text.
    pub owner: String,
    pub data: Vec<u8>,
}

/// An archived state whose data went through the program decoder.
#[derive(Debug, PartialEq, Eq)]
pub struct DecodedEpochAccount<D> {
    pub key: String,
    pub slot: u64,
    pub owner: String,
    pub decoded: D,
}

} // verus!
