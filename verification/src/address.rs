use vstd::prelude::*;

verus! {

/// An account or contract address: twenty bytes.
#[derive(Clone, Copy, Debug)]
pub struct Address {
    pub bytes: [u8; 20],
}

impl View for Address {
    type V = Seq<u8>;

    open spec fn view(&self) -> Seq<u8> {
        self.bytes@
    }
}

/// The address at which a contract is created by `sender` in the transaction
/// that carries `nonce`: the last twenty bytes of the Keccak-256 hash of the
/// RLP encoding of the pair.
pub uninterp spec fn created_address(sender: Seq<u8>, nonce: int) -> Seq<u8>;

/// Calls `ethers::utils::get_contract_address`, which RLP-encodes the sender
/// and the nonce, hashes the encoding with Keccak-256 and keeps the last
/// twenty bytes. The contract only names that value: it is the same for the
/// same sender and nonce.
#[verifier::external_body]
fn derive_address(sender: &Address, nonce: u128) -> (address: Address)
    ensures
        address@ == created_address(sender@, nonce as int),
{
    let created = ethers::utils::get_contract_address(
        ethers::types::H160(sender.bytes),
        ethers::types::U256::from(nonce),
    );
    Address { bytes: created.0 }
}

impl Address {
    /// The address made of the given twenty bytes.
    pub fn new(bytes: [u8; 20]) -> (address: Address)
        ensures
            address@ == bytes@,
    {
        Address { bytes }
    }

    /// The address that a contract gets when `self` creates it with `nonce`.
    pub fn created_with(&self, nonce: u128) -> (address: Address)
        ensures
            address@ == created_address(self@, nonce as int),
    {
        derive_address(self, nonce)
    }
}

} // verus!
