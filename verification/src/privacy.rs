//! Peer identity distribution and host-side resolution of private addresses.

use crate::bytes::same_bytes;
use crate::hci::{address_text, read_address, BdAddr};
use crate::text::{decimal, push_decimal};
use aes::cipher::generic_array::GenericArray;
use aes::cipher::{BlockEncrypt, KeyInit};
use vstd::prelude::*;
use vstd::string::*;

verus! {

/// Why pairing data could not be used.
#[derive(Debug, Clone, Copy)]
pub enum SmpError {
    /// The named part of the exchange does not have the shape it claims.
    Malformed(&'static str),
}

/// What AES-128 encryption makes of one block under one key, both in the byte
/// order of FIPS-197.
pub uninterp spec fn aes128(key: Seq<u8>, block: Seq<u8>) -> Seq<u8>;

/// `Aes128::new` and `encrypt_block` of the `aes` crate: encrypts one block of
/// sixteen bytes under one key of sixteen bytes. The result depends on these
/// two alone; what it is for given values is left to the cipher.
#[verifier::external_body]
fn encrypt_block(key: &[u8; 16], block: &[u8; 16]) -> (out: [u8; 16])
    ensures
        out@ == aes128(key@, block@),
{
    let cipher = aes::Aes128::new(GenericArray::from_slice(key));
    let mut out = GenericArray::clone_from_slice(block);
    cipher.encrypt_block(&mut out);
    out.into()
}

/// Who a bonded peer is, and the key that recognises its private addresses.
#[derive(Clone, Copy, PartialEq, Eq)]
pub struct PeerIdentity {
    /// SMP wire order (least significant octet first). Never log this key.
    pub irk: [u8; 16],
    pub address: BdAddr,
    pub address_type: u8,
}

/// What an identity says.
pub struct Identity {
    pub irk: Seq<u8>,
    pub address: Seq<u8>,
    pub address_type: u8,
}

impl View for PeerIdentity {
    type V = Identity;

    open spec fn view(&self) -> Identity {
        Identity { irk: self.irk@, address: self.address.0@, address_type: self.address_type }
    }
}

/// Whether the two pairing PDUs that distribute an identity are well formed: a
/// whole key, and an address that is public or static random.
pub open spec fn is_identity(key: Seq<u8>, address: Seq<u8>) -> bool {
    &&& key.len() == 17 && key[0] == 0x08
    &&& address.len() == 8 && address[0] == 0x09
    &&& address[1] == 0 || (address[1] == 1 && address[7] >= 0xC0)
}

/// A resolvable private address: the two top bits of its last byte are 01.
pub open spec fn is_resolvable(address: Seq<u8>) -> bool {
    0x40 <= address[5] < 0x80
}

/// The block that is encrypted to check a private address: its random part,
/// most significant byte first, behind thirteen zeros.
pub open spec fn random_part(address: Seq<u8>) -> Seq<u8> {
    Seq::new(13, |i: int| 0u8) + seq![address[5], address[4], address[3]]
}

/// Whether the three low bytes of an encrypted block are the hash part of an
/// address.
pub open spec fn hash_agrees(block: Seq<u8>, address: Seq<u8>) -> bool {
    block[15] == address[0] && block[14] == address[1] && block[13] == address[2]
}

/// A key of sixteen zeros, which stands for no key.
pub open spec fn is_blank(key: Seq<u8>) -> bool {
    forall|i: int| 0 <= i < key.len() ==> key[i] == 0
}

/// Whether an encrypted random part confirms a private address.
pub fn confirms(block: &[u8; 16], address: BdAddr) -> (yes: bool)
    ensures
        yes == hash_agrees(block@, address.0@),
{
    block[15] == address.0[0] && block[14] == address.0[1] && block[13] == address.0[2]
}

impl PeerIdentity {
    /// Whether a device that shows `address` is this peer: its identity address
    /// itself, or a private address that its key resolves.
    pub open spec fn recognises(self, address: Seq<u8>, address_type: u8) -> bool {
        ||| address == self.address.0@ && address_type == self.address_type
        ||| {
            &&& address_type == 1
            &&& is_resolvable(address)
            &&& !is_blank(self.irk@)
            &&& hash_agrees(aes128(self.irk@.reverse(), random_part(address)), address)
        }
    }

    pub fn from_pdus(key: &[u8], address: &[u8]) -> (identity: Result<Self, SmpError>)
        ensures
            match identity {
                Ok(identity) => {
                    &&& is_identity(key@, address@)
                    &&& identity.irk@ == key@.skip(1)
                    &&& identity.address.0@ == address@.skip(2)
                    &&& identity.address_type == address@[1]
                },
                Err(error) => !is_identity(key@, address@) && error == SmpError::Malformed(
                    "identity distribution",
                ),
            },
    {
        if key.len() != 17 || key[0] != 0x08 || address.len() != 8 || address[0] != 0x09
            || address[1] > 1 || (address[1] == 1 && address[7] < 0xC0) {
            return Err(SmpError::Malformed("identity distribution"));
        }
        let mut irk: [u8; 16] = [0u8; 16];
        let mut i: usize = 0;
        while i < 16
            invariant
                i <= 16,
                key@.len() == 17,
                forall|j: int| 0 <= j < i ==> irk@[j] == key@[j + 1],
            decreases 16 - i,
        {
            irk[i] = key[i + 1];
            i = i + 1;
        }
        assert(irk@ =~= key@.skip(1));
        let identity_address = read_address(address, 2);
        assert(identity_address.0@ =~= address@.skip(2));
        Ok(PeerIdentity { irk, address: identity_address, address_type: address[1] })
    }

    /// Whether a device that shows `address` is this peer.
    pub fn matches(&self, address: BdAddr, address_type: u8) -> (yes: bool)
        ensures
            yes == self.recognises(address.0@, address_type),
    {
        if address.same(&self.address) && address_type == self.address_type {
            return true;
        }
        let blank: [u8; 16] = [0u8; 16];
        if address_type != 1 || address.0[5] < 0x40 || address.0[5] >= 0x80 {
            return false;
        }
        if same_bytes(&self.irk, &blank) {
            return false;
        }
        proof {
            if is_blank(self.irk@) {
                assert(self.irk@ =~= blank@);
            }
        }
        let mut key: [u8; 16] = [0u8; 16];
        let mut i: usize = 0;
        while i < 16
            invariant
                i <= 16,
                forall|j: int| 0 <= j < i ==> key@[j] == self.irk@[15 - j],
            decreases 16 - i,
        {
            key[i] = self.irk[15 - i];
            i = i + 1;
        }
        assert(key@ =~= self.irk@.reverse());
        let mut block: [u8; 16] = [0u8; 16];
        block[13] = address.0[5];
        block[14] = address.0[4];
        block[15] = address.0[3];
        assert(block@ =~= random_part(address.0@));
        confirms(&encrypt_block(&key, &block), address)
    }

    /// The identity without its key, for logs.
    pub fn to_string(&self) -> (text: String)
        ensures
            text@ == "PeerIdentity { address: BdAddr("@ + address_text(self.address.0@)
                + "), address_type: "@ + decimal(self.address_type as nat) + ", .. }"@,
    {
        let mut text = String::from_str("PeerIdentity { address: BdAddr(");
        text.append(self.address.to_string().as_str());
        text.append("), address_type: ");
        push_decimal(&mut text, self.address_type as u64);
        text.append(", .. }");
        text
    }

    /// Whether two identities are the same, key and all.
    pub fn same(&self, other: &PeerIdentity) -> (yes: bool)
        ensures
            yes == (self.irk@ == other.irk@ && self.address.0@ == other.address.0@
                && self.address_type == other.address_type),
    {
        same_bytes(&self.irk, &other.irk) && self.address.same(&other.address) && self.address_type
            == other.address_type
    }
}

/// A peer is always recognised by its identity address, whatever its key.
pub proof fn identity_address_is_recognised(identity: PeerIdentity)
    ensures
        identity.recognises(identity.address.0@, identity.address_type),
{
}

/// Without a key no private address is recognised: only the identity address
/// itself is.
pub proof fn a_blank_key_resolves_nothing(
    identity: PeerIdentity,
    address: Seq<u8>,
    address_type: u8,
)
    requires
        is_blank(identity.irk@),
    ensures
        identity.recognises(address, address_type) == (address == identity.address.0@
            && address_type == identity.address_type),
{
}


/// A private address is recognised exactly when the peer's key made it. Its upper
/// half is random and marked by the bits 01 on top; its lower half is what the key
/// makes of the random half, and any other lower half is a stranger's.
pub proof fn only_the_key_makes_a_private_address(
    identity: PeerIdentity,
    random: Seq<u8>,
    hash: Seq<u8>,
    address_type: u8,
)
    requires
        random.len() == 3,
        hash.len() == 3,
        hash + random != identity.address.0@ || address_type != identity.address_type,
        exists|i: int| 0 <= i < 16 && identity.irk@[i] != 0,
        aes128(identity.irk@.reverse(), Seq::new(13, |i: int| 0u8) + random.reverse()).len() == 16,
    ensures
        identity.recognises(hash + random, address_type) <==> address_type == 1 && 64 <= random[2]
            < 128 && hash == aes128(
            identity.irk@.reverse(),
            Seq::new(13, |i: int| 0u8) + random.reverse(),
        ).skip(13).reverse(),
{
    let address = hash + random;
    let block = aes128(identity.irk@.reverse(), Seq::new(13, |i: int| 0u8) + random.reverse());
    assert(random_part(address) =~= Seq::new(13, |i: int| 0u8) + random.reverse());
    let low = block.skip(13).reverse();
    assert(low[0] == block[15] && low[1] == block[14] && low[2] == block[13]);
    assert(hash == low <==> hash_agrees(block, address)) by {
        if hash_agrees(block, address) {
            assert(hash[0] == address[0] && hash[1] == address[1] && hash[2] == address[2]);
            assert(hash =~= low);
        } else if hash == low {
            assert(address[0] == low[0] && address[1] == low[1] && address[2] == low[2]);
        }
    }
    assert(address[5] == random[2]);
    assert(!is_blank(identity.irk@));
}

/// An identity is taken from the two pairing messages whole: the key behind its
/// code, the kind of address and the address behind theirs. A public address is
/// always an identity, a random one only where its two top bits are set.
pub proof fn an_identity_is_a_key_and_an_address(key: Seq<u8>, kind: u8, address: Seq<u8>)
    requires
        key.len() == 16,
        address.len() == 6,
    ensures
        is_identity(seq![8u8] + key, seq![9u8, kind] + address) <==> kind == 0 || (kind == 1
            && address[5] >= 192),
{
    let second = seq![9u8, kind] + address;
    assert(second[7] == address[5]);
    assert(second[1] == kind);
}

} // verus!
