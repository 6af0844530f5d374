//! The canonical descriptor of a bridged token asset: a fixed-layout,
//! ABI-style byte string determined by the token standard, the contract
//! address and the token id. The descriptor is the sole input of both asset
//! type hashes, so its layout must be reproduced byte for byte.

use crate::bytes::{push_all, push_zeros, zero_bytes};
use vstd::prelude::*;

verus! {

/// How a token's identity is represented on chain; it determines the
/// descriptor layout.
#[derive(Clone, Copy, Debug, PartialEq, Eq, Structural)]
pub enum TokenStandard {
    /// A fungible token: one asset per contract, no token id.
    Fungible,
    /// A non-fungible token with a per-item id, first sub-variant.
    NonFungibleTypeA,
    /// A non-fungible token with a per-item id, second sub-variant.
    NonFungibleTypeB,
}

/// The registry's type code of a standard: 1 and 2 name the two non-fungible
/// sub-variants, every other code the fungible standard.
pub open spec fn standard_of_code_spec(code: u8) -> TokenStandard {
    if code == 1 {
        TokenStandard::NonFungibleTypeA
    } else if code == 2 {
        TokenStandard::NonFungibleTypeB
    } else {
        TokenStandard::Fungible
    }
}

/// Maps the registry's numeric token type code to the standard it names.
pub fn standard_of_code(code: u8) -> (s: TokenStandard)
    ensures
        s == standard_of_code_spec(code),
{
    if code == 1 {
        TokenStandard::NonFungibleTypeA
    } else if code == 2 {
        TokenStandard::NonFungibleTypeB
    } else {
        TokenStandard::Fungible
    }
}

/// The ASCII bytes of the fungible standard's prefix string,
/// `"Findora ERC20 Asset Type"`. Part of the wire contract with the on-chain
/// registry: altering it breaks compatibility with registered identifiers.
pub open spec fn erc20_prefix() -> Seq<u8> {
    seq![
        0x46u8, 0x69u8, 0x6eu8, 0x64u8, 0x6fu8, 0x72u8, 0x61u8, 0x20u8, 0x45u8, 0x52u8, 0x43u8,
        0x32u8, 0x30u8, 0x20u8, 0x41u8, 0x73u8, 0x73u8, 0x65u8, 0x74u8, 0x20u8, 0x54u8, 0x79u8,
        0x70u8, 0x65u8,
    ]
}

/// The ASCII bytes of the first non-fungible sub-variant's prefix string,
/// `"Findora ERC721 Asset Type"`.
pub open spec fn erc721_prefix() -> Seq<u8> {
    seq![
        0x46u8, 0x69u8, 0x6eu8, 0x64u8, 0x6fu8, 0x72u8, 0x61u8, 0x20u8, 0x45u8, 0x52u8, 0x43u8,
        0x37u8, 0x32u8, 0x31u8, 0x20u8, 0x41u8, 0x73u8, 0x73u8, 0x65u8, 0x74u8, 0x20u8, 0x54u8,
        0x79u8, 0x70u8, 0x65u8,
    ]
}

/// The ASCII bytes of the second non-fungible sub-variant's prefix string,
/// `"Findora ERC1155 Asset Type"`.
pub open spec fn erc1155_prefix() -> Seq<u8> {
    seq![
        0x46u8, 0x69u8, 0x6eu8, 0x64u8, 0x6fu8, 0x72u8, 0x61u8, 0x20u8, 0x45u8, 0x52u8, 0x43u8,
        0x31u8, 0x31u8, 0x35u8, 0x35u8, 0x20u8, 0x41u8, 0x73u8, 0x73u8, 0x65u8, 0x74u8, 0x20u8,
        0x54u8, 0x79u8, 0x70u8, 0x65u8,
    ]
}

/// The prefix string bytes that belong to a token standard.
pub open spec fn prefix_of(standard: TokenStandard) -> Seq<u8> {
    match standard {
        TokenStandard::Fungible => erc20_prefix(),
        TokenStandard::NonFungibleTypeA => erc721_prefix(),
        TokenStandard::NonFungibleTypeB => erc1155_prefix(),
    }
}

/// The Keccak-256 digest of a byte string, 32 bytes.
pub uninterp spec fn keccak256_of(s: Seq<u8>) -> Seq<u8>;

/// Relies on `ethers::utils::keccak256`: the Keccak-256 digest of the input,
/// 32 bytes, a function of the input bytes alone.
#[verifier::external_body]
pub(crate) fn keccak256(input: &Vec<u8>) -> (r: Vec<u8>)
    ensures
        r@ == keccak256_of(input@),
        r@.len() == 32,
{
    ethers::utils::keccak256(input.as_slice()).to_vec()
}

/// An address as one ABI word: 12 zero bytes, then the 20 address bytes.
pub open spec fn abi_address_word(addr: Seq<u8>) -> Seq<u8> {
    zero_bytes(12) + addr
}

/// The high word of a token id's 32-byte big-endian buffer: its first 31
/// bytes, then one zero byte.
pub open spec fn token_code0(code: Seq<u8>) -> Seq<u8> {
    code.take(31) + zero_bytes(1)
}

/// The low word of a token id's 32-byte big-endian buffer: its last byte,
/// then 31 zero bytes.
pub open spec fn token_code1(code: Seq<u8>) -> Seq<u8> {
    seq![code[31]] + zero_bytes(31)
}

/// The descriptor of a fungible asset: the prefix tag word, then the address
/// word. 64 bytes.
pub open spec fn fungible_descriptor(tag: Seq<u8>, addr: Seq<u8>) -> Seq<u8> {
    tag + abi_address_word(addr)
}

/// The descriptor of a non-fungible asset: the prefix tag word, the address
/// word, and the token id split over two words. 128 bytes.
pub open spec fn nonfungible_descriptor(tag: Seq<u8>, addr: Seq<u8>, code: Seq<u8>) -> Seq<u8> {
    tag + abi_address_word(addr) + token_code0(code) + token_code1(code)
}

/// The canonical descriptor of an asset: `addr` is the 20-byte contract
/// address and `code` the token id written big-endian into 32 bytes.
pub open spec fn descriptor_spec(standard: TokenStandard, addr: Seq<u8>, code: Seq<u8>) -> Seq<
    u8,
> {
    match standard {
        TokenStandard::Fungible => fungible_descriptor(keccak256_of(erc20_prefix()), addr),
        TokenStandard::NonFungibleTypeA => nonfungible_descriptor(
            keccak256_of(erc721_prefix()),
            addr,
            code,
        ),
        TokenStandard::NonFungibleTypeB => nonfungible_descriptor(
            keccak256_of(erc1155_prefix()),
            addr,
            code,
        ),
    }
}

/// Encoding is deterministic: the descriptor is a function of the standard,
/// the address and the token id alone, so equal inputs give byte-identical
/// descriptors.
pub proof fn lemma_encode_deterministic(
    standard: TokenStandard,
    addr: Seq<u8>,
    code: Seq<u8>,
    d1: Seq<u8>,
    d2: Seq<u8>,
)
    requires
        d1 == descriptor_spec(standard, addr, code),
        d2 == descriptor_spec(standard, addr, code),
    ensures
        d1 == d2,
{
}

/// A descriptor's length is fixed by the standard alone: 64 bytes for a
/// fungible asset and 128 bytes for either non-fungible sub-variant, for any
/// 32-byte tag, 20-byte address and 32-byte token id.
pub proof fn lemma_descriptor_lengths(tag: Seq<u8>, addr: Seq<u8>, code: Seq<u8>)
    requires
        tag.len() == 32,
        addr.len() == 20,
        code.len() == 32,
    ensures
        fungible_descriptor(tag, addr).len() == 64,
        nonfungible_descriptor(tag, addr, code).len() == 128,
{
}

/// The ASCII bytes of the prefix string of `standard`.
pub fn prefix_bytes(standard: TokenStandard) -> (r: Vec<u8>)
    ensures
        r@ == prefix_of(standard),
{
    let mut v: Vec<u8> = Vec::new();
    v.push(0x46);
    v.push(0x69);
    v.push(0x6e);
    v.push(0x64);
    v.push(0x6f);
    v.push(0x72);
    v.push(0x61);
    v.push(0x20);
    v.push(0x45);
    v.push(0x52);
    v.push(0x43);
    match standard {
        TokenStandard::Fungible => {
            v.push(0x32);
            v.push(0x30);
        },
        TokenStandard::NonFungibleTypeA => {
            v.push(0x37);
            v.push(0x32);
            v.push(0x31);
        },
        TokenStandard::NonFungibleTypeB => {
            v.push(0x31);
            v.push(0x31);
            v.push(0x35);
            v.push(0x35);
        },
    }
    v.push(0x20);
    v.push(0x41);
    v.push(0x73);
    v.push(0x73);
    v.push(0x65);
    v.push(0x74);
    v.push(0x20);
    v.push(0x54);
    v.push(0x79);
    v.push(0x70);
    v.push(0x65);
    proof {
        match standard {
            TokenStandard::Fungible => {
                assert(v@ =~= erc20_prefix());
            },
            TokenStandard::NonFungibleTypeA => {
                assert(v@ =~= erc721_prefix());
            },
            TokenStandard::NonFungibleTypeB => {
                assert(v@ =~= erc1155_prefix());
            },
        }
    }
    v
}

/// Encodes a token descriptor: `address` is the 20-byte contract address and
/// `token_id_be` the token id written big-endian into 32 bytes (ignored for a
/// fungible asset). The result is the canonical descriptor: 64 bytes for a
/// fungible asset, 128 bytes for a non-fungible one.
pub fn encode(standard: TokenStandard, address: &Vec<u8>, token_id_be: &Vec<u8>) -> (r: Vec<u8>)
    requires
        address@.len() == 20,
        token_id_be@.len() == 32,
    ensures
        r@ == descriptor_spec(standard, address@, token_id_be@),
        r@.len() == if standard is Fungible {
            64int
        } else {
            128int
        },
        r@.len() % 32 == 0,
{
    let prefix = prefix_bytes(standard);
    let tag = keccak256(&prefix);
    let mut out: Vec<u8> = Vec::new();
    push_all(&mut out, &tag);
    push_zeros(&mut out, 12);
    push_all(&mut out, address);
    match standard {
        TokenStandard::Fungible => {
            proof {
                assert(out@ =~= fungible_descriptor(keccak256_of(erc20_prefix()), address@));
            }
        },
        TokenStandard::NonFungibleTypeA | TokenStandard::NonFungibleTypeB => {
            let ghost mid = out@;
            let mut j: usize = 0;
            while j < 31
                invariant
                    j <= 31,
                    token_id_be@.len() == 32,
                    out@ == mid + token_id_be@.take(j as int),
                decreases 31 - j,
            {
                out.push(token_id_be[j]);
                assert(out@ =~= mid + token_id_be@.take(j + 1));
                j = j + 1;
            }
            out.push(0);
            out.push(token_id_be[31]);
            push_zeros(&mut out, 31);
            proof {
                let tagv = if standard is NonFungibleTypeA {
                    keccak256_of(erc721_prefix())
                } else {
                    keccak256_of(erc1155_prefix())
                };
                assert(out@ =~= nonfungible_descriptor(tagv, address@, token_id_be@));
            }
        },
    }
    out
}

} // verus!
