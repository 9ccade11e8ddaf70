//! Message types of the QUIC-based gossip prototype.

use vstd::prelude::*;

verus! {

/// Role of a node in the prototype.
#[derive(Debug, Clone, Copy, PartialEq, Eq, Hash, Structural)]
pub enum Role {
    Validator,
    LocalAggregator,
    GlobalAggregator,
}

/// Messages of the prototype: payload messages and gossipsub 1.2 control messages.
#[derive(Debug)]
pub enum Message {
    Signature { validator_id: u32, subnet_id: u32, data: Vec<u8> },
    SNARK1 { aggregator_id: u32, subnet_id: u32, data: Vec<u8>, verified_sigs: usize },
    SNARK2 { aggregator_id: u32, data: Vec<u8>, verified_snarks: usize },
    IHAVE { id: [u8; 32] },
    IWANT { id: [u8; 32] },
    IDONTWANT { id: [u8; 32] },
    PUBLISH { id: [u8; 32], payload: Vec<u8> },
}

/// The four bytes of `v`, most significant first.
pub open spec fn be_bytes_u32(v: u32) -> Seq<u8> {
    seq![
        (v / 0x100_0000) as u8,
        ((v / 0x1_0000) % 0x100) as u8,
        ((v / 0x100) % 0x100) as u8,
        (v % 0x100) as u8,
    ]
}

/// The identifier built from a node id, a subnet id and a type byte: the two
/// ids big-endian, then the type, then zeros up to 32 bytes.
pub open spec fn spec_identifier(node: u32, subnet: u32, kind: u8) -> Seq<u8> {
    be_bytes_u32(node) + be_bytes_u32(subnet) + seq![kind] + Seq::new(23, |i: int| 0u8)
}

impl Message {
    /// The identifier of the message: payload messages are identified by
    /// their origin and type; control messages by 32 zero bytes.
    pub open spec fn spec_id(&self) -> Seq<u8> {
        match self {
            Message::Signature { validator_id, subnet_id, .. } => spec_identifier(
                *validator_id,
                *subnet_id,
                0,
            ),
            Message::SNARK1 { aggregator_id, subnet_id, .. } => spec_identifier(
                *aggregator_id,
                *subnet_id,
                1,
            ),
            Message::SNARK2 { aggregator_id, .. } => spec_identifier(*aggregator_id, 0, 2),
            _ => Seq::new(32, |i: int| 0u8),
        }
    }

    pub fn get_id(&self) -> (r: [u8; 32])
        ensures
            r@ == self.spec_id(),
    {
        match self {
            Message::Signature { validator_id, subnet_id, .. } => identifier(
                *validator_id,
                *subnet_id,
                0,
            ),
            Message::SNARK1 { aggregator_id, subnet_id, .. } => identifier(
                *aggregator_id,
                *subnet_id,
                1,
            ),
            Message::SNARK2 { aggregator_id, .. } => identifier(*aggregator_id, 0, 2),
            _ => {
                let id = [0u8; 32];
                proof {
                    assert(id@ =~= Seq::new(32, |i: int| 0u8));
                }
                id
            },
        }
    }
}

fn identifier(node: u32, subnet: u32, kind: u8) -> (r: [u8; 32])
    ensures
        r@ == spec_identifier(node, subnet, kind),
{
    let mut id = [0u8; 32];
    id[0] = (node / 0x100_0000) as u8;
    id[1] = ((node / 0x1_0000) % 0x100) as u8;
    id[2] = ((node / 0x100) % 0x100) as u8;
    id[3] = (node % 0x100) as u8;
    id[4] = (subnet / 0x100_0000) as u8;
    id[5] = ((subnet / 0x1_0000) % 0x100) as u8;
    id[6] = ((subnet / 0x100) % 0x100) as u8;
    id[7] = (subnet % 0x100) as u8;
    id[8] = kind;
    proof {
        assert(id@ =~= spec_identifier(node, subnet, kind));
    }
    id
}

} // verus!
