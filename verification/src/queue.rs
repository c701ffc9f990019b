//! The work queue's wire format: a job id travels as exactly four bytes,
//! least significant first. The queue itself (a broker connection, delivery
//! and acknowledgement) is outside work; the application frames ids with the
//! functions here.

use vstd::prelude::*;

verus! {

/// The four bytes carrying a job id, least significant first.
pub open spec fn id_bytes(id: u32) -> Seq<u8> {
    seq![
        (id & 0xff) as u8,
        ((id >> 8) & 0xff) as u8,
        ((id >> 16) & 0xff) as u8,
        ((id >> 24) & 0xff) as u8,
    ]
}

/// The job id four bytes carry.
pub open spec fn id_of_bytes(b: Seq<u8>) -> u32 {
    (b[0] as u32) | ((b[1] as u32) << 8) | ((b[2] as u32) << 16) | ((b[3] as u32) << 24)
}

/// Frame a job id for the work queue.
pub fn encode_job_id(id: u32) -> (r: Vec<u8>)
    ensures
        r@ == id_bytes(id),
        r@.len() == 4,
{
    let mut out: Vec<u8> = Vec::new();
    out.push((id & 0xff) as u8);
    out.push(((id >> 8) & 0xff) as u8);
    out.push(((id >> 16) & 0xff) as u8);
    out.push(((id >> 24) & 0xff) as u8);
    proof {
        assert(out@ =~= id_bytes(id));
    }
    out
}

/// Read a job id back out of a frame. Only four-byte frames carry one.
pub fn decode_job_id(bytes: &Vec<u8>) -> (r: Option<u32>)
    ensures
        bytes@.len() == 4 ==> r == Some(id_of_bytes(bytes@)),
        bytes@.len() != 4 ==> r is None,
{
    if bytes.len() != 4 {
        return None;
    }
    let b0 = bytes[0] as u32;
    let b1 = bytes[1] as u32;
    let b2 = bytes[2] as u32;
    let b3 = bytes[3] as u32;
    let id = b0 | (b1 << 8) | (b2 << 16) | (b3 << 24);
    Some(id)
}

/// A framed id is read back unchanged.
pub proof fn lemma_id_round_trip(id: u32)
    ensures
        id_of_bytes(id_bytes(id)) == id,
{
    let b0 = (id & 0xff) as u8;
    let b1 = ((id >> 8) & 0xff) as u8;
    let b2 = ((id >> 16) & 0xff) as u8;
    let b3 = ((id >> 24) & 0xff) as u8;
    assert((b0 as u32) | ((b1 as u32) << 8) | ((b2 as u32) << 16) | ((b3 as u32) << 24) == id)
        by (bit_vector)
        requires
            b0 == (id & 0xff) as u8,
            b1 == ((id >> 8) & 0xff) as u8,
            b2 == ((id >> 16) & 0xff) as u8,
            b3 == ((id >> 24) & 0xff) as u8,
    ;
    assert(id_bytes(id)[0] == b0);
    assert(id_bytes(id)[1] == b1);
    assert(id_bytes(id)[2] == b2);
    assert(id_bytes(id)[3] == b3);
}

} // verus!
