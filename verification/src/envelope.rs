//! A game message addressed to the entity it speaks for.
//!
//! A client may hold several entities on one connection, so a message it sends
//! names which of them it comes from: the region's id for the entity, four
//! bytes little-endian, then the message itself. The edge checks that the
//! client holds that entity before passing the message on.
use vstd::prelude::*;

verus! {

/// The four bytes of `v`, least significant first.
pub open spec fn le_bytes(v: u32) -> Seq<u8> {
    seq![(v & 0xff) as u8, ((v >> 8u32) & 0xff) as u8, ((v >> 16u32) & 0xff) as u8, (v >> 24u32) as u8]
}

/// The `u32` four bytes hold, least significant first.
pub open spec fn from_le(b0: u8, b1: u8, b2: u8, b3: u8) -> u32 {
    b0 as u32 | (b1 as u32) << 8u32 | (b2 as u32) << 16u32 | (b3 as u32) << 24u32
}

/// Reading back the four bytes of a value gives the value.
pub proof fn lemma_le_bytes_read_back(v: u32)
    ensures
        from_le(le_bytes(v)[0], le_bytes(v)[1], le_bytes(v)[2], le_bytes(v)[3]) == v,
{
    let (b0, b1, b2, b3) = ((v & 0xff) as u8, ((v >> 8u32) & 0xff) as u8, ((v >> 16u32) & 0xff) as u8, (v >> 24u32) as u8);
    assert(from_le(b0, b1, b2, b3) == v) by (bit_vector)
        requires
            b0 == (v & 0xff) as u8,
            b1 == ((v >> 8u32) & 0xff) as u8,
            b2 == ((v >> 16u32) & 0xff) as u8,
            b3 == (v >> 24u32) as u8,
    ;
}

/// A message addressed to entity `entity`: its id's four bytes, then the
/// message.
pub open spec fn spec_addressed(entity: u32, body: Seq<u8>) -> Seq<u8> {
    le_bytes(entity) + body
}

/// The entity an addressed message names and the message it carries, or
/// `None` where it is too short to name one.
pub open spec fn spec_read_address(bytes: Seq<u8>) -> Option<(u32, Seq<u8>)> {
    if bytes.len() < 4 {
        None
    } else {
        Some((from_le(bytes[0], bytes[1], bytes[2], bytes[3]), bytes.subrange(4, bytes.len() as int)))
    }
}

/// Addresses a message to the entity it speaks for.
pub fn addressed(entity: u32, body: &[u8]) -> (r: Vec<u8>)
    ensures
        r@ == spec_addressed(entity, body@),
{
    let mut out: Vec<u8> = Vec::new();
    out.push((entity & 0xff) as u8);
    out.push(((entity >> 8u32) & 0xff) as u8);
    out.push(((entity >> 16u32) & 0xff) as u8);
    out.push((entity >> 24u32) as u8);
    let mut i: usize = 0;
    while i < body.len()
        invariant
            i <= body@.len(),
            out@ == le_bytes(entity) + body@.subrange(0, i as int),
        decreases body@.len() - i,
    {
        out.push(body[i]);
        i = i + 1;
        assert(out@ =~= le_bytes(entity) + body@.subrange(0, i as int));
    }
    assert(body@.subrange(0, body@.len() as int) =~= body@);
    out
}

/// The entity an addressed message names, and the message; `None` where the
/// bytes are too short to name one.
pub fn read_address(bytes: &[u8]) -> (r: Option<(u32, Vec<u8>)>)
    ensures
        match r {
            Some((entity, body)) => spec_read_address(bytes@) == Some((entity, body@)),
            None => spec_read_address(bytes@) is None,
        },
{
    if bytes.len() < 4 {
        return None;
    }
    let entity = bytes[0] as u32 | (bytes[1] as u32) << 8u32 | (bytes[2] as u32) << 16u32
        | (bytes[3] as u32) << 24u32;
    let mut body: Vec<u8> = Vec::new();
    let mut i: usize = 4;
    while i < bytes.len()
        invariant
            4 <= i <= bytes@.len(),
            body@ == bytes@.subrange(4, i as int),
        decreases bytes@.len() - i,
    {
        body.push(bytes[i]);
        i = i + 1;
        assert(body@ =~= bytes@.subrange(4, i as int));
    }
    Some((entity, body))
}

/// Reading the address of an addressed message gives back the entity and the
/// message.
pub proof fn lemma_address_reads_back(entity: u32, body: Seq<u8>)
    ensures
        spec_read_address(spec_addressed(entity, body)) == Some((entity, body)),
{
    lemma_le_bytes_read_back(entity);
    let b = spec_addressed(entity, body);
    assert(b.subrange(4, b.len() as int) =~= body);
}

} // verus!
