//! Bounded transfers: what may be written to a request and read from a response.
use vstd::prelude::*;
use vstd::utf8::*;

use crate::json;
use crate::json::Json;
use crate::text;

verus! {

/// A buffer that refuses to grow beyond its limit.
#[derive(Debug)]
pub struct BoundedWriter {
    pub bytes: Vec<u8>,
    pub limit: usize,
}

/// Whether so many more bytes fit beside those that are there.
pub open spec fn fits(present: nat, more: nat, limit: nat) -> bool {
    more + present <= limit || more == 0
}

impl BoundedWriter {
    /// An empty buffer.
    pub fn new(limit: usize) -> (writer: Self)
        ensures
            writer.bytes@.len() == 0,
            writer.limit == limit,
    {
        BoundedWriter { bytes: Vec::new(), limit }
    }

    /// Appends all of `buffer`, or nothing where it does not fit.
    pub fn write(&mut self, buffer: &[u8]) -> (written: Option<usize>)
        ensures
            final(self).limit == old(self).limit,
            fits(old(self).bytes@.len(), buffer@.len(), old(self).limit as nat) ==> written == Some(
                buffer@.len() as usize,
            ) && final(self).bytes@ == old(self).bytes@ + buffer@,
            !fits(old(self).bytes@.len(), buffer@.len(), old(self).limit as nat) ==> written is None
                && final(self).bytes@ == old(self).bytes@,
    {
        if buffer.len() > self.limit.saturating_sub(self.bytes.len()) {
            return None;
        }
        let ghost before = self.bytes@;
        self.bytes.extend_from_slice(buffer);
        assert(self.bytes@ =~= before + buffer@);
        Some(buffer.len())
    }
}

/// The compact text of a value as bytes, where it has no more than `limit` of them.
pub fn serialize_json_bounded(value: &Json, limit: usize) -> (bytes: Option<Vec<u8>>)
    ensures
        bytes is Some <==> text::byte_len(json::json_text(value@)) <= limit,
        bytes matches Some(b) ==> b@ == encode_utf8(json::json_text(value@)),
{
    let written = value.to_text();
    let mut writer = BoundedWriter::new(limit);
    let ghost before = writer.bytes@;
    match writer.write(written.as_str().as_bytes()) {
        Some(_) => {
            assert(before + encode_utf8(json::json_text(value@)) =~= encode_utf8(json::json_text(value@)));
            Some(writer.bytes)
        },
        None => None,
    }
}

/// Whether several pieces are all accepted, one after the other.
pub open spec fn all_written(present: nat, pieces: Seq<Seq<u8>>, limit: nat) -> bool
    decreases pieces.len(),
{
    pieces.len() == 0 || (fits(present, pieces[0].len(), limit) && all_written(
        present + pieces[0].len(),
        pieces.drop_first(),
        limit,
    ))
}

/// The length of several pieces together.
pub open spec fn total_len(pieces: Seq<Seq<u8>>) -> nat
    decreases pieces.len(),
{
    if pieces.len() == 0 {
        0
    } else {
        pieces[0].len() + total_len(pieces.drop_first())
    }
}

/// However a transfer is cut into pieces, it is accepted exactly when all of it fits.
pub proof fn law_bound_does_not_depend_on_the_pieces(present: nat, pieces: Seq<Seq<u8>>, limit: nat)
    requires
        present <= limit,
    ensures
        all_written(present, pieces, limit) <==> present + total_len(pieces) <= limit,
    decreases pieces.len(),
{
    if pieces.len() > 0 && present + pieces[0].len() <= limit {
        law_bound_does_not_depend_on_the_pieces(present + pieces[0].len(), pieces.drop_first(), limit);
    }
}

/// Whether a response with this status and this announced length is read at all. The announced
/// length is only an early out: what is read is bounded by [`accept_chunk`].
pub fn admit_response(success: bool, content_length: Option<u64>, limit: usize) -> (yes: bool)
    ensures
        yes == (success && (content_length matches Some(n) ==> n <= limit)),
{
    success && match content_length {
        Some(length) => length <= limit as u64,
        None => true,
    }
}

/// Appends a chunk to what was read of a response, unless it would exceed the limit.
pub fn accept_chunk(body: &mut Vec<u8>, chunk: &[u8], limit: usize) -> (accepted: bool)
    ensures
        accepted == fits(old(body)@.len(), chunk@.len(), limit as nat),
        final(body)@ == (if accepted { old(body)@ + chunk@ } else { old(body)@ }),
{
    if chunk.len() > limit.saturating_sub(body.len()) {
        return false;
    }
    let ghost before = body@;
    body.extend_from_slice(chunk);
    assert(body@ =~= before + chunk@);
    true
}

} // verus!
