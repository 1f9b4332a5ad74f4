//! The send flow's decisions.
//!
//! The host resolves the identity, creates the session's store directory,
//! walks and hashes the tree (the import pipeline collects the outcome),
//! binds the listening endpoint and keeps it alive; this module names the
//! session directory, builds the ticket from the endpoint's address and the
//! committed root, and assembles the result handed to the caller.

use vstd::prelude::*;
use vstd::utf8::encode_utf8;
use crate::hex::{hex_encode, lemma_hex_encode_shape, spec_hex_encode};
use crate::import::ImportOutcome;
use crate::manifest::ContentId;
use crate::text::{ascii_string, chars_of_bytes};
use crate::ticket::{
    enc_ticket, lemma_ticket_round_trip, serialize_ticket, spec_ticket_of_text, ContentShape,
    HostAddr, Ticket, TicketView,
};
use vstd::string::StringExecFns;

verus! {

/// The session directory of one send, under a random suffix so concurrent
/// sends never collide.
pub open spec fn send_dir_chars(suffix: Seq<u8>) -> Seq<char> {
    ".sendme-send-"@ + chars_of_bytes(spec_hex_encode(suffix))
}

/// Name the transient store directory of one send session from a fresh
/// random suffix.
pub fn session_dir_name(suffix: &Vec<u8>) -> (r: String)
    requires
        suffix@.len() == 16,
    ensures
        r@ == send_dir_chars(suffix@),
{
    let enc = hex_encode(suffix.as_slice());
    proof {
        lemma_hex_encode_shape(suffix@);
    }
    let hexs = ascii_string(enc);
    let mut dir = String::new();
    dir.append(".sendme-send-");
    dir.append(hexs.as_str());
    proof {
        assert(dir@ =~= send_dir_chars(suffix@));
    }
    dir
}

/// Build the ticket of a send session: the endpoint's address, the root the
/// manifest committed to, and the hash-sequence shape.
pub fn build_ticket(node_id: Vec<u8>, hosts: Vec<HostAddr>, root: &ContentId) -> (r: Ticket)
    requires
        node_id@.len() == 32,
        root.wf(),
        hosts@.len() <= 255,
        forall|i: int| 0 <= i < hosts@.len() ==> crate::ticket::host_wf(#[trigger] hosts@[i]@),
    ensures
        r.wf(),
        r@.node_id == node_id@,
        r@.hosts == hosts@.map_values(|h: HostAddr| h@),
        r@.root == root@,
        r@.shape is HashSequence,
{
    Ticket { node_id, hosts, root: root.duplicate(), shape: ContentShape::HashSequence }
}

/// What a send call returns: the shareable ticket text, the root hash's hex
/// spelling, the aggregate size, and the file count.
#[derive(Debug, Clone)]
pub struct SendResult {
    pub ticket: String,
    pub hash: String,
    pub size: u64,
    pub file_count: u64,
}

/// Assemble the send result. The reported size is exactly the import's
/// aggregate size, the count its file count, and the ticket text parses
/// back to the very ticket it was made from.
pub fn finish_send(ticket: &Ticket, import: &ImportOutcome) -> (r: SendResult)
    requires
        ticket.wf(),
    ensures
        r.size == import.total_size,
        r.file_count == import.file_count,
        r.ticket@ == chars_of_bytes(spec_hex_encode(enc_ticket(ticket@))),
        spec_ticket_of_text(encode_utf8(r.ticket@)) == Some(ticket@),
        r.hash@ == chars_of_bytes(spec_hex_encode(ticket@.root)),
{
    let text = serialize_ticket(ticket);
    let hash = ticket.root.to_hex();
    proof {
        lemma_ticket_round_trip(ticket@);
    }
    SendResult { ticket: text, hash, size: import.total_size, file_count: import.file_count }
}

} // verus!
