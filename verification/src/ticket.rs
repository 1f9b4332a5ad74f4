//! Tickets: self-contained transfer locators.
//!
//! A ticket bundles the sender's peer address (node identity plus directly
//! reachable host addresses), the root content identity, and the content
//! shape. It travels as opaque text: a fixed binary layout spelled in
//! lowercase hex. Parsing accepts exactly the spellings serialization
//! produces, and the round trip is proved lossless.

use vstd::prelude::*;
use vstd::string::StringExecFns;
use vstd::string::StringSliceAdditionalSpecFns;
use vstd::utf8::encode_utf8;
use crate::error::SendmeError;
use crate::hex::{
    hex_decode, hex_encode, lemma_hex_encode_shape, lemma_hex_round_trip,
    spec_hex_decode, spec_hex_encode,
};
use crate::manifest::ContentId;
use crate::text::{ascii_string, chars_of_bytes, str_bytes};

verus! {

/// Whether the root content identity names a single object or an ordered
/// sequence of child objects (the manifest).
#[derive(Clone, Copy, Debug, PartialEq, Eq, Structural)]
pub enum ContentShape {
    RawBlob,
    HashSequence,
}

/// One directly reachable host of the peer: an IPv4 or IPv6 address and a
/// port.
#[derive(Debug, Clone)]
pub struct HostAddr {
    pub ip: Vec<u8>,
    pub port: u16,
}

/// The mathematical content of a host address.
pub ghost struct HostAddrView {
    pub ip: Seq<u8>,
    pub port: u16,
}

impl View for HostAddr {
    type V = HostAddrView;

    open spec fn view(&self) -> HostAddrView {
        HostAddrView { ip: self.ip@, port: self.port }
    }
}

/// A serializable locator: peer address (node identity and hosts), root
/// content identity, and content shape. Anyone holding it can attempt to
/// connect and fetch.
#[derive(Debug, Clone)]
pub struct Ticket {
    pub node_id: Vec<u8>,
    pub hosts: Vec<HostAddr>,
    pub root: ContentId,
    pub shape: ContentShape,
}

/// The mathematical content of a ticket.
pub ghost struct TicketView {
    pub node_id: Seq<u8>,
    pub hosts: Seq<HostAddrView>,
    pub root: Seq<u8>,
    pub shape: ContentShape,
}

impl View for Ticket {
    type V = TicketView;

    open spec fn view(&self) -> TicketView {
        TicketView {
            node_id: self.node_id@,
            hosts: self.hosts@.map_values(|h: HostAddr| h@),
            root: self.root@,
            shape: self.shape,
        }
    }
}

/// A host address is well formed when its address is IPv4 or IPv6 sized.
pub open spec fn host_wf(h: HostAddrView) -> bool {
    h.ip.len() == 4 || h.ip.len() == 16
}

/// A ticket is well formed when both identities are digest sized, the host
/// list fits its count byte, and every host is well formed.
pub open spec fn ticket_wf(t: TicketView) -> bool {
    &&& t.node_id.len() == 32
    &&& t.root.len() == 32
    &&& t.hosts.len() <= 255
    &&& forall|i: int| 0 <= i < t.hosts.len() ==> host_wf(#[trigger] t.hosts[i])
}

impl Ticket {
    /// Well-formedness of the executable ticket.
    pub open spec fn wf(&self) -> bool {
        ticket_wf(self@)
    }
}

/// The byte naming a content shape.
pub open spec fn shape_byte(s: ContentShape) -> u8 {
    match s {
        ContentShape::RawBlob => 0,
        ContentShape::HashSequence => 1,
    }
}

/// The binary layout of one host: address length, address bytes, then the
/// port in two big-endian bytes.
pub open spec fn enc_host(h: HostAddrView) -> Seq<u8> {
    seq![h.ip.len() as u8] + h.ip + seq![(h.port / 256) as u8, (h.port % 256) as u8]
}

/// The binary layout of a host list: each host in order.
pub open spec fn enc_hosts(hs: Seq<HostAddrView>) -> Seq<u8>
    decreases hs.len(),
{
    if hs.len() == 0 {
        Seq::<u8>::empty()
    } else {
        enc_host(hs[0]) + enc_hosts(hs.drop_first())
    }
}

/// The binary layout of a ticket: a version byte, the shape byte, the root
/// identity, the node identity, the host count, then the hosts.
pub open spec fn enc_ticket(t: TicketView) -> Seq<u8> {
    seq![1u8, shape_byte(t.shape)] + t.root + t.node_id + seq![t.hosts.len() as u8] + enc_hosts(
        t.hosts,
    )
}

/// Parse `n` hosts from `b`, requiring that nothing is left over.
pub open spec fn spec_parse_hosts(b: Seq<u8>, n: int) -> Option<Seq<HostAddrView>>
    decreases n,
{
    if n <= 0 {
        if b.len() == 0 && n == 0 {
            Some(Seq::<HostAddrView>::empty())
        } else {
            None
        }
    } else if b.len() < 1 {
        None
    } else {
        let l = b[0] as int;
        if l != 4 && l != 16 {
            None
        } else if b.len() < 3 + l {
            None
        } else {
            let h = HostAddrView {
                ip: b.subrange(1, 1 + l),
                port: (b[1 + l] * 256 + b[2 + l]) as u16,
            };
            match spec_parse_hosts(b.skip(3 + l), n - 1) {
                Some(rest) => Some(seq![h] + rest),
                None => None,
            }
        }
    }
}

/// Parse a ticket from its binary layout; `None` on anything serialization
/// would not produce.
pub open spec fn spec_parse_ticket(b: Seq<u8>) -> Option<TicketView> {
    if b.len() < 67 {
        None
    } else if b[0] != 1 {
        None
    } else if b[1] != 0 && b[1] != 1 {
        None
    } else {
        let shape = if b[1] == 0 {
            ContentShape::RawBlob
        } else {
            ContentShape::HashSequence
        };
        match spec_parse_hosts(b.skip(67), b[66] as int) {
            Some(hosts) => Some(
                TicketView {
                    node_id: b.subrange(34, 66),
                    hosts,
                    root: b.subrange(2, 34),
                    shape,
                },
            ),
            None => None,
        }
    }
}

/// The ticket a piece of text stands for: hex-decode it, then parse the
/// binary layout.
pub open spec fn spec_ticket_of_text(s: Seq<u8>) -> Option<TicketView> {
    match spec_hex_decode(s) {
        Some(d) => spec_parse_ticket(d),
        None => None,
    }
}

/// Appending one host to a list appends its layout to the list's layout.
proof fn lemma_enc_hosts_snoc(hs: Seq<HostAddrView>, h: HostAddrView)
    ensures
        enc_hosts(hs.push(h)) == enc_hosts(hs) + enc_host(h),
    decreases hs.len(),
{
    if hs.len() == 0 {
        assert(hs.push(h)[0] == h);
        assert(hs.push(h).drop_first() =~= Seq::<HostAddrView>::empty());
        assert(enc_hosts(Seq::<HostAddrView>::empty()) == Seq::<u8>::empty());
        assert(enc_hosts(hs.push(h)) == enc_host(h) + Seq::<u8>::empty());
        assert(enc_host(h) + Seq::<u8>::empty() =~= enc_host(h));
        assert(enc_hosts(hs) + enc_host(h) =~= enc_host(h));
    } else {
        lemma_enc_hosts_snoc(hs.drop_first(), h);
        assert(hs.push(h)[0] == hs[0]);
        assert(hs.push(h).drop_first() =~= hs.drop_first().push(h));
        assert(enc_hosts(hs.push(h)) == enc_host(hs[0]) + enc_hosts(hs.drop_first().push(h)));
        assert(enc_hosts(hs.push(h)) =~= enc_hosts(hs) + enc_host(h));
    }
}

/// Parsing inverts the host-list layout.
proof fn lemma_hosts_round_trip(hs: Seq<HostAddrView>)
    requires
        forall|i: int| 0 <= i < hs.len() ==> host_wf(#[trigger] hs[i]),
    ensures
        spec_parse_hosts(enc_hosts(hs), hs.len() as int) == Some(hs),
    decreases hs.len(),
{
    if hs.len() == 0 {
        assert(spec_parse_hosts(enc_hosts(hs), 0) == Some(Seq::<HostAddrView>::empty()));
        assert(hs =~= Seq::<HostAddrView>::empty());
    } else {
        let h = hs[0];
        let rest = hs.drop_first();
        assert(forall|i: int| 0 <= i < rest.len() ==> host_wf(#[trigger] rest[i])) by {
            assert forall|i: int| 0 <= i < rest.len() implies host_wf(rest[i]) by {
                assert(rest[i] == hs[i + 1]);
            }
        }
        lemma_hosts_round_trip(rest);
        let b = enc_hosts(hs);
        let l = h.ip.len() as int;
        assert(b == enc_host(h) + enc_hosts(rest));
        assert(enc_host(h).len() == 3 + l);
        assert(b[0] == l as u8);
        assert(b.subrange(1, 1 + l) =~= h.ip);
        assert(b[1 + l] == (h.port / 256) as u8);
        assert(b[2 + l] == (h.port % 256) as u8);
        assert((h.port / 256) as u8 * 256 + (h.port % 256) as u8 == h.port);
        assert(b.skip(3 + l) =~= enc_hosts(rest));
        assert(spec_parse_hosts(b, hs.len() as int).unwrap() =~= hs);
    }
}

/// The binary round trip: parsing inverts the ticket layout.
proof fn lemma_ticket_bytes_round_trip(t: TicketView)
    requires
        ticket_wf(t),
    ensures
        spec_parse_ticket(enc_ticket(t)) == Some(t),
{
    let b = enc_ticket(t);
    lemma_hosts_round_trip(t.hosts);
    assert(b.len() == 67 + enc_hosts(t.hosts).len());
    assert(b[0] == 1);
    assert(b[1] == shape_byte(t.shape));
    assert(b.subrange(2, 34) =~= t.root);
    assert(b.subrange(34, 66) =~= t.node_id);
    assert(b[66] == t.hosts.len() as u8);
    assert(b.skip(67) =~= enc_hosts(t.hosts));
    if t.shape is RawBlob {
        assert(b[1] == 0);
    } else {
        assert(b[1] == 1);
    }
    assert(spec_parse_ticket(b).unwrap() == t);
}

/// Ticket round trip: any well-formed ticket, serialized to text and parsed
/// back, is recovered unchanged.
pub proof fn lemma_ticket_round_trip(t: TicketView)
    requires
        ticket_wf(t),
    ensures
        spec_ticket_of_text(spec_hex_encode(enc_ticket(t))) == Some(t),
{
    lemma_hex_round_trip(enc_ticket(t));
    lemma_ticket_bytes_round_trip(t);
}

/// Serialize a ticket into its opaque text: the hex spelling of its binary
/// layout.
#[verifier::loop_isolation(false)]
pub fn serialize_ticket(t: &Ticket) -> (r: String)
    requires
        t.wf(),
    ensures
        encode_utf8(r@) == spec_hex_encode(enc_ticket(t@)),
        r@ == chars_of_bytes(spec_hex_encode(enc_ticket(t@))),
{
    let mut b: Vec<u8> = Vec::new();
    b.push(1u8);
    match t.shape {
        ContentShape::RawBlob => b.push(0u8),
        ContentShape::HashSequence => b.push(1u8),
    }
    let root = t.root.as_bytes();
    let mut i: usize = 0;
    while i < root.len()
        invariant
            i <= root@.len(),
            b@ == seq![1u8, shape_byte(t.shape)] + root@.take(i as int),
        decreases root@.len() - i,
    {
        b.push(root[i]);
        proof {
            assert(root@.take(i + 1 as int) =~= root@.take(i as int).push(root@[i as int]));
            assert(b@ =~= seq![1u8, shape_byte(t.shape)] + root@.take(i + 1 as int));
        }
        i += 1;
    }
    proof {
        assert(root@.take(root@.len() as int) =~= root@);
    }
    let mut i: usize = 0;
    while i < t.node_id.len()
        invariant
            i <= t.node_id@.len(),
            b@ == seq![1u8, shape_byte(t.shape)] + t.root@ + t.node_id@.take(i as int),
        decreases t.node_id@.len() - i,
    {
        b.push(t.node_id[i]);
        proof {
            assert(t.node_id@.take(i + 1 as int) =~= t.node_id@.take(i as int).push(
                t.node_id@[i as int],
            ));
            assert(b@ =~= seq![1u8, shape_byte(t.shape)] + t.root@ + t.node_id@.take(i + 1 as int));
        }
        i += 1;
    }
    proof {
        assert(t.node_id@.take(t.node_id@.len() as int) =~= t.node_id@);
    }
    b.push(t.hosts.len() as u8);
    let ghost head = seq![1u8, shape_byte(t.shape)] + t.root@ + t.node_id@ + seq![
        t@.hosts.len() as u8,
    ];
    proof {
        assert(b@ =~= head);
        assert(enc_hosts(t@.hosts.take(0)) =~= Seq::<u8>::empty());
        assert(t@.hosts.take(0) =~= Seq::<HostAddrView>::empty());
        assert(b@ =~= head + enc_hosts(t@.hosts.take(0)));
    }
    let mut i: usize = 0;
    while i < t.hosts.len()
        invariant
            i <= t.hosts@.len(),
            b@ == head + enc_hosts(t@.hosts.take(i as int)),
        decreases t.hosts@.len() - i,
    {
        let h = &t.hosts[i];
        proof {
            assert(t@.hosts[i as int] == h@);
            assert(host_wf(t@.hosts[i as int]));
        }
        b.push(h.ip.len() as u8);
        let mut k: usize = 0;
        while k < h.ip.len()
            invariant
                k <= h.ip@.len(),
                b@ == head + enc_hosts(t@.hosts.take(i as int)) + seq![h.ip@.len() as u8]
                    + h.ip@.take(k as int),
            decreases h.ip@.len() - k,
        {
            b.push(h.ip[k]);
            proof {
                assert(h.ip@.take(k + 1 as int) =~= h.ip@.take(k as int).push(h.ip@[k as int]));
                assert(b@ =~= head + enc_hosts(t@.hosts.take(i as int)) + seq![h.ip@.len() as u8]
                    + h.ip@.take(k + 1 as int));
            }
            k += 1;
        }
        proof {
            assert(h.ip@.take(h.ip@.len() as int) =~= h.ip@);
        }
        b.push((h.port / 256) as u8);
        b.push((h.port % 256) as u8);
        proof {
            lemma_enc_hosts_snoc(t@.hosts.take(i as int), h@);
            assert(t@.hosts.take(i + 1 as int) =~= t@.hosts.take(i as int).push(h@));
            assert(enc_host(h@) =~= seq![h.ip@.len() as u8] + h.ip@ + seq![
                (h.port / 256) as u8,
                (h.port % 256) as u8,
            ]);
            assert(b@ =~= head + enc_hosts(t@.hosts.take(i + 1 as int)));
        }
        i += 1;
    }
    proof {
        assert(t@.hosts.take(t.hosts@.len() as int) =~= t@.hosts);
        assert(b@ =~= enc_ticket(t@));
    }
    let enc = hex_encode(b.as_slice());
    proof {
        lemma_hex_encode_shape(b@);
    }
    ascii_string(enc)
}

/// How a partially consumed host list relates to the whole: the full parse
/// is the hosts already collected followed by the parse of the remaining
/// tail, and fails exactly when that parse fails.
pub open spec fn hosts_resume(
    orig: Option<Seq<HostAddrView>>,
    done: Seq<HostAddrView>,
    rest: Option<Seq<HostAddrView>>,
) -> bool {
    match rest {
        Some(r) => orig == Some(done + r),
        None => orig is None,
    }
}

/// Parse the host list of a decoded ticket, starting at `pos`: exactly `n`
/// hosts, consuming everything to the end.
#[verifier::loop_isolation(false)]
fn parse_hosts(d: &[u8], pos: usize, n: u8) -> (r: Option<Vec<HostAddr>>)
    requires
        pos <= d@.len(),
    ensures
        match r {
            Some(hosts) => {
                &&& spec_parse_hosts(d@.skip(pos as int), n as int) == Some(
                    hosts@.map_values(|h: HostAddr| h@),
                )
                &&& hosts@.len() == n
                &&& forall|i: int| 0 <= i < hosts@.len() ==> host_wf(#[trigger] hosts@[i]@)
            },
            None => spec_parse_hosts(d@.skip(pos as int), n as int) is None,
        },
{
    let ghost pos0 = pos as int;
    let ghost orig = spec_parse_hosts(d@.skip(pos0), n as int);
    let mut hosts: Vec<HostAddr> = Vec::new();
    let mut pos = pos;
    let mut left = n;
    proof {
        match spec_parse_hosts(d@.skip(pos0), n as int) {
            Some(r) => {
                assert(hosts@.map_values(|h: HostAddr| h@) + r =~= r);
            },
            None => {},
        }
    }
    while left > 0
        invariant
            pos <= d@.len(),
            hosts@.len() + left == n,
            forall|i: int| 0 <= i < hosts@.len() ==> host_wf(#[trigger] hosts@[i]@),
            hosts_resume(
                orig,
                hosts@.map_values(|h: HostAddr| h@),
                spec_parse_hosts(d@.skip(pos as int), left as int),
            ),
        decreases left,
    {
        let ghost tail = d@.skip(pos as int);
        let ghost done = hosts@.map_values(|h: HostAddr| h@);
        if pos >= d.len() {
            proof {
                assert(tail.len() == 0);
                assert(spec_parse_hosts(tail, left as int) is None);
            }
            return None;
        }
        let l = d[pos];
        proof {
            assert(tail[0] == l);
        }
        if l != 4 && l != 16 {
            proof {
                assert(spec_parse_hosts(tail, left as int) is None);
            }
            return None;
        }
        let lu = l as usize;
        if d.len() - pos < 3 + lu {
            proof {
                assert(tail.len() < 3 + l as int);
                assert(spec_parse_hosts(tail, left as int) is None);
            }
            return None;
        }
        let mut ip: Vec<u8> = Vec::new();
        let mut k: usize = 0;
        while k < lu
            invariant
                k <= lu,
                pos + 3 + lu <= d@.len(),
                ip@ == d@.subrange(pos + 1 as int, pos + 1 + k as int),
            decreases lu - k,
        {
            ip.push(d[pos + 1 + k]);
            proof {
                assert(d@.subrange(pos + 1 as int, pos + 1 + (k + 1) as int) =~= d@.subrange(
                    pos + 1 as int,
                    pos + 1 + k as int,
                ).push(d@[pos + 1 + k as int]));
            }
            k += 1;
        }
        let hi = d[pos + 1 + lu];
        let lo = d[pos + 2 + lu];
        let port: u16 = (hi as u16) * 256 + (lo as u16);
        let h = HostAddr { ip, port };
        let ghost hv = HostAddrView {
            ip: tail.subrange(1, 1 + l as int),
            port: (tail[1 + l as int] * 256 + tail[2 + l as int]) as u16,
        };
        proof {
            assert(tail.subrange(1, 1 + l as int) =~= d@.subrange(
                pos + 1 as int,
                pos + 1 + lu as int,
            ));
            assert(tail[1 + l as int] == hi);
            assert(tail[2 + l as int] == lo);
            assert(h@ == hv);
            assert(tail.skip(3 + l as int) =~= d@.skip(pos + 3 + lu as int));
            // unfold one step of the parse
            assert(spec_parse_hosts(tail, left as int) == (match spec_parse_hosts(
                tail.skip(3 + l as int),
                left as int - 1,
            ) {
                Some(rest) => Some(seq![hv] + rest),
                None => None,
            }));
        }
        hosts.push(h);
        proof {
            assert(hosts@.map_values(|hh: HostAddr| hh@) =~= done.push(hv));
            match spec_parse_hosts(d@.skip(pos + 3 + lu as int), left as int - 1) {
                Some(r1) => {
                    assert(done + (seq![hv] + r1) =~= done.push(hv) + r1);
                },
                None => {},
            }
        }
        pos = pos + 3 + lu;
        left = left - 1;
    }
    if pos < d.len() {
        proof {
            assert(d@.skip(pos as int).len() > 0);
            assert(spec_parse_hosts(d@.skip(pos as int), 0) is None);
        }
        return None;
    }
    proof {
        assert(d@.skip(pos as int).len() == 0);
        assert(spec_parse_hosts(d@.skip(pos as int), 0) == Some(Seq::<HostAddrView>::empty()));
        assert(hosts@.map_values(|h: HostAddr| h@) + Seq::<HostAddrView>::empty() =~= hosts@
            .map_values(|h: HostAddr| h@));
    }
    Some(hosts)
}

/// Parse opaque ticket text: the ticket it stands for, or `InvalidTicket`
/// exactly when the text is not a spelling that serialization produces.
#[verifier::loop_isolation(false)]
pub fn parse_ticket(s: &str) -> (r: Result<Ticket, SendmeError>)
    ensures
        match r {
            Ok(t) => t.wf() && spec_ticket_of_text(s.spec_bytes()) == Some(t@),
            Err(e) => spec_ticket_of_text(s.spec_bytes()) is None && e
                matches SendmeError::InvalidTicket { .. },
        },
{
    let bytes = str_bytes(s);
    let decoded = match hex_decode(bytes) {
        Some(d) => d,
        None => {
            return Err(
                SendmeError::InvalidTicket { cause: "not a lowercase hex spelling".to_owned() },
            );
        },
    };
    if decoded.len() < 67 {
        return Err(SendmeError::InvalidTicket { cause: "ticket text too short".to_owned() });
    }
    if decoded[0] != 1 {
        return Err(SendmeError::InvalidTicket { cause: "unknown ticket version".to_owned() });
    }
    let shape = if decoded[1] == 0 {
        ContentShape::RawBlob
    } else if decoded[1] == 1 {
        ContentShape::HashSequence
    } else {
        return Err(SendmeError::InvalidTicket { cause: "unknown content shape".to_owned() });
    };
    let mut root: Vec<u8> = Vec::new();
    let mut k: usize = 0;
    while k < 32
        invariant
            k <= 32,
            root@ == decoded@.subrange(2, 2 + k as int),
        decreases 32 - k,
    {
        root.push(decoded[2 + k]);
        proof {
            assert(decoded@.subrange(2, 2 + (k + 1) as int) =~= decoded@.subrange(
                2,
                2 + k as int,
            ).push(decoded@[2 + k as int]));
        }
        k += 1;
    }
    let mut node: Vec<u8> = Vec::new();
    let mut k: usize = 0;
    while k < 32
        invariant
            k <= 32,
            node@ == decoded@.subrange(34, 34 + k as int),
        decreases 32 - k,
    {
        node.push(decoded[34 + k]);
        proof {
            assert(decoded@.subrange(34, 34 + (k + 1) as int) =~= decoded@.subrange(
                34,
                34 + k as int,
            ).push(decoded@[34 + k as int]));
        }
        k += 1;
    }
    let count = decoded[66];
    let hosts = match parse_hosts(decoded.as_slice(), 67, count) {
        Some(h) => h,
        None => {
            return Err(SendmeError::InvalidTicket { cause: "malformed host list".to_owned() });
        },
    };
    let t = Ticket { node_id: node, hosts, root: ContentId::new(root), shape };
    proof {
        assert(decoded@.subrange(2, 34) =~= decoded@.subrange(2, 2 + 32int));
        assert(decoded@.subrange(34, 66) =~= decoded@.subrange(34, 34 + 32int));
        assert(t@ == spec_parse_ticket(decoded@).unwrap());
        assert(spec_parse_ticket(decoded@) == Some(t@));
    }
    Ok(t)
}

/// The human-readable label of a content shape.
pub open spec fn shape_label_chars(s: ContentShape) -> Seq<char> {
    match s {
        ContentShape::RawBlob => "raw blob"@,
        ContentShape::HashSequence => "hash sequence"@,
    }
}

/// The descriptive text a valid ticket is rendered to.
pub open spec fn ticket_summary_chars(t: TicketView) -> Seq<char> {
    "valid ticket\nnode: "@ + chars_of_bytes(spec_hex_encode(t.node_id)) + "\nhash: "@
        + chars_of_bytes(spec_hex_encode(t.root)) + "\nformat: "@ + shape_label_chars(t.shape)
}

/// Check a ticket's text and describe it: its node identity, root hash and
/// shape, rendered as text; `InvalidTicket` exactly when it does not parse.
pub fn validate_ticket(ticket: String) -> (r: Result<String, SendmeError>)
    ensures
        match r {
            Ok(m) => (spec_ticket_of_text(encode_utf8(ticket@)) matches Some(t) && m@
                == ticket_summary_chars(t)),
            Err(e) => spec_ticket_of_text(encode_utf8(ticket@)) is None && e
                matches SendmeError::InvalidTicket { .. },
        },
{
    let parsed = match parse_ticket(ticket.as_str()) {
        Ok(t) => t,
        Err(e) => {
            return Err(e);
        },
    };
    let mut m = String::new();
    m.append("valid ticket\nnode: ");
    let node_hex = hex_encode(parsed.node_id.as_slice());
    proof {
        lemma_hex_encode_shape(parsed.node_id@);
    }
    let nh = ascii_string(node_hex);
    m.append(nh.as_str());
    m.append("\nhash: ");
    let rh = parsed.root.to_hex();
    m.append(rh.as_str());
    m.append("\nformat: ");
    match parsed.shape {
        ContentShape::RawBlob => m.append("raw blob"),
        ContentShape::HashSequence => m.append("hash sequence"),
    }
    Ok(m)
}

} // verus!
