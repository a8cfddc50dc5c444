use crate::layers::{
    ethernet_decode, ethernet_fields, ipv4_decode, ipv4_fields, udp_decode, udp_payload,
    ETHERTYPE_IPV4, IP_PROTOCOL_UDP,
};
use vstd::prelude::*;

verus! {

/// The record names of one discovery message: those of its questions and
/// those of its answers, in message order.
pub struct DiscoveryMessage {
    pub questions: Vec<String>,
    pub answers: Vec<String>,
}

/// The text of each name in a list.
pub open spec fn names_view(v: Seq<String>) -> Seq<Seq<char>> {
    v.map_values(|s: String| s@)
}

impl View for DiscoveryMessage {
    type V = (Seq<Seq<char>>, Seq<Seq<char>>);

    open spec fn view(&self) -> Self::V {
        (names_view(self.questions@), names_view(self.answers@))
    }
}

/// Question and answer names of a discovery-protocol message, as the wire
/// parser reads them; `None` where the bytes are no well-formed message.
pub uninterp spec fn discovery_records_of(payload: Seq<u8>) -> Option<(Seq<Seq<char>>, Seq<Seq<char>>)>;

/// Relies on dns_parser's `Packet::parse` and on the `Display` of its `Name`:
/// the names of the question and answer records, decompressed and written
/// with dots, depend on the payload bytes alone.
#[verifier::external_body]
fn parse_discovery(payload: &[u8]) -> (r: Option<DiscoveryMessage>)
    ensures
        match r {
            Some(m) => discovery_records_of(payload@) == Some(m@),
            None => discovery_records_of(payload@) is None,
        },
{
    dns_parser::Packet::parse(payload).ok().map(|p| DiscoveryMessage {
        questions: p.questions.iter().map(|q| q.qname.to_string()).collect(),
        answers: p.answers.iter().map(|a| a.name.to_string()).collect(),
    })
}

/// The discovery message a raw frame carries: an IPv4 frame to a multicast
/// destination, whose next protocol is UDP, whose UDP payload parses as a
/// discovery message. Anything else carries none.
pub open spec fn classify_spec(f: Seq<u8>) -> Option<(Seq<Seq<char>>, Seq<Seq<char>>)> {
    match ethernet_decode(f) {
        None => None,
        Some((t, p)) => if t != ETHERTYPE_IPV4 {
            None
        } else {
            match ipv4_decode(p) {
                None => None,
                Some((multicast, protocol, segment)) => if !multicast || protocol
                    != IP_PROTOCOL_UDP {
                    None
                } else {
                    match udp_decode(segment) {
                        None => None,
                        Some(payload) => discovery_records_of(payload),
                    }
                },
            }
        },
    }
}

/// A frame that decodes as IPv4 whose destination is not multicast.
pub open spec fn is_unicast_ipv4_frame(f: Seq<u8>) -> bool {
    match ethernet_decode(f) {
        Some((t, p)) => t == ETHERTYPE_IPV4 && match ipv4_decode(p) {
            Some((multicast, _, _)) => !multicast,
            None => false,
        },
        None => false,
    }
}

/// Some question name or some answer name is listed in `domains`.
pub open spec fn matches_spec(
    m: (Seq<Seq<char>>, Seq<Seq<char>>),
    domains: Seq<Seq<char>>,
) -> bool {
    (exists|i: int| 0 <= i < m.0.len() && domains.contains(#[trigger] m.0[i])) || (exists|i: int|
        0 <= i < m.1.len() && domains.contains(#[trigger] m.1[i]))
}

/// Whether a captured frame is relayed: it carries a discovery message that
/// the filter set matches.
pub open spec fn forwards_spec(f: Seq<u8>, domains: Seq<Seq<char>>) -> bool {
    match classify_spec(f) {
        Some(m) => matches_spec(m, domains),
        None => false,
    }
}

/// Decodes a raw frame through its link, network and transport layers to
/// the discovery message it carries, if any.
pub fn classify(frame: &[u8]) -> (r: Option<DiscoveryMessage>)
    ensures
        match r {
            Some(m) => classify_spec(frame@) == Some(m@),
            None => classify_spec(frame@) is None,
        },
{
    let (ethertype, network) = match ethernet_fields(frame) {
        Some(e) => e,
        None => return None,
    };
    if ethertype != ETHERTYPE_IPV4 {
        return None;
    }
    let ip = match ipv4_fields(network.as_slice()) {
        Some(h) => h,
        None => return None,
    };
    if !ip.multicast_destination || ip.protocol != IP_PROTOCOL_UDP {
        return None;
    }
    let payload = match udp_payload(ip.payload.as_slice()) {
        Some(p) => p,
        None => return None,
    };
    parse_discovery(payload.as_slice())
}

/// Whether `name` equals one of `domains` exactly.
pub fn domain_listed(domains: &Vec<String>, name: &String) -> (r: bool)
    ensures
        r == names_view(domains@).contains(name@),
{
    let mut i: usize = 0;
    while i < domains.len()
        invariant
            i <= domains.len(),
            forall|k: int| 0 <= k < i ==> domains@[k]@ != name@,
        decreases domains.len() - i,
    {
        if domains[i] == *name {
            assert(names_view(domains@)[i as int] == name@);
            return true;
        }
        i += 1;
    }
    assert forall|k: int| 0 <= k < names_view(domains@).len() implies names_view(domains@)[k]
        != name@ by {
        assert(domains@[k]@ != name@);
    }
    false
}

/// Whether some name of `names` is listed in `domains`.
fn any_listed(names: &Vec<String>, domains: &Vec<String>) -> (r: bool)
    ensures
        r == exists|i: int|
            0 <= i < names_view(names@).len() && names_view(domains@).contains(
                #[trigger] names_view(names@)[i],
            ),
{
    let mut i: usize = 0;
    while i < names.len()
        invariant
            i <= names.len(),
            forall|k: int|
                0 <= k < i ==> !names_view(domains@).contains(#[trigger] names_view(names@)[k]),
        decreases names.len() - i,
    {
        if domain_listed(domains, &names[i]) {
            assert(names_view(domains@).contains(names_view(names@)[i as int]));
            return true;
        }
        i += 1;
    }
    false
}

/// Whether any question or answer name of the message exactly equals an
/// entry of the filter set. No normalisation is applied to either side.
pub fn matches(msg: &DiscoveryMessage, domains: &Vec<String>) -> (r: bool)
    ensures
        r == matches_spec(msg@, names_view(domains@)),
{
    let q = any_listed(&msg.questions, domains);
    let a = any_listed(&msg.answers, domains);
    assert(msg@.0 == names_view(msg.questions@));
    assert(msg@.1 == names_view(msg.answers@));
    q || a
}

/// Whether a captured frame is to be relayed to the peers.
pub fn should_forward(frame: &[u8], domains: &Vec<String>) -> (r: bool)
    ensures
        r == forwards_spec(frame@, names_view(domains@)),
{
    match classify(frame) {
        Some(m) => matches(&m, domains),
        None => false,
    }
}

/// A frame addressed to a unicast IPv4 destination is rejected at the
/// network layer, whatever its payload holds.
pub proof fn lemma_unicast_rejected(f: Seq<u8>, domains: Seq<Seq<char>>)
    requires
        is_unicast_ipv4_frame(f),
    ensures
        classify_spec(f) is None,
        !forwards_spec(f, domains),
{
}

/// A well-formed message with a question or answer name in the filter set
/// matches it; one with no such name does not.
pub proof fn lemma_filter_correct(m: (Seq<Seq<char>>, Seq<Seq<char>>), domains: Seq<Seq<char>>)
    ensures
        (exists|n: Seq<char>| (m.0.contains(n) || m.1.contains(n)) && domains.contains(n))
            <==> matches_spec(m, domains),
{
    if exists|n: Seq<char>| (m.0.contains(n) || m.1.contains(n)) && domains.contains(n) {
        let n = choose|n: Seq<char>| (m.0.contains(n) || m.1.contains(n)) && domains.contains(n);
        if m.0.contains(n) {
            let i = choose|i: int| 0 <= i < m.0.len() && m.0[i] == n;
            assert(domains.contains(m.0[i]));
        } else {
            let i = choose|i: int| 0 <= i < m.1.len() && m.1[i] == n;
            assert(domains.contains(m.1[i]));
        }
    }
    if matches_spec(m, domains) {
        if exists|i: int| 0 <= i < m.0.len() && domains.contains(#[trigger] m.0[i]) {
            let i = choose|i: int| 0 <= i < m.0.len() && domains.contains(#[trigger] m.0[i]);
            assert(m.0.contains(m.0[i]));
        } else {
            let i = choose|i: int| 0 <= i < m.1.len() && domains.contains(#[trigger] m.1[i]);
            assert(m.1.contains(m.1[i]));
        }
    }
}

} // verus!
