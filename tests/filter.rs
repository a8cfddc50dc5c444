use mdns_tunnel::filter::{classify, domain_listed, should_forward, DiscoveryMessage};

fn encode_name(name: &str, out: &mut Vec<u8>) {
    for label in name.split('.') {
        out.push(label.len() as u8);
        out.extend_from_slice(label.as_bytes());
    }
    out.push(0);
}

/// A discovery response with one A record per answer name and one PTR
/// question per question name.
fn discovery_message(questions: &[&str], answers: &[&str]) -> Vec<u8> {
    let mut m = vec![0, 0, 0x84, 0x00];
    m.extend_from_slice(&(questions.len() as u16).to_be_bytes());
    m.extend_from_slice(&(answers.len() as u16).to_be_bytes());
    m.extend_from_slice(&[0, 0, 0, 0]);
    for q in questions {
        encode_name(q, &mut m);
        m.extend_from_slice(&[0, 12, 0, 1]);
    }
    for a in answers {
        encode_name(a, &mut m);
        m.extend_from_slice(&[0, 1, 0, 1, 0, 0, 0, 120, 0, 4, 192, 168, 1, 9]);
    }
    m
}

fn frame_with(ethertype: u16, destination: [u8; 4], protocol: u8, payload: &[u8]) -> Vec<u8> {
    let mut f = vec![0x01, 0x00, 0x5e, 0x00, 0x00, 0xfb, 0x02, 0, 0, 0, 0, 1];
    f.extend_from_slice(&ethertype.to_be_bytes());
    let total = (20 + 8 + payload.len()) as u16;
    f.extend_from_slice(&[0x45, 0]);
    f.extend_from_slice(&total.to_be_bytes());
    f.extend_from_slice(&[0, 0, 0, 0, 255, protocol, 0, 0, 192, 168, 1, 2]);
    f.extend_from_slice(&destination);
    f.extend_from_slice(&[0x14, 0xe9, 0x14, 0xe9]);
    f.extend_from_slice(&((8 + payload.len()) as u16).to_be_bytes());
    f.extend_from_slice(&[0, 0]);
    f.extend_from_slice(payload);
    f
}

fn mdns_frame(questions: &[&str], answers: &[&str]) -> Vec<u8> {
    frame_with(0x0800, [224, 0, 0, 251], 17, &discovery_message(questions, answers))
}

fn domains(names: &[&str]) -> Vec<String> {
    names.iter().map(|s| s.to_string()).collect()
}

#[test]
fn answer_record_in_filter_set_matches() {
    let set = domains(&["_googlecast._tcp.local"]);
    let frame = mdns_frame(&[], &["_googlecast._tcp.local"]);
    let msg = classify(&frame).expect("a discovery message");
    assert_eq!(msg.answers, vec!["_googlecast._tcp.local".to_string()]);
    assert!(msg.questions.is_empty());
    assert!(mdns_tunnel::filter::matches(&msg, &set));
    assert!(should_forward(&frame, &set));
}

#[test]
fn message_with_other_name_does_not_match() {
    let set = domains(&["_googlecast._tcp.local"]);
    let frame = mdns_frame(&[], &["_http._tcp.local"]);
    let msg = classify(&frame).expect("a discovery message");
    assert!(!mdns_tunnel::filter::matches(&msg, &set));
    assert!(!should_forward(&frame, &set));
}

#[test]
fn question_record_in_filter_set_matches() {
    let set = domains(&["_airplay._tcp.local", "_googlecast._tcp.local"]);
    let frame = mdns_frame(&["_googlecast._tcp.local"], &["_http._tcp.local"]);
    let msg = classify(&frame).expect("a discovery message");
    assert_eq!(msg.questions, vec!["_googlecast._tcp.local".to_string()]);
    assert!(should_forward(&frame, &set));
}

#[test]
fn empty_filter_set_matches_nothing() {
    let frame = mdns_frame(&["_googlecast._tcp.local"], &["_googlecast._tcp.local"]);
    assert!(!should_forward(&frame, &Vec::new()));
}

#[test]
fn comparison_is_exact() {
    let set = domains(&["_googlecast._tcp.local"]);
    assert!(domain_listed(&set, &"_googlecast._tcp.local".to_string()));
    assert!(!domain_listed(&set, &"_GoogleCast._tcp.local".to_string()));
    assert!(!domain_listed(&set, &"_googlecast._tcp.local.".to_string()));
    let msg = DiscoveryMessage {
        questions: vec!["_GOOGLECAST._tcp.local".to_string()],
        answers: vec![],
    };
    assert!(!mdns_tunnel::filter::matches(&msg, &set));
}

#[test]
fn unicast_destination_is_rejected() {
    let set = domains(&["_googlecast._tcp.local"]);
    let payload = discovery_message(&[], &["_googlecast._tcp.local"]);
    let frame = frame_with(0x0800, [192, 168, 1, 3], 17, &payload);
    assert!(classify(&frame).is_none());
    assert!(!should_forward(&frame, &set));
}

#[test]
fn other_link_protocol_is_ignored() {
    let payload = discovery_message(&[], &["_googlecast._tcp.local"]);
    let frame = frame_with(0x86dd, [224, 0, 0, 251], 17, &payload);
    assert!(classify(&frame).is_none());
}

#[test]
fn other_transport_protocol_is_ignored() {
    let payload = discovery_message(&[], &["_googlecast._tcp.local"]);
    let frame = frame_with(0x0800, [224, 0, 0, 251], 6, &payload);
    assert!(classify(&frame).is_none());
}

#[test]
fn truncated_frames_carry_nothing() {
    assert!(classify(&[]).is_none());
    let frame = mdns_frame(&[], &["_googlecast._tcp.local"]);
    assert!(classify(&frame[..13]).is_none());
    assert!(classify(&frame[..30]).is_none());
}

#[test]
fn malformed_discovery_payload_carries_nothing() {
    let frame = frame_with(0x0800, [224, 0, 0, 251], 17, &[1, 2, 3]);
    assert!(classify(&frame).is_none());
}

#[test]
fn link_padding_after_the_datagram_is_not_payload() {
    let set = domains(&["_googlecast._tcp.local"]);
    let mut frame = mdns_frame(&[], &["_googlecast._tcp.local"]);
    let plain = classify(&frame).expect("a discovery message");
    frame.extend_from_slice(&[0xff; 6]);
    let padded = classify(&frame).expect("a discovery message");
    assert_eq!(plain.answers, padded.answers);
    assert!(should_forward(&frame, &set));
}
