use bytes::BytesMut;
use mdns_tunnel::framing::{encode_unit, FramingError, UnitDecoder, MAX_UNIT_LEN};
use tokio_util::codec::{Encoder, LengthDelimitedCodec};

#[test]
fn unit_is_big_endian_length_then_payload() {
    assert_eq!(encode_unit(&[1, 2, 3]), Ok(vec![0, 0, 0, 3, 1, 2, 3]));
    assert_eq!(encode_unit(&[]), Ok(vec![0, 0, 0, 0]));
    let long = vec![7u8; 0x0102];
    let unit = encode_unit(&long).unwrap();
    assert_eq!(&unit[..4], &[0, 0, 1, 2]);
    assert_eq!(&unit[4..], &long[..]);
}

#[test]
fn unit_agrees_with_the_peer_codec() {
    let payload = b"a captured frame".to_vec();
    let mut dst = BytesMut::new();
    LengthDelimitedCodec::new().encode(&payload[..], &mut dst).unwrap();
    assert_eq!(encode_unit(&payload).unwrap(), dst.to_vec());
}

#[test]
fn largest_unit_is_accepted_and_one_more_refused() {
    let largest = vec![0u8; MAX_UNIT_LEN];
    assert_eq!(encode_unit(&largest).unwrap().len(), MAX_UNIT_LEN + 4);
    let over = vec![0u8; MAX_UNIT_LEN + 1];
    assert_eq!(encode_unit(&over), Err(FramingError::TooLong));
}

#[test]
fn round_trip_through_fragmented_stream() {
    let frame: Vec<u8> = (0u8..=200).collect();
    let unit = encode_unit(&frame).unwrap();
    for cut in [1usize, 2, 3, 5, 64, 205] {
        let mut d = UnitDecoder::new();
        let mut got = None;
        for chunk in unit.chunks(cut) {
            assert!(got.is_none());
            d.push(chunk);
            got = d.next_unit().unwrap();
        }
        assert_eq!(got, Some(frame.clone()));
        assert_eq!(d.next_unit(), Ok(None));
    }
}

#[test]
fn empty_unit_round_trips() {
    let mut d = UnitDecoder::new();
    d.push(&encode_unit(&[]).unwrap());
    assert_eq!(d.next_unit(), Ok(Some(vec![])));
    assert_eq!(d.next_unit(), Ok(None));
}

#[test]
fn units_come_out_in_the_order_written() {
    let frames = vec![vec![1u8], vec![2, 2], vec![], vec![3, 3, 3]];
    let mut stream = Vec::new();
    for f in &frames {
        stream.extend_from_slice(&encode_unit(f).unwrap());
    }
    let mut d = UnitDecoder::new();
    let mut out = Vec::new();
    for chunk in stream.chunks(3) {
        d.push(chunk);
        while let Some(u) = d.next_unit().unwrap() {
            out.push(u);
        }
    }
    assert_eq!(out, frames);
}

#[test]
fn incomplete_unit_waits() {
    let mut d = UnitDecoder::new();
    d.push(&[0, 0, 0]);
    assert_eq!(d.next_unit(), Ok(None));
    d.push(&[5, 1, 2]);
    assert_eq!(d.next_unit(), Ok(None));
    d.push(&[3, 4, 5, 0]);
    assert_eq!(d.next_unit(), Ok(Some(vec![1, 2, 3, 4, 5])));
    d.push(&[0, 0, 1]);
    assert_eq!(d.next_unit(), Ok(None));
    d.push(&[]);
    assert_eq!(d.next_unit(), Ok(None));
}

#[test]
fn oversized_prefix_is_refused() {
    let mut d = UnitDecoder::new();
    d.push(&[0x00, 0x80, 0x00, 0x01, 1, 2]);
    assert_eq!(d.next_unit(), Err(FramingError::TooLong));
    let mut ok = UnitDecoder::new();
    ok.push(&[0x00, 0x80, 0x00, 0x00]);
    assert_eq!(ok.next_unit(), Ok(None));
}
