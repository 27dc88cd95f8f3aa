use bobbin_cli::decoder::FrameDecoder;
use bobbin_cli::frame::{decode, encode, FrameError};

#[test]
fn encode_empty_is_single_code() {
    assert_eq!(encode(&[]), vec![1u8]);
}

#[test]
fn encode_known_values() {
    assert_eq!(encode(&[0u8]), vec![1u8, 1]);
    assert_eq!(encode(&[0x11u8, 0x22, 0x00, 0x33]), vec![3u8, 0x11, 0x22, 2, 0x33]);
    assert_eq!(encode(&[0x11u8, 0x00, 0x00]), vec![2u8, 0x11, 1, 1]);
}

#[test]
fn encode_long_run_splits_blocks() {
    let data: Vec<u8> = (1..=254u32).map(|b| b as u8).collect();
    let e = encode(&data);
    assert_eq!(e.len(), 256);
    assert_eq!(e[0], 0xFF);
    assert_eq!(&e[1..255], &data[..]);
    assert_eq!(e[255], 1);
    assert!(!e.contains(&0));
    assert_eq!(decode(&e), Ok(data));
}

#[test]
fn decode_known_value() {
    assert_eq!(decode(&[3u8, 0x11, 0x22, 2, 0x33]), Ok(vec![0x11u8, 0x22, 0x00, 0x33]));
}

#[test]
fn decode_empty_frame_is_empty() {
    assert_eq!(decode(&[]), Ok(vec![]));
}

#[test]
fn decode_malformed_frames() {
    assert_eq!(decode(&[5u8, 1]), Err(FrameError::Malformed));
    assert_eq!(decode(&[0u8]), Err(FrameError::Malformed));
    assert_eq!(decode(&[0xFFu8]), Err(FrameError::Malformed));
}

#[test]
fn round_trip_on_samples() {
    let samples: Vec<Vec<u8>> = vec![
        vec![1],
        vec![0],
        vec![0, 0, 0],
        vec![1, 2, 3, 0, 4, 5],
        (0..600u32).map(|i| (i % 7) as u8).collect(),
        (0..600u32).map(|i| (i % 255 + 1) as u8).collect(),
    ];
    for s in samples {
        let e = encode(&s);
        assert!(!e.contains(&0));
        assert_eq!(decode(&e), Ok(s));
    }
}

fn stream_of(frames: &[Vec<u8>]) -> Vec<u8> {
    let mut out = Vec::new();
    for f in frames {
        out.extend(encode(f));
        out.push(0);
    }
    out
}

fn drain(d: &mut FrameDecoder, got: &mut Vec<Result<Vec<u8>, FrameError>>) {
    while let Some(f) = d.next_frame() {
        got.push(f);
    }
    d.compact();
}

#[test]
fn chunked_feeding_matches_whole_feeding() {
    let frames = vec![vec![1u8, 2, 0, 3], vec![], vec![0u8; 300], vec![9u8, 9]];
    let stream = stream_of(&frames);
    let mut whole = FrameDecoder::new();
    whole.feed(&stream);
    let mut all = Vec::new();
    drain(&mut whole, &mut all);
    for chunk in [1usize, 2, 3, 7, 64] {
        let mut d = FrameDecoder::new();
        let mut got = Vec::new();
        for c in stream.chunks(chunk) {
            d.feed(c);
            drain(&mut d, &mut got);
        }
        assert_eq!(got, all);
    }
    let expected: Vec<Result<Vec<u8>, FrameError>> = frames.into_iter().map(Ok).collect();
    assert_eq!(all, expected);
}

#[test]
fn partial_span_yields_none() {
    let mut d = FrameDecoder::new();
    d.feed(&[3u8, 0x11, 0x22]);
    assert_eq!(d.next_frame(), None);
    d.feed(&[2u8, 0x33, 0]);
    assert_eq!(d.next_frame(), Some(Ok(vec![0x11u8, 0x22, 0, 0x33])));
    assert_eq!(d.next_frame(), None);
}

#[test]
fn frames_come_in_arrival_order() {
    let mut d = FrameDecoder::new();
    d.feed(&[2u8, 7, 0, 2, 8, 0, 2, 9]);
    assert_eq!(d.next_frame(), Some(Ok(vec![7u8])));
    assert_eq!(d.next_frame(), Some(Ok(vec![8u8])));
    assert_eq!(d.next_frame(), None);
    d.compact();
    d.feed(&[0u8]);
    assert_eq!(d.next_frame(), Some(Ok(vec![9u8])));
}

#[test]
fn bare_delimiter_is_empty_frame() {
    let mut d = FrameDecoder::new();
    d.feed(&[0u8, 0]);
    assert_eq!(d.next_frame(), Some(Ok(vec![])));
    assert_eq!(d.next_frame(), Some(Ok(vec![])));
    assert_eq!(d.next_frame(), None);
}

#[test]
fn malformed_frame_is_reported_and_skipped() {
    let mut d = FrameDecoder::new();
    d.feed(&[5u8, 1, 0, 2, 4, 0]);
    assert_eq!(d.next_frame(), Some(Err(FrameError::Malformed)));
    assert_eq!(d.next_frame(), Some(Ok(vec![4u8])));
    assert_eq!(d.next_frame(), None);
}
