use bobbin_cli::decoder::FrameDecoder;
use bobbin_cli::frame::encode;
use bobbin_cli::session::{clear_step, process_chunk, render_frame, view_step, LoopAction, ReadOutcome};

#[test]
fn clear_stops_on_empty_or_failed_read() {
    assert_eq!(clear_step(ReadOutcome::Data), LoopAction::ReadAgain);
    assert_eq!(clear_step(ReadOutcome::Empty), LoopAction::Finish);
    assert_eq!(clear_step(ReadOutcome::Failed), LoopAction::Finish);
}

#[test]
fn view_keeps_reading() {
    assert_eq!(view_step(ReadOutcome::Failed), LoopAction::ReadAgain);
    assert_eq!(view_step(ReadOutcome::Empty), LoopAction::ReadAgain);
}

#[test]
fn render_frame_shows_boot_and_output() {
    let frame = [1u8, 4, b'v', b'1', b'.', b'0', 2, 3, b'a', b'b', b'c', 9, 1, b'z', 3, 2, b'e', b'!'];
    assert_eq!(render_frame(&frame), b"boot: v1.0\r\nabce!".to_vec());
    assert_eq!(render_frame(&[2u8, 1, b'k', 2, 9]), b"k".to_vec());
}

#[test]
fn framed_view_across_chunks() {
    let mut stream = encode(&[2u8, 2, b'h', b'i']);
    stream.push(0);
    stream.extend(encode(&[1u8, 4, b'v', b'1', b'.', b'0']));
    stream.push(0);
    stream.extend(vec![5u8, 1, 0]);
    stream.extend(encode(&[3u8, 1, b'!']));
    let mut whole = FrameDecoder::new();
    let all = process_chunk(&mut whole, &stream);
    assert_eq!(all, b"hiboot: v1.0\r\n".to_vec());
    for size in [1usize, 2, 5] {
        let mut d = FrameDecoder::new();
        let mut got = Vec::new();
        for c in stream.chunks(size) {
            got.extend(process_chunk(&mut d, c));
        }
        assert_eq!(got, all);
        got.extend(process_chunk(&mut d, &[0u8]));
        assert_eq!(got, b"hiboot: v1.0\r\n!".to_vec());
    }
}
