use petri::export::{encode_gif, frame_delay, frame_disposal, frame_pixels, Disposal, ExportError};
use petri::palette::{age_color, paint_color, Rgb};

#[test]
fn age_ramp_bands() {
    assert_eq!(age_color(0), None);
    assert_eq!(age_color(1), Some(Rgb { r: 40, g: 80, b: 40 }));
    assert_eq!(age_color(2), Some(Rgb { r: 60, g: 140, b: 60 }));
    assert_eq!(age_color(5), Some(Rgb { r: 60, g: 140, b: 60 }));
    assert_eq!(age_color(6), Some(Rgb { r: 100, g: 180, b: 50 }));
    assert_eq!(age_color(15), Some(Rgb { r: 100, g: 180, b: 50 }));
    assert_eq!(age_color(16), Some(Rgb { r: 180, g: 180, b: 40 }));
    assert_eq!(age_color(40), Some(Rgb { r: 180, g: 180, b: 40 }));
    assert_eq!(age_color(41), Some(Rgb { r: 220, g: 140, b: 30 }));
    assert_eq!(age_color(100), Some(Rgb { r: 220, g: 140, b: 30 }));
    assert_eq!(age_color(101), Some(Rgb { r: 240, g: 240, b: 240 }));
    assert_eq!(age_color(u16::MAX), Some(Rgb { r: 240, g: 240, b: 240 }));
    assert_eq!(paint_color(0), Rgb { r: 0, g: 0, b: 0 });
    assert_eq!(paint_color(3), Rgb { r: 60, g: 140, b: 60 });
}

#[test]
fn first_frame_paints_live_cells_over_an_empty_board() {
    let frames = vec![vec![0u16, 3]];
    let pixels = frame_pixels(&frames, 0, 2, 1, 1);
    assert_eq!(pixels, vec![0, 0, 0, 0, 60, 140, 60, 255]);
}

#[test]
fn later_frames_paint_only_changes() {
    let frames = vec![vec![0u16, 3], vec![5u16, 3]];
    let pixels = frame_pixels(&frames, 1, 2, 1, 1);
    assert_eq!(pixels, vec![60, 140, 60, 255, 0, 0, 0, 0]);
}

#[test]
fn a_cell_that_dies_is_painted_opaque_black() {
    let frames = vec![vec![1u16, 1], vec![0u16, 1]];
    let pixels = frame_pixels(&frames, 1, 2, 1, 1);
    assert_eq!(pixels, vec![0, 0, 0, 255, 0, 0, 0, 0]);
}

#[test]
fn cells_become_square_blocks() {
    let frames = vec![vec![0u16, 0], vec![1u16, 0]];
    let pixels = frame_pixels(&frames, 1, 2, 1, 2);
    let painted = [40u8, 80, 40, 255];
    let clear = [0u8, 0, 0, 0];
    let mut expected = Vec::new();
    for _row in 0..2 {
        expected.extend_from_slice(&painted);
        expected.extend_from_slice(&painted);
        expected.extend_from_slice(&clear);
        expected.extend_from_slice(&clear);
    }
    assert_eq!(pixels, expected);
}

#[test]
fn unchanged_blocks_are_fully_transparent() {
    let frames = vec![vec![1u16, 2, 3, 4], vec![2u16, 2, 0, 4]];
    let pixels = frame_pixels(&frames, 1, 2, 2, 3);
    let row_len = 2 * 3;
    for py in 0..6 {
        for px in 0..6 {
            let cell = (py / 3) * 2 + px / 3;
            let at = (py * row_len + px) * 4;
            let pixel = &pixels[at..at + 4];
            if frames[0][cell] == frames[1][cell] {
                assert_eq!(pixel, &[0, 0, 0, 0]);
            } else {
                let c = paint_color(frames[1][cell]);
                assert_eq!(pixel, &[c.r, c.g, c.b, 255]);
            }
        }
    }
}

#[test]
fn delay_is_in_hundredths() {
    assert_eq!(frame_delay(100), 10);
    assert_eq!(frame_delay(25), 2);
    assert_eq!(frame_delay(1000), 100);
    assert_eq!(frame_delay(9), 0);
}

#[test]
fn only_the_first_frame_replaces() {
    assert_eq!(frame_disposal(0), Disposal::Replace);
    assert_eq!(frame_disposal(1), Disposal::Keep);
    assert_eq!(frame_disposal(7), Disposal::Keep);
}

#[test]
fn empty_export_is_rejected() {
    let frames: Vec<Vec<u16>> = Vec::new();
    assert!(matches!(encode_gif(&frames, 4, 4, 4, 100), Err(ExportError::NoFrames)));
}

#[test]
fn bad_canvas_is_rejected() {
    let frames = vec![vec![0u16; 4]];
    assert!(matches!(encode_gif(&frames, 2, 2, 0, 100), Err(ExportError::BadCanvas)));
    assert!(matches!(encode_gif(&frames, 0, 2, 4, 100), Err(ExportError::BadCanvas)));
    let wide = vec![vec![0u16; 20000]];
    assert!(matches!(encode_gif(&wide, 20000, 1, 4, 100), Err(ExportError::BadCanvas)));
}

#[test]
fn mismatched_snapshot_is_rejected() {
    let frames = vec![vec![0u16; 4], vec![0u16; 3]];
    assert!(matches!(encode_gif(&frames, 2, 2, 4, 100), Err(ExportError::FrameSize)));
}

#[test]
fn export_round_trips_through_a_decoder() {
    let frames = vec![vec![1u16, 0, 0, 1], vec![2u16, 0, 1, 1], vec![3u16, 0, 1, 2]];
    let bytes = encode_gif(&frames, 2, 2, 3, 150).unwrap();
    assert_eq!(&bytes[..6], b"GIF89a");

    let mut options = gif::DecodeOptions::new();
    options.set_color_output(gif::ColorOutput::RGBA);
    let mut decoder = options.read_info(&bytes[..]).unwrap();
    let mut delays = Vec::new();
    let mut disposals = Vec::new();
    let mut alphas = Vec::new();
    while let Some(frame) = decoder.read_next_frame().unwrap() {
        assert_eq!((frame.width, frame.height), (6, 6));
        delays.push(frame.delay);
        disposals.push(frame.dispose);
        // alpha of the top-left pixel of each cell
        let alpha: Vec<u8> =
            [(0usize, 0usize), (3, 0), (0, 3), (3, 3)].iter().map(|&(x, y)| frame.buffer[(y * 6 + x) * 4 + 3]).collect();
        alphas.push(alpha);
    }
    assert!(matches!(decoder.repeat(), gif::Repeat::Infinite));
    assert_eq!(delays, vec![15, 15, 15]);
    assert_eq!(
        disposals,
        vec![gif::DisposalMethod::Any, gif::DisposalMethod::Keep, gif::DisposalMethod::Keep]
    );
    assert_eq!(alphas[0], vec![255, 0, 0, 255]);
    assert_eq!(alphas[1], vec![255, 0, 255, 0]);
    assert_eq!(alphas[2], vec![255, 0, 0, 255]);
}

#[test]
fn export_is_deterministic() {
    let frames = vec![vec![1u16, 0, 0, 1], vec![2u16, 0, 1, 1]];
    let a = encode_gif(&frames, 2, 2, 4, 100).unwrap();
    let b = encode_gif(&frames, 2, 2, 4, 100).unwrap();
    assert_eq!(a, b);
    let first = frame_pixels(&frames, 1, 2, 2, 4);
    let second = frame_pixels(&frames.clone(), 1, 2, 2, 4);
    assert_eq!(first, second);
}

#[test]
fn export_framing_bytes() {
    let frames = vec![vec![1u16, 0, 0, 1], vec![2u16, 0, 1, 1]];
    let bytes = encode_gif(&frames, 2, 2, 150, 100).unwrap();
    // 300 by 300 canvas, no palette of its own
    let header: [u8; 19] =
        [0x47, 0x49, 0x46, 0x38, 0x39, 0x61, 0x2C, 0x01, 0x2C, 0x01, 0x80, 0, 0, 0, 0, 0, 0, 0, 0];
    assert_eq!(&bytes[..19], &header);
    let looping: [u8; 19] = [
        0x21, 0xFF, 0x0B, b'N', b'E', b'T', b'S', b'C', b'A', b'P', b'E', b'2', b'.', b'0', 0x03, 0x01, 0, 0, 0,
    ];
    assert_eq!(&bytes[19..38], &looping);
    // the first frame's control extension follows
    assert_eq!(&bytes[38..40], &[0x21, 0xF9]);
    assert_eq!(*bytes.last().unwrap(), 0x3B);
}
