use omabeam::encoder::{
    check_packet, frame_header, frame_request, header_len, inspect_h264, interleave_uv, read_plane,
    take_header, Config, Error, PlaneFill, MAX_HEADER, MAX_PACKET, VERSION,
};
use omabeam::video::{candidates, nvenc_maxrate, options, Attempt, Candidate, PixelFormat, Search};

fn config() -> Config {
    Config {
        version: VERSION,
        width: 16,
        height: 16,
        fps: 30,
        bitrate: 100_000,
        gop_frames: 0,
    }
}

#[test]
fn zero_gop_is_two_seconds_and_an_explicit_interval_is_kept() {
    let mut config = config();
    assert_eq!(config.gop_frames(), 60);
    config.gop_frames = 1_800;
    assert_eq!(config.gop_frames(), 1_800);
}

#[test]
fn rejects_unbounded_headers_and_incompatible_bitstreams() {
    assert!(header_len(u32::MAX.to_le_bytes()).is_err());
    assert!(inspect_h264(&[0, 0, 1, 0x65, 1]).is_err());
    let mut frame = vec![
        0, 0, 0, 1, 0x67, 66, 0xe0, 31, 0, 0, 1, 0x68, 1, 0, 0, 1, 0x65, 1,
    ];
    assert!(inspect_h264(&frame).unwrap());
    frame[5] = 100;
    assert!(inspect_h264(&frame).is_err());
    assert!(!inspect_h264(&[0, 0, 1, 0x41, 1]).unwrap());
}

/// Fills a plane with at most `step` bytes per read, splitting rows across
/// reads the way a pipe does. Returns what is left of the input.
fn trickle(data: &[u8], step: usize, plane: &mut [u8], mut fill: PlaneFill) -> usize {
    let mut left = data;
    loop {
        let (start, end) = fill.next(plane.len());
        if start == end {
            return left.len();
        }
        let n = (end - start).min(step).min(left.len());
        plane[start..start + n].copy_from_slice(&left[..n]);
        left = &left[n..];
        fill.advance(n);
    }
}

#[test]
fn plane_rows_land_at_their_stride_however_the_input_arrives() {
    // 683 × 9 is the chroma of a 1366 × 18 frame: padded rows, odd count.
    for (width, stride, rows) in [(683, 704, 9), (8, 8, 5), (6, 32, 1), (1920, 1920, 3)] {
        let data: Vec<u8> = (0..width * rows).map(|i| (i * 31 % 251) as u8).collect();
        for step in [1, 7, 700, usize::MAX] {
            // The last row needs only `width` bytes, as in a tight buffer.
            let mut plane = vec![0xee; stride * (rows - 1) + width];
            let fill = PlaneFill::new(width, stride, rows, plane.len())
                .unwrap()
                .unwrap();
            assert_eq!(trickle(&data, step, &mut plane, fill), 0, "left input unread");
            for (row, expected) in plane.chunks(stride).zip(data.chunks(width)) {
                assert_eq!(&row[..width], expected, "step {step}");
                assert!(row[width..].iter().all(|&b| b == 0xee), "wrote padding");
            }
        }
        // A plain slice fills every row at once.
        let mut plane = vec![0xee; stride * rows];
        assert_eq!(
            read_plane(&data, &mut plane, width, stride, rows).unwrap(),
            width * rows
        );
        for (row, expected) in plane.chunks(stride).zip(data.chunks(width)) {
            assert_eq!(&row[..width], expected);
        }
    }
}

#[test]
fn a_short_input_or_a_plane_smaller_than_its_rows_is_an_error() {
    let data = [7; 20];
    let mut plane = vec![0; 32];
    let mut shorter = vec![0; 28];
    let mut enough = vec![0; 29];
    assert!(read_plane(&data, &mut plane, 6, 8, 4).is_err());
    assert!(read_plane(&data, &mut plane, 9, 8, 2).is_err());
    assert!(read_plane(&data, &mut shorter, 5, 8, 4).is_err());
    assert!(read_plane(&data, &mut enough, 5, 8, 4).is_ok());
    let (u, v) = ([1; 6], [2; 6]);
    let mut shorter = vec![0; 13];
    let mut enough = vec![0; 14];
    assert!(interleave_uv(&u, &v, &mut plane, 3, 5, 2).is_err());
    assert!(interleave_uv(&u, &v[..5], &mut plane, 3, 8, 2).is_err());
    assert!(interleave_uv(&u, &v, &mut shorter, 3, 8, 2).is_err());
    assert!(interleave_uv(&u, &v, &mut enough, 3, 8, 2).is_ok());
}

/// The chroma plane, sample by sample.
fn scalar(i420: &[u8], w: usize, h: usize, stride: usize) -> Vec<u8> {
    let mut plane = vec![0xee; stride * h / 2];
    let chroma = w * h / 4;
    for y in 0..h / 2 {
        let row = &mut plane[y * stride..y * stride + w];
        for x in 0..w / 2 {
            row[x * 2] = i420[w * h + y * w / 2 + x];
            row[x * 2 + 1] = i420[w * h + chroma + y * w / 2 + x];
        }
    }
    plane
}

#[test]
fn nv12_chroma_matches_the_former_interleave_loop() {
    // 18 rows of luma give 9 of chroma.
    for (w, h, stride) in [(1366, 18, 1376), (64, 36, 64), (16, 16, 32)] {
        let i420: Vec<u8> = (0..w * h * 3 / 2).map(|i| (i * 131 % 253) as u8).collect();
        let (u, v) = i420[w * h..].split_at(w * h / 4);
        let mut plane = vec![0xee; stride * h / 2];
        interleave_uv(u, v, &mut plane, w / 2, stride, h / 2).unwrap();
        assert_eq!(plane, scalar(&i420, w, h, stride), "{w}x{h}");
    }
}

#[test]
fn no_rows_or_empty_rows_fill_nothing() {
    let mut plane = vec![0xee; 4];
    assert_eq!(read_plane(&[1, 2], &mut plane, 0, 4, 1), Ok(0));
    assert_eq!(read_plane(&[1, 2], &mut plane, 2, 4, 0), Ok(0));
    assert_eq!(interleave_uv(&[], &[], &mut plane, 0, 4, 1), Ok(()));
    assert_eq!(plane, [0xee; 4]);
    assert_eq!(PlaneFill::new(0, 4, 1, 4), Ok(None));
}

#[test]
fn frames_are_bounded_and_even() {
    assert_eq!(config().frame_len(), Ok(384));
    let mut other = config();
    other.version = 2;
    assert_eq!(other.frame_len(), Err(Error::VersionMismatch));
    let mut odd = config();
    odd.width = 17;
    assert_eq!(odd.frame_len(), Err(Error::InvalidDimensions));
    let mut still = config();
    still.fps = 0;
    assert_eq!(still.frame_len(), Err(Error::InvalidRate));
}

#[test]
fn a_framed_header_is_read_back() {
    let wire = frame_header(b"{\"version\":1}").unwrap();
    assert_eq!(wire[..4], [13, 0, 0, 0]);
    assert_eq!(header_len([wire[0], wire[1], wire[2], wire[3]]), Ok(13));
    assert_eq!(&wire[4..], b"{\"version\":1}");
    assert_eq!(
        frame_header(&vec![b' '; MAX_HEADER + 1]),
        Err(Error::HeaderTooLarge)
    );
    assert_eq!(header_len([0, 0, 0, 0]), Err(Error::InvalidHeaderSize));
    assert_eq!(header_len([0, 16, 0, 0]), Ok(4096));
    assert_eq!(header_len([1, 16, 0, 0]), Err(Error::InvalidHeaderSize));
}

#[test]
fn each_bitstream_fault_has_its_error() {
    assert_eq!(inspect_h264(&[]), Err(Error::InvalidPacketSize));
    assert_eq!(
        inspect_h264(&vec![0; MAX_PACKET + 1]),
        Err(Error::InvalidPacketSize)
    );
    assert_eq!(inspect_h264(&[1, 2, 3, 4, 5]), Err(Error::NotAnnexB));
    assert_eq!(
        inspect_h264(&[0, 0, 1, 0x41, 0, 0, 0, 1]),
        Err(Error::EmptyNal)
    );
    assert_eq!(
        inspect_h264(&[0, 0, 1, 0x67, 100, 0, 31]),
        Err(Error::WrongProfile)
    );
    assert_eq!(inspect_h264(&[0, 0, 1, 0x09, 1]), Err(Error::NoPicture));
    assert_eq!(
        inspect_h264(&[0, 0, 1, 0x65, 1]),
        Err(Error::MissingParameterSets)
    );
}

#[test]
fn requests_and_packets_agree_on_keyframes() {
    assert_eq!(frame_request(0), Ok(false));
    assert_eq!(frame_request(1), Ok(true));
    assert_eq!(frame_request(2), Err(Error::InvalidRequest));
    let delta = [0, 0, 1, 0x41, 1];
    let key = [
        0, 0, 0, 1, 0x67, 66, 0xe0, 31, 0, 0, 1, 0x68, 1, 0, 0, 1, 0x65, 1,
    ];
    assert_eq!(check_packet(&delta, false), Ok(false));
    assert_eq!(check_packet(&delta, true), Err(Error::IgnoredKeyframe));
    assert_eq!(check_packet(&key, true), Ok(true));
}

#[test]
fn each_backend_tries_its_frame_formats_in_order() {
    assert_eq!(
        Candidate::Nvenc.formats(),
        [PixelFormat::Yuv420p, PixelFormat::Nv12]
    );
    assert_eq!(
        Candidate::Vaapi("/dev/dri/renderD128".into()).formats(),
        [PixelFormat::Nv12]
    );
    // VideoToolbox delays planar frames, so its probe would only fall back.
    assert_eq!(Candidate::VideoToolbox.formats(), [PixelFormat::Nv12]);
}

#[test]
fn nvenc_maxrate_is_twice_the_target() {
    assert_eq!(nvenc_maxrate(4_000_000), 8_000_000);
    assert_eq!(nvenc_maxrate(16_000_000), 32_000_000);
    assert_eq!(nvenc_maxrate(u32::MAX / 2 + 1), u32::MAX);
}

#[test]
fn render_nodes_are_tried_in_order_after_nvenc() {
    let entries = ["renderD129", "card0", "renderD128"].map(String::from).to_vec();
    let list = candidates("linux", &entries);
    let labels: Vec<String> = list.iter().map(|c| c.label()).collect();
    assert_eq!(
        labels,
        [
            "NVIDIA NVENC",
            "VA-API (/dev/dri/renderD128)",
            "VA-API (/dev/dri/renderD129)"
        ]
    );
    let mac: Vec<String> = candidates("macos", &entries)
        .iter()
        .map(|c| c.label())
        .collect();
    assert_eq!(mac, ["Apple VideoToolbox"]);
}

#[test]
fn every_format_of_every_candidate_gets_its_turn() {
    let list = candidates("linux", &vec![String::from("renderD128")]);
    let mut search = Search::new();
    let mut tried = Vec::new();
    loop {
        match search.attempt(&list) {
            Attempt::Try { candidate, format } => tried.push((candidate, format)),
            Attempt::Exhausted => break,
        }
        search.failed(&list);
    }
    assert_eq!(
        tried,
        [
            (0, PixelFormat::Yuv420p),
            (0, PixelFormat::Nv12),
            (1, PixelFormat::Nv12)
        ]
    );
}

#[test]
fn nvenc_options_bound_the_rate() {
    let given = options(&Candidate::Nvenc, 4_000_000);
    assert!(given
        .iter()
        .any(|(key, value)| *key == "maxrate" && value == "8000000"));
}

#[test]
fn a_message_is_taken_off_what_follows_it() {
    let mut wire = frame_header(b"{\"version\":1}").unwrap();
    wire.extend([9, 9, 9]);
    assert_eq!(take_header(&wire), Ok((b"{\"version\":1}".to_vec(), 17)));
    assert_eq!(take_header(&wire[..16]), Err(Error::UnexpectedEnd));
    assert_eq!(take_header(&wire[..3]), Err(Error::UnexpectedEnd));
    assert_eq!(take_header(&[0; 8]), Err(Error::InvalidHeaderSize));
    let longest = vec![b'x'; MAX_HEADER];
    let wire = frame_header(&longest).unwrap();
    assert_eq!(take_header(&wire), Ok((longest, MAX_HEADER + 4)));
}

#[test]
fn padded_rows_take_what_there_is_of_a_short_input() {
    let mut plane = vec![0; 11];
    let short = read_plane(&[1, 2, 3, 4, 5], &mut plane, 3, 4, 3);
    assert_eq!(short, Err(Error::UnexpectedEnd));
    assert_eq!(plane, [1, 2, 3, 0, 4, 5, 0, 0, 0, 0, 0]);
    let mut plane = vec![0; 9];
    assert!(read_plane(&[1, 2, 3, 4, 5], &mut plane, 3, 3, 3).is_err());
    assert_eq!(plane, [0; 9]);
}
