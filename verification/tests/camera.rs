use printhub::camera::{content_length, is_jpeg, open_stream, CameraError, MjpegParser};

const JPEG_A: &[u8] = &[0xFF, 0xD8, 1, 2, 3, 0xFF, 0xD9];
const JPEG_B: &[u8] = &[0xFF, 0xD8, 4, 5, 0xFF, 0xD9];

fn part(boundary_line: &str, jpeg: &[u8], with_length: bool) -> Vec<u8> {
    let mut out = format!("{boundary_line}\r\nContent-Type: image/jpeg\r\n").into_bytes();
    if with_length {
        out.extend_from_slice(format!("Content-Length: {}\r\n", jpeg.len()).as_bytes());
    }
    out.extend_from_slice(b"\r\n");
    out.extend_from_slice(jpeg);
    out.extend_from_slice(b"\r\n");
    out
}

#[test]
fn boundary_extraction() {
    for content_type in [
        "multipart/x-mixed-replace; boundary=frame_boundary",
        "multipart/x-mixed-replace; boundary=--frame_boundary",
        "multipart/x-mixed-replace;boundary=\"frame_boundary\"",
    ] {
        let parser = MjpegParser::from_content_type(content_type).unwrap();
        assert_eq!(parser.delimiter(), b"--frame_boundary");
    }
    assert!(MjpegParser::from_content_type("image/jpeg").is_none());
    assert!(MjpegParser::from_content_type("multipart/x-mixed-replace; boundary=--").is_none());
}

#[test]
fn frames_with_content_length_split_across_chunks() {
    let mut stream = part("--frame_boundary", JPEG_A, true);
    stream.extend(part("--frame_boundary", JPEG_B, true));
    let mut parser =
        MjpegParser::from_content_type("multipart/x-mixed-replace; boundary=frame_boundary")
            .unwrap();
    let mut frames = Vec::new();
    for chunk in stream.chunks(3) {
        frames.extend(parser.push(chunk));
    }
    assert_eq!(frames, vec![JPEG_A.to_vec(), JPEG_B.to_vec()]);
}

#[test]
fn frames_without_content_length_wait_for_next_delimiter() {
    let mut parser =
        MjpegParser::from_content_type("multipart/x-mixed-replace; boundary=--frame_boundary")
            .unwrap();
    assert!(parser
        .push(&part("----frame_boundary", JPEG_A, false))
        .is_empty());
    let frames = parser.push(&part("----frame_boundary", JPEG_B, false));
    assert_eq!(frames, vec![JPEG_A.to_vec()]);
}

#[test]
fn content_length_body_may_contain_delimiter_bytes() {
    let tricky: Vec<u8> = [&[0xFF, 0xD8][..], b"--frame_boundary", &[0xFF, 0xD9]].concat();
    let mut parser =
        MjpegParser::from_content_type("multipart/x-mixed-replace; boundary=frame_boundary")
            .unwrap();
    let frames = parser.push(&part("--frame_boundary", &tricky, true));
    assert_eq!(frames, vec![tricky]);
}

#[test]
fn streams_that_are_no_pictures_are_refused() {
    assert_eq!(
        open_stream(503, "text/plain").err().map(|error| error.message()),
        Some("camera answered HTTP 503 Service Unavailable".to_string())
    );
    assert!(matches!(
        open_stream(200, "text/html").err(),
        Some(CameraError::NotMjpeg(_))
    ));
    assert!(open_stream(200, "multipart/x-mixed-replace; boundary=b").is_ok());
    assert!(is_jpeg(JPEG_A));
    assert!(!is_jpeg(b"GIF89a"));
    assert_eq!(content_length(b"Content-Type: image/jpeg\r\ncontent-length: 12\r\n"), Some(12));
    assert_eq!(content_length(b"Content-Type: image/jpeg\r\n"), None);
}

#[test]
fn chunks_of_any_size_give_the_same_frames() {
    let mut stream = part("--b", JPEG_A, true);
    stream.extend(part("--b", JPEG_B, false));
    stream.extend(part("--b", JPEG_A, true));
    let frames_by = |size: usize| {
        let mut parser =
            MjpegParser::from_content_type("multipart/x-mixed-replace; boundary=b").unwrap();
        let mut frames = Vec::new();
        for chunk in stream.chunks(size) {
            frames.extend(parser.push(chunk));
        }
        frames
    };
    assert_eq!(frames_by(1), frames_by(1_000));
    assert_eq!(frames_by(7), frames_by(1_000));
}
