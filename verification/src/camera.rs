//! The printer camera: an MJPEG stream on port 8080 that serves one viewer at a time.

use vstd::prelude::*;

use crate::cc2::client;
use crate::cc2::upload;
use crate::config;
use crate::text;

verus! {

/// Buffered stream data without a complete frame beyond this means the stream is not the
/// MJPEG it claims to be; the buffer is dropped rather than grown forever.
pub const MAX_BUFFER: usize = 16_777_216;

/// Why there is no frame. `Http` holds the words of the HTTP client; `Timeout` is in
/// milliseconds.
#[derive(Debug, PartialEq, Eq)]
pub enum CameraError {
    Http(String),
    Status(u16),
    NotMjpeg(String),
    Ended,
    Timeout(u64),
}

impl CameraError {
    pub open spec fn text(self) -> Seq<char> {
        match self {
            CameraError::Http(reason) => "camera request failed: "@ + reason@,
            CameraError::Status(status) => "camera answered HTTP "@ + upload::status_said(status),
            CameraError::NotMjpeg(content_type) =>
                "camera did not send multipart MJPEG (content type "@ + config::quoted(
                content_type@,
            ) + ")"@,
            CameraError::Ended => "camera stream ended before a complete frame"@,
            CameraError::Timeout(limit) => "no camera frame within "@ + client::span_text(
                limit as nat,
            ),
        }
    }

    pub fn message(&self) -> (r: String)
        ensures
            r@ == self.text(),
    {
        let mut out = String::new();
        match self {
            CameraError::Http(reason) => {
                out.append("camera request failed: ");
                out.append(reason.as_str());
            },
            CameraError::Status(status) => {
                out.append("camera answered HTTP ");
                let said = upload::say_status(*status);
                out.append(said.as_str());
            },
            CameraError::NotMjpeg(content_type) => {
                out.append("camera did not send multipart MJPEG (content type ");
                let quoted = config::quote(content_type.as_str());
                out.append(quoted.as_str());
                out.append(")");
            },
            CameraError::Ended => {
                out.append("camera stream ended before a complete frame");
            },
            CameraError::Timeout(limit) => {
                out.append("no camera frame within ");
                client::push_span(&mut out, *limit);
            },
        }
        assert(out@ =~= self.text());
        out
    }
}

// ---------------------------------------------------------------------------------------------
// The boundary
// ---------------------------------------------------------------------------------------------

/// What a parameter says the boundary is, if it is the one that does.
pub open spec fn boundary_param(param: Seq<char>) -> Option<Seq<char>> {
    match text::split_once(param, '=') {
        Some((key, value)) => if text::lower(text::trim(key)) == text::lower("boundary"@) {
            Some(text::drop_trailing(text::skip_leading(text::trim(value), '"'), '"'))
        } else {
            None
        },
        None => None,
    }
}

/// The boundary that the first parameter of that name gives.
pub open spec fn boundary_in(params: Seq<char>) -> Option<Seq<char>>
    decreases params.len(),
    via boundary_in_decreases
{
    match text::split_once(params, ';') {
        Some((param, rest)) => match boundary_param(param) {
            Some(boundary) => Some(boundary),
            None => boundary_in(rest),
        },
        None => boundary_param(params),
    }
}

#[via_fn]
proof fn boundary_in_decreases(params: Seq<char>) {
    text::lemma_find(params, ';', 0);
}

fn find_boundary_param(param: &[char]) -> (r: Option<&[char]>)
    ensures
        match r {
            Some(boundary) => boundary_param(param@) == Some(boundary@),
            None => boundary_param(param@) is None,
        },
{
    match text::split_at_char(param, '=') {
        Some((key, value)) => {
            let name = text::chars("boundary");
            if text::same_ignoring_case(text::trimmed(key), name.as_slice()) {
                let value = text::trimmed(value);
                Some(text::without_trailing(text::without_leading(value, '"'), '"'))
            } else {
                None
            }
        },
        None => None,
    }
}

fn find_boundary(params: &[char]) -> (r: Option<&[char]>)
    ensures
        match r {
            Some(boundary) => boundary_in(params@) == Some(boundary@),
            None => boundary_in(params@) is None,
        },
    decreases params@.len(),
{
    proof {
        text::lemma_find(params@, ';', 0);
    }
    match text::split_at_char(params, ';') {
        Some((param, rest)) => match find_boundary_param(param) {
            Some(boundary) => Some(boundary),
            None => find_boundary(rest),
        },
        None => find_boundary_param(params),
    }
}

/// The printer is documented as sending `boundary=--frame_boundary`. Whether its delimiter lines
/// then carry two leading dashes or four, `--frame_boundary` matches.
pub open spec fn delimiter_in(content_type: Seq<char>) -> Option<Seq<char>> {
    match boundary_in(content_type) {
        Some(boundary) => {
            let name = text::skip_leading(boundary, '-');
            if name.len() == 0 {
                None
            } else {
                Some("--"@ + name)
            }
        },
        None => None,
    }
}

// ---------------------------------------------------------------------------------------------
// Frames
// ---------------------------------------------------------------------------------------------

/// The length that a header line gives, if it is the one that does.
pub open spec fn header_length(line: Seq<char>) -> Option<nat> {
    match text::split_once(line, ':') {
        Some((name, value)) => if text::lower(text::trim(name)) == text::lower("content-length"@) {
            text::parsed_unsigned(text::trim(value), usize::MAX as nat)
        } else {
            None
        },
        None => None,
    }
}

/// The length that the first such line gives.
pub open spec fn length_in(headers: Seq<char>) -> Option<nat>
    decreases headers.len(),
    via length_in_decreases
{
    match text::split_once(headers, '\n') {
        Some((line, rest)) => match header_length(line) {
            Some(length) => Some(length),
            None => length_in(rest),
        },
        None => header_length(headers),
    }
}

#[via_fn]
proof fn length_in_decreases(headers: Seq<char>) {
    text::lemma_find(headers, '\n', 0);
}

/// The length that some headers give; those that are not text give none.
pub open spec fn declared_length(headers: Seq<u8>) -> Option<nat> {
    if vstd::utf8::valid_utf8(headers) {
        length_in(vstd::utf8::decode_utf8(headers))
    } else {
        None
    }
}

fn find_header_length(line: &[char]) -> (r: Option<usize>)
    ensures
        match r {
            Some(length) => header_length(line@) == Some(length as nat),
            None => header_length(line@) is None,
        },
{
    match text::split_at_char(line, ':') {
        Some((name, value)) => {
            let wanted = text::chars("content-length");
            if text::same_ignoring_case(text::trimmed(name), wanted.as_slice()) {
                match text::parse_unsigned(text::trimmed(value), usize::MAX as u64) {
                    Some(length) => Some(length as usize),
                    None => None,
                }
            } else {
                None
            }
        },
        None => None,
    }
}

fn find_length(headers: &[char]) -> (r: Option<usize>)
    ensures
        match r {
            Some(length) => length_in(headers@) == Some(length as nat),
            None => length_in(headers@) is None,
        },
    decreases headers@.len(),
{
    proof {
        text::lemma_find(headers@, '\n', 0);
    }
    match text::split_at_char(headers, '\n') {
        Some((line, rest)) => match find_header_length(line) {
            Some(length) => Some(length),
            None => find_length(rest),
        },
        None => find_header_length(headers),
    }
}

pub fn content_length(headers: &[u8]) -> (r: Option<usize>)
    ensures
        match r {
            Some(length) => declared_length(headers@) == Some(length as nat),
            None => declared_length(headers@) is None,
        },
{
    match text::read_utf8(headers) {
        Some(headers) => {
            let chars = text::chars(headers.as_str());
            find_length(chars.as_slice())
        },
        None => None,
    }
}

/// An empty line, which ends the headers.
pub open spec fn blank_line() -> Seq<u8> {
    seq![13u8, 10, 13, 10]
}

/// Where a body that ends at the delimiter at `end` itself ends: with four-dash delimiter lines
/// the match starts two dashes into the line, and a JPEG ends in FF D9, so trailing dashes can
/// only belong to the delimiter.
pub open spec fn without_dashes(buf: Seq<u8>, start: int, end: int) -> int
    decreases end - start,
{
    if end > start && buf[end - 1] == 45 {
        without_dashes(buf, start, end - 1)
    } else {
        end
    }
}

/// Without the line break before the delimiter.
pub open spec fn without_line_break(buf: Seq<u8>, start: int, end: int) -> int {
    if end >= start + 2 && buf[end - 2] == 13 && buf[end - 1] == 10 {
        end - 2
    } else {
        end
    }
}

/// Where the first complete frame starts and ends.
pub open spec fn frame_at(buf: Seq<u8>, delimiter: Seq<u8>) -> Option<(int, int)> {
    match text::find_bytes(buf, delimiter, 0) {
        None => None,
        Some(start) => {
            let headers = start + delimiter.len();
            match text::find_bytes(buf, blank_line(), headers) {
                None => None,
                Some(headers_end) => {
                    let body = headers_end + 4;
                    match declared_length(buf.subrange(headers, headers_end)) {
                        Some(length) => if buf.len() < body + length {
                            None
                        } else {
                            Some((body, body + length))
                        },
                        None => match text::find_bytes(buf, delimiter, body) {
                            None => None,
                            Some(next) => Some(
                                (
                                    body,
                                    without_line_break(
                                        buf,
                                        body,
                                        without_dashes(buf, body, next),
                                    ),
                                ),
                            ),
                        },
                    }
                },
            }
        },
    }
}

proof fn lemma_without_dashes(buf: Seq<u8>, start: int, end: int)
    requires
        0 <= start <= end <= buf.len(),
    ensures
        start <= without_dashes(buf, start, end) <= end,
    decreases end - start,
{
    if end > start && buf[end - 1] == 45 {
        lemma_without_dashes(buf, start, end - 1);
    }
}

proof fn lemma_frame_at(buf: Seq<u8>, delimiter: Seq<u8>)
    ensures
        frame_at(buf, delimiter) matches Some((start, end)) ==> delimiter.len() + 4 <= start <= end
            <= buf.len(),
{
    text::lemma_find_bytes(buf, delimiter, 0);
    if let Some(start) = text::find_bytes(buf, delimiter, 0) {
        let headers = start + delimiter.len();
        text::lemma_find_bytes(buf, blank_line(), headers);
        if let Some(headers_end) = text::find_bytes(buf, blank_line(), headers) {
            let body = headers_end + 4;
            text::lemma_find_bytes(buf, delimiter, body);
            if let Some(next) = text::find_bytes(buf, delimiter, body) {
                lemma_without_dashes(buf, body, next);
            }
        }
    }
}

/// The frames in some stream data, without the empty ones, and what is left of it.
pub open spec fn frames_in(buf: Seq<u8>, delimiter: Seq<u8>) -> (Seq<Seq<u8>>, Seq<u8>)
    decreases buf.len(),
    via frames_in_decreases
{
    match frame_at(buf, delimiter) {
        Some((start, end)) => {
            let (frames, rest) = frames_in(buf.skip(end), delimiter);
            if start < end {
                (seq![buf.subrange(start, end)] + frames, rest)
            } else {
                (frames, rest)
            }
        },
        None => (seq![], buf),
    }
}

#[via_fn]
proof fn frames_in_decreases(buf: Seq<u8>, delimiter: Seq<u8>) {
    lemma_frame_at(buf, delimiter);
}

proof fn lemma_find_in_more(a: Seq<u8>, b: Seq<u8>, needle: Seq<u8>, i: int)
    requires
        0 <= i,
        text::find_bytes(a, needle, i) is Some,
    ensures
        text::find_bytes(a + b, needle, i) == text::find_bytes(a, needle, i),
{
    text::lemma_find_bytes(a, needle, i);
    let at = text::find_bytes(a, needle, i)->0;
    assert forall|k: int| 0 <= k && k + needle.len() <= a.len() implies #[trigger] text::stands_at(
        a + b,
        needle,
        k,
    ) == text::stands_at(a, needle, k) by {
        assert((a + b).subrange(k, k + needle.len()) =~= a.subrange(k, k + needle.len()));
    }
    assert(text::stands_at(a + b, needle, at));
    assert forall|k: int| i <= k < at implies !#[trigger] text::stands_at(a + b, needle, k) by {
        assert(!text::stands_at(a, needle, k));
    }
    text::lemma_find_bytes_is(a + b, needle, i, at);
}

proof fn lemma_dashes_in_more(a: Seq<u8>, b: Seq<u8>, start: int, end: int)
    requires
        0 <= start <= end <= a.len(),
    ensures
        without_dashes(a + b, start, end) == without_dashes(a, start, end),
    decreases end - start,
{
    if end > start && a[end - 1] == 45 {
        lemma_dashes_in_more(a, b, start, end - 1);
    }
}

/// A complete frame stays what it is when more data comes.
proof fn lemma_frame_in_more(a: Seq<u8>, b: Seq<u8>, delimiter: Seq<u8>)
    requires
        frame_at(a, delimiter) is Some,
    ensures
        frame_at(a + b, delimiter) == frame_at(a, delimiter),
{
    let start = text::find_bytes(a, delimiter, 0)->0;
    text::lemma_find_bytes(a, delimiter, 0);
    lemma_find_in_more(a, b, delimiter, 0);
    let headers = start + delimiter.len();
    let headers_end = text::find_bytes(a, blank_line(), headers)->0;
    text::lemma_find_bytes(a, blank_line(), headers);
    lemma_find_in_more(a, b, blank_line(), headers);
    assert((a + b).subrange(headers, headers_end) =~= a.subrange(headers, headers_end));
    let body = headers_end + 4;
    if declared_length(a.subrange(headers, headers_end)) is None {
        let next = text::find_bytes(a, delimiter, body)->0;
        text::lemma_find_bytes(a, delimiter, body);
        lemma_find_in_more(a, b, delimiter, body);
        lemma_dashes_in_more(a, b, body, next);
        lemma_without_dashes(a, body, next);
    }
}

/// It does not matter how the stream is cut into chunks: what comes first gives its frames, and
/// what it leaves over goes on with what comes next.
pub proof fn chunks_do_not_matter(first: Seq<u8>, more: Seq<u8>, delimiter: Seq<u8>)
    ensures
        ({
            let (early, left) = frames_in(first, delimiter);
            let (late, rest) = frames_in(left + more, delimiter);
            frames_in(first + more, delimiter) == (early + late, rest)
        }),
    decreases first.len(),
{
    if let Some((start, end)) = frame_at(first, delimiter) {
        lemma_frame_at(first, delimiter);
        lemma_frame_in_more(first, more, delimiter);
        chunks_do_not_matter(first.skip(end), more, delimiter);
        assert((first + more).skip(end) =~= first.skip(end) + more);
        assert((first + more).subrange(start, end) =~= first.subrange(start, end));
        let (early, left) = frames_in(first.skip(end), delimiter);
        let (late, _) = frames_in(left + more, delimiter);
        if start < end {
            assert(seq![first.subrange(start, end)] + (early + late) =~= (seq![
                first.subrange(start, end),
            ] + early) + late);
        }
    } else {
        let (late, _) = frames_in(first + more, delimiter);
        assert(seq![] + late =~= late);
    }
}

/// Splits a `multipart/x-mixed-replace` body into frames, fed in arbitrary chunks.
#[derive(Debug, PartialEq, Eq)]
pub struct MjpegParser {
    delimiter: Vec<u8>,
    buf: Vec<u8>,
}

/// The frames as byte strings.
pub open spec fn frame_views(frames: Seq<Vec<u8>>) -> Seq<Seq<u8>> {
    frames.map_values(|frame: Vec<u8>| frame@)
}

impl MjpegParser {
    /// What stands before every frame.
    pub closed spec fn separator(self) -> Seq<u8> {
        self.delimiter@
    }

    /// The stream data that is not part of a complete frame yet.
    pub closed spec fn buffered(self) -> Seq<u8> {
        self.buf@
    }

    pub fn from_content_type(content_type: &str) -> (r: Option<MjpegParser>)
        ensures
            match r {
                Some(parser) => delimiter_in(content_type@) matches Some(delimiter)
                    && parser.separator() == vstd::utf8::encode_utf8(delimiter)
                    && parser.buffered().len() == 0,
                None => delimiter_in(content_type@) is None,
            },
    {
        let chars = text::chars(content_type);
        let boundary = match find_boundary(chars.as_slice()) {
            Some(boundary) => boundary,
            None => {
                return None;
            },
        };
        let name = text::without_leading(boundary, '-');
        if name.len() == 0 {
            return None;
        }
        let mut delimiter = String::new();
        delimiter.append("--");
        let name = text::string(name);
        delimiter.append(name.as_str());
        assert(delimiter@ =~= "--"@ + name@);
        let mut bytes: Vec<u8> = Vec::new();
        bytes.extend_from_slice(delimiter.as_str().as_bytes());
        assert(bytes@ =~= vstd::utf8::encode_utf8(delimiter@));
        Some(MjpegParser { delimiter: bytes, buf: Vec::new() })
    }

    pub fn delimiter(&self) -> (r: &[u8])
        ensures
            r@ == self.separator(),
    {
        self.delimiter.as_slice()
    }

    /// Takes a chunk and gives the frames that are complete with it.
    pub fn push(&mut self, chunk: &[u8]) -> (r: Vec<Vec<u8>>)
        ensures
            final(self).separator() == old(self).separator(),
            ({
                let (frames, rest) = frames_in(old(self).buffered() + chunk@, old(self).separator());
                &&& frame_views(r@) == frames
                &&& final(self).buffered() == if rest.len() > MAX_BUFFER {
                    seq![]
                } else {
                    rest
                }
            }),
    {
        let mut buf: Vec<u8> = Vec::new();
        buf.extend_from_slice(self.buf.as_slice());
        buf.extend_from_slice(chunk);
        assert(buf@ =~= self.buf@ + chunk@);
        let (frames, done) = split_frames(buf.as_slice(), self.delimiter.as_slice());
        let rest = vstd::slice::slice_subrange(buf.as_slice(), done, buf.len());
        let mut left: Vec<u8> = Vec::new();
        if rest.len() <= MAX_BUFFER {
            left.extend_from_slice(rest);
        }
        assert(rest@ =~= buf@.skip(done as int));
        self.buf = left;
        frames
    }
}

/// Whether the camera's answer is a stream to take frames from.
pub fn open_stream(status: u16, content_type: &str) -> (r: Result<MjpegParser, CameraError>)
    ensures
        if !(200 <= status < 300) {
            r == Err::<MjpegParser, CameraError>(CameraError::Status(status))
        } else {
            match delimiter_in(content_type@) {
                Some(delimiter) => r matches Ok(parser) && parser.separator()
                    == vstd::utf8::encode_utf8(delimiter) && parser.buffered().len() == 0,
                None => r matches Err(CameraError::NotMjpeg(named)) && named@ == content_type@,
            }
        },
{
    if status < 200 || status >= 300 {
        return Err(CameraError::Status(status));
    }
    match MjpegParser::from_content_type(content_type) {
        Some(parser) => Ok(parser),
        None => Err(CameraError::NotMjpeg(content_type.to_string())),
    }
}

/// The frames of a buffer, and where what is left of it starts.
fn split_frames(buf: &[u8], delimiter: &[u8]) -> (r: (Vec<Vec<u8>>, usize))
    ensures
        r.1 <= buf@.len(),
        frames_in(buf@, delimiter@) == (frame_views(r.0@), buf@.skip(r.1 as int)),
{
    let mut frames: Vec<Vec<u8>> = Vec::new();
    let mut done: usize = 0;
    assert(buf@.skip(0) =~= buf@);
    assert(frame_views(frames@) + frames_in(buf@, delimiter@).0 =~= frames_in(
        buf@,
        delimiter@,
    ).0);
    loop
        invariant
            done <= buf@.len(),
            frames_in(buf@, delimiter@) == (
                frame_views(frames@) + frames_in(buf@.skip(done as int), delimiter@).0,
                frames_in(buf@.skip(done as int), delimiter@).1,
            ),
        ensures
            done <= buf@.len(),
            frames_in(buf@, delimiter@) == (frame_views(frames@), buf@.skip(done as int)),
        decreases buf.len() - done,
    {
        let rest = vstd::slice::slice_subrange(buf, done, buf.len());
        assert(rest@ =~= buf@.skip(done as int));
        match next_frame(rest, delimiter) {
            Some((start, end)) => {
                proof {
                    lemma_frame_at(rest@, delimiter@);
                    assert(buf@.skip(done + end) =~= rest@.skip(end as int));
                }
                let ghost before = frames@;
                if start < end {
                    let mut frame: Vec<u8> = Vec::new();
                    frame.extend_from_slice(vstd::slice::slice_subrange(rest, start, end));
                    assert(frame@ =~= rest@.subrange(start as int, end as int));
                    frames.push(frame);
                    assert(frame_views(frames@) =~= frame_views(before).push(
                        rest@.subrange(start as int, end as int),
                    ));
                    assert(frame_views(before) + (seq![rest@.subrange(start as int, end as int)]
                        + frames_in(rest@.skip(end as int), delimiter@).0) =~= frame_views(frames@)
                        + frames_in(rest@.skip(end as int), delimiter@).0);
                }
                done += end;
            },
            None => {
                assert(frame_views(frames@) + frames_in(rest@, delimiter@).0 =~= frame_views(
                    frames@,
                ));
                break ;
            },
        }
    }
    (frames, done)
}

fn next_frame(buf: &[u8], delimiter: &[u8]) -> (r: Option<(usize, usize)>)
    ensures
        match r {
            Some((start, end)) => frame_at(buf@, delimiter@) == Some((start as int, end as int)),
            None => frame_at(buf@, delimiter@) is None,
        },
{
    let total: usize = buf.len();
    let start = match text::find_in_bytes(buf, delimiter, 0) {
        Some(start) => start,
        None => {
            return None;
        },
    };
    let headers: usize = start + delimiter.len();
    let mut blank: Vec<u8> = Vec::new();
    blank.push(13);
    blank.push(10);
    blank.push(13);
    blank.push(10);
    assert(blank@ =~= blank_line());
    let headers_end = match text::find_in_bytes(buf, blank.as_slice(), headers) {
        Some(headers_end) => headers_end,
        None => {
            return None;
        },
    };
    let body: usize = headers_end + 4;
    let lines = vstd::slice::slice_subrange(buf, headers, headers_end);
    match content_length(lines) {
        Some(length) => {
            if total - body < length {
                None
            } else {
                Some((body, body + length))
            }
        },
        None => {
            let next = match text::find_in_bytes(buf, delimiter, body) {
                Some(next) => next,
                None => {
                    return None;
                },
            };
            let mut end: usize = next;
            while end > body && buf[end - 1] == 45
                invariant
                    body <= end <= next <= buf@.len(),
                    without_dashes(buf@, body as int, next as int) == without_dashes(
                        buf@,
                        body as int,
                        end as int,
                    ),
                decreases end,
            {
                end -= 1;
            }
            if end - body >= 2 && buf[end - 2] == 13 && buf[end - 1] == 10 {
                end -= 2;
            }
            Some((body, end))
        },
    }
}

pub fn is_jpeg(frame: &[u8]) -> (r: bool)
    ensures
        r == (frame@.len() >= 2 && frame@[0] == 0xFF && frame@[1] == 0xD8),
{
    frame.len() >= 2 && frame[0] == 0xFF && frame[1] == 0xD8
}

/// A part that says how long it is gives just that many bytes, whatever they are: the delimiter
/// may stand among them.
pub proof fn a_part_is_as_long_as_it_says(
    delimiter: Seq<u8>,
    headers: Seq<u8>,
    blank: Seq<u8>,
    body: Seq<u8>,
    rest: Seq<u8>,
)
    requires
        delimiter.len() > 0,
        blank == seq![13u8, 10, 13, 10],
        declared_length(headers) == Some(body.len()),
        forall|k: int|
            0 <= k < headers.len() ==> !#[trigger] text::stands_at(headers + blank, blank, k),
    ensures
        ({
            let start = (delimiter.len() + headers.len() + 4) as int;
            frame_at(delimiter + headers + blank + body + rest, delimiter) == Some(
                (start, start + body.len()),
            )
        }),
{
    let buf = delimiter + headers + blank + body + rest;
    let d = delimiter.len() as int;
    let end = d + headers.len();
    assert(text::stands_at(buf, delimiter, 0)) by {
        assert(buf.subrange(0, d) =~= delimiter);
    }
    text::lemma_find_bytes_is(buf, delimiter, 0, 0);
    assert(text::stands_at(buf, blank, end)) by {
        assert(buf.subrange(end, end + 4) =~= blank);
    }
    assert forall|k: int| d <= k < end implies !#[trigger] text::stands_at(buf, blank, k) by {
        let j = k - d;
        if text::stands_at(buf, blank, k) {
            assert(text::stands_at(headers + blank, blank, j)) by {
                assert((headers + blank).subrange(j, j + 4) =~= buf.subrange(k, k + 4));
            }
        }
    }
    text::lemma_find_bytes_is(buf, blank, d, end);
    assert(buf.subrange(d, end) =~= headers);
}

/// A part that does not say how long it is ends before the next delimiter, without the dashes and
/// the line break that belong to it.
pub proof fn other_parts_end_before_the_next(buf: Seq<u8>, start: int, end: int)
    requires
        0 <= start <= end <= buf.len(),
    ensures
        ({
            let cut = without_dashes(buf, start, end);
            &&& start <= cut <= end
            &&& forall|k: int| cut <= k < end ==> #[trigger] buf[k] == 45
            &&& cut > start ==> buf[cut - 1] != 45
            &&& cut >= start + 2 && buf[cut - 2] == 13 && buf[cut - 1] == 10
                ==> without_line_break(buf, start, cut) == cut - 2
            &&& !(cut >= start + 2 && buf[cut - 2] == 13 && buf[cut - 1] == 10)
                ==> without_line_break(buf, start, cut) == cut
        }),
    decreases end - start,
{
    if end > start && buf[end - 1] == 45 {
        other_parts_end_before_the_next(buf, start, end - 1);
    }
}

/// The boundary of a stream is found among the parameters, whatever their order; the first that
/// gives one counts.
pub proof fn boundaries_are_found_among_parameters(
    param: Seq<char>,
    rest: Seq<char>,
    value: Seq<char>,
)
    requires
        !param.contains(';'),
    ensures
        boundary_param(param) is None ==> boundary_in(param + seq![';'] + rest) == boundary_in(
            rest,
        ),
        boundary_param(param) is Some ==> boundary_in(param + seq![';'] + rest) == boundary_param(
            param,
        ),
        boundary_in(param) == boundary_param(param),
        boundary_param("boundary="@ + value) == Some(
            text::drop_trailing(text::skip_leading(text::trim(value), '"'), '"'),
        ),
{
    reveal_with_fuel(boundary_in, 2);
    let all = param + seq![';'] + rest;
    assert forall|k: int| 0 <= k < param.len() implies #[trigger] param[k] != ';' by {
        assert(param.contains(param[k]));
    }
    assert forall|k: int| 0 <= k < param.len() implies #[trigger] all[k] != ';' by {
        assert(all[k] == param[k]);
    }
    text::lemma_find_is(all, ';', 0, param.len() as int);
    assert(all.take(param.len() as int) =~= param);
    assert(all.skip(param.len() as int + 1) =~= rest);
    text::lemma_find(param, ';', 0);
    reveal_strlit("boundary=");
    reveal_strlit("boundary");
    let given = "boundary="@ + value;
    text::lemma_find_is(given, '=', 0, 8);
    assert(given.take(8) =~= "boundary"@);
    assert(given.skip(9) =~= value);
    text::lemma_trim_is_identity("boundary"@);
}

} // verus!
