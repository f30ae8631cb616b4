//! G-code upload over the stock firmware's `PUT /upload`, chunked and authenticated the way
//! Elegoo's `elegoo-link` SDK does it (`elegoo_fdm_cc2_http_transfer.cpp`).

use vstd::prelude::*;

use crate::text;

verus! {

/// The SDK's limit: "strictly follow Elegoo API requirements, max 1MB per chunk".
pub const CHUNK_SIZE: usize = 1_048_576;

/// Why an upload failed. `Http` holds the words of the HTTP client.
#[derive(Debug, PartialEq, Eq)]
pub enum UploadError {
    Empty,
    Http(String),
    AccessDenied,
    Busy,
    Status(u16),
    Printer { offset: usize, code: i64 },
    NoErrorCode { offset: usize },
}

impl UploadError {
    pub open spec fn text(self) -> Seq<char> {
        match self {
            UploadError::Empty => "refusing to upload an empty file"@,
            UploadError::Http(reason) => "upload request failed: "@ + reason@,
            UploadError::AccessDenied => "printer rejected the access code"@,
            UploadError::Busy => "printer is busy"@,
            UploadError::Status(status) => "printer answered HTTP "@ + status_said(status),
            UploadError::Printer { offset, code } => "printer rejected the chunk at byte "@
                + text::decimal(offset as nat) + " with error code "@ + text::decimal_int(
                code as int,
            ),
            UploadError::NoErrorCode { offset } => "printer reply to the chunk at byte "@
                + text::decimal(offset as nat) + " had no error_code"@,
        }
    }

    pub fn message(&self) -> (r: String)
        ensures
            r@ == self.text(),
    {
        let mut out = String::new();
        match self {
            UploadError::Empty => {
                out.append("refusing to upload an empty file");
            },
            UploadError::Http(reason) => {
                out.append("upload request failed: ");
                out.append(reason.as_str());
            },
            UploadError::AccessDenied => {
                out.append("printer rejected the access code");
            },
            UploadError::Busy => {
                out.append("printer is busy");
            },
            UploadError::Status(status) => {
                out.append("printer answered HTTP ");
                let said = say_status(*status);
                out.append(said.as_str());
            },
            UploadError::Printer { offset, code } => {
                out.append("printer rejected the chunk at byte ");
                text::push_decimal(&mut out, *offset as u64);
                out.append(" with error code ");
                text::push_decimal_int(&mut out, *code);
            },
            UploadError::NoErrorCode { offset } => {
                out.append("printer reply to the chunk at byte ");
                text::push_decimal(&mut out, *offset as u64);
                out.append(" had no error_code");
            },
        }
        assert(out@ =~= self.text());
        out
    }
}

/// The number of an HTTP status with its reason phrase.
pub uninterp spec fn status_words(status: u16) -> Seq<char>;

/// `reqwest::StatusCode` as text: the number and the reason phrase that belongs to it. Numbers
/// below 100 and above 999 are no status codes.
#[verifier::external_body]
fn status_text(status: u16) -> (r: String)
    requires
        100 <= status <= 999,
    ensures
        r@ == status_words(status),
{
    format!("{}", reqwest::StatusCode::from_u16(status).unwrap())
}

pub open spec fn status_said(status: u16) -> Seq<char> {
    if 100 <= status <= 999 {
        status_words(status)
    } else {
        text::decimal(status as nat)
    }
}

pub fn say_status(status: u16) -> (r: String)
    ensures
        r@ == status_said(status),
{
    if 100 <= status && status <= 999 {
        status_text(status)
    } else {
        text::decimal_string(status as u64)
    }
}

/// A part of the file, from its first to its last byte.
#[derive(Debug, Clone, Copy, PartialEq, Eq, Structural)]
pub struct Chunk {
    pub offset: usize,
    pub end: usize,
}

/// The chunk that starts at `offset`.
pub open spec fn chunk_at(total: int, offset: int) -> Chunk {
    Chunk {
        offset: offset as usize,
        end: if total - offset > CHUNK_SIZE {
            (offset + CHUNK_SIZE - 1) as usize
        } else {
            (total - 1) as usize
        },
    }
}

/// What the printer says to a chunk.
pub open spec fn verdict(offset: usize, status: u16, error_code: Option<i64>) -> Result<
    (),
    UploadError,
> {
    if status == 401 || status == 403 {
        Err(UploadError::AccessDenied)
    } else if status == 429 {
        Err(UploadError::Busy)
    } else if !(200 <= status < 300) {
        Err(UploadError::Status(status))
    } else {
        match error_code {
            Some(code) => if code == 0 {
                Ok(())
            } else {
                Err(UploadError::Printer { offset, code })
            },
            None => Err(UploadError::NoErrorCode { offset }),
        }
    }
}

/// Where the first chunk of a file lies.
pub fn first_chunk(total: usize) -> (r: Result<Chunk, UploadError>)
    ensures
        r == if total == 0 {
            Err::<Chunk, UploadError>(UploadError::Empty)
        } else {
            Ok::<Chunk, UploadError>(chunk_at(total as int, 0))
        },
{
    if total == 0 {
        return Err(UploadError::Empty);
    }
    let end: usize = if total > CHUNK_SIZE {
        CHUNK_SIZE - 1
    } else {
        total - 1
    };
    Ok(Chunk { offset: 0, end })
}

/// Whether the HTTP status lets the reply be read.
pub fn check_status(status: u16) -> (r: Result<(), UploadError>)
    ensures
        r is Ok <==> 200 <= status < 300,
        r is Err ==> forall|offset: usize, code: Option<i64>|
            #[trigger] verdict(offset, status, code) == r,
{
    if status == 401 || status == 403 {
        Err(UploadError::AccessDenied)
    } else if status == 429 {
        Err(UploadError::Busy)
    } else if status < 200 || status >= 300 {
        Err(UploadError::Status(status))
    } else {
        Ok(())
    }
}

/// The chunk after `chunk`, once the printer has answered it; `None` after the last.
pub fn next_chunk(total: usize, chunk: Chunk, status: u16, error_code: Option<i64>) -> (r: Result<
    Option<Chunk>,
    UploadError,
>)
    requires
        chunk.end < total,
    ensures
        match verdict(chunk.offset, status, error_code) {
            Err(err) => r == Err::<Option<Chunk>, UploadError>(err),
            Ok(_) => r == Ok::<Option<Chunk>, UploadError>(
                if chunk.end + 1 < total {
                    Some(chunk_at(total as int, chunk.end + 1))
                } else {
                    None
                },
            ),
        },
{
    match check_status(status) {
        Ok(_) => {},
        Err(err) => {
            proof {
                assert(verdict(chunk.offset, status, error_code) == Err::<(), UploadError>(err));
            }
            return Err(err);
        },
    }
    match error_code {
        Some(code) => {
            if code != 0 {
                return Err(UploadError::Printer { offset: chunk.offset, code });
            }
        },
        None => {
            return Err(UploadError::NoErrorCode { offset: chunk.offset });
        },
    }
    let offset: usize = chunk.end + 1;
    if offset >= total {
        return Ok(None);
    }
    let end: usize = if total - offset > CHUNK_SIZE {
        offset + (CHUNK_SIZE - 1)
    } else {
        total - 1
    };
    Ok(Some(Chunk { offset, end }))
}

/// The chunks of a file from `offset` on.
pub open spec fn chunks_from(total: int, offset: int) -> Seq<Chunk>
    decreases total - offset,
{
    if offset >= total {
        seq![]
    } else {
        seq![chunk_at(total, offset)] + chunks_from(
            total,
            if total - offset > CHUNK_SIZE {
                offset + CHUNK_SIZE
            } else {
                total
            },
        )
    }
}

/// The chunks cover the file from its first byte to its last, one after another, and none is
/// longer than the printer takes.
pub proof fn chunks_cover_the_file(total: int, offset: int, i: int)
    requires
        0 <= offset < total <= usize::MAX,
        0 <= i < chunks_from(total, offset).len(),
    ensures
        chunks_from(total, offset)[0].offset == offset,
        chunks_from(total, offset).last().end == total - 1,
        chunks_from(total, offset)[i].offset <= chunks_from(total, offset)[i].end < total,
        chunks_from(total, offset)[i].end - chunks_from(total, offset)[i].offset < CHUNK_SIZE,
        i + 1 < chunks_from(total, offset).len() ==> chunks_from(total, offset)[i + 1].offset
            == chunks_from(total, offset)[i].end + 1,
    decreases total - offset,
{
    let all = chunks_from(total, offset);
    let next = if total - offset > CHUNK_SIZE {
        offset + CHUNK_SIZE
    } else {
        total
    };
    let rest = chunks_from(total, next);
    if next < total {
        assert(rest.len() > 0);
        assert(all.last() == rest.last());
        if i > 0 {
            chunks_cover_the_file(total, next, i - 1);
            assert(all[i] == rest[i - 1]);
        } else {
            chunks_cover_the_file(total, next, 0);
        }
        if i + 1 < all.len() {
            assert(all[i + 1] == rest[i]);
        }
    } else {
        assert(rest.len() == 0);
    }
}

/// The `Content-Range` header of a chunk.
pub open spec fn range_text(chunk: Chunk, total: nat) -> Seq<char> {
    "bytes "@ + text::decimal(chunk.offset as nat) + "-"@ + text::decimal(chunk.end as nat) + "/"@
        + text::decimal(total)
}

pub fn content_range(chunk: Chunk, total: usize) -> (r: String)
    ensures
        r@ == range_text(chunk, total as nat),
{
    let mut out = String::new();
    out.append("bytes ");
    text::push_decimal(&mut out, chunk.offset as u64);
    out.append("-");
    text::push_decimal(&mut out, chunk.end as u64);
    out.append("/");
    text::push_decimal(&mut out, total as u64);
    assert(out@ =~= range_text(chunk, total as nat));
    out
}

/// The MD5 digest of some bytes.
pub uninterp spec fn md5_of(data: Seq<u8>) -> Seq<u8>;

/// `md5::Md5::digest`: the digest of `data`, which has sixteen bytes.
#[verifier::external_body]
fn md5_digest(data: &[u8]) -> (r: Vec<u8>)
    ensures
        r@ == md5_of(data@),
        r@.len() == 16,
{
    <md5::Md5 as md5::Digest>::digest(data).to_vec()
}

/// Lowercase hex, as the SDK sends it.
pub fn md5_hex(data: &[u8]) -> (r: String)
    ensures
        r@ == text::hex(md5_of(data@)),
        r@.len() == 32,
{
    let digest = md5_digest(data);
    text::hex_string(digest.as_slice())
}

/// The address uploads go to. `base_url` is scheme, host and port, e.g.
/// `http://192.168.33.40:80`.
pub fn upload_url(base_url: &str) -> (r: String)
    ensures
        r@ == text::drop_trailing(base_url@, '/') + "/upload"@,
{
    let chars = text::chars(base_url);
    let mut out = text::string(text::without_trailing(chars.as_slice(), '/'));
    out.append("/upload");
    out
}

/// A chunk has arrived only where the printer answers that all is well and gives the error code 0.
/// A refused access code and a busy printer are told apart from every other answer.
pub proof fn a_chunk_arrives_where_the_printer_says_so(
    offset: usize,
    status: u16,
    error_code: Option<i64>,
)
    ensures
        verdict(offset, status, error_code) is Ok <==> 200 <= status <= 299 && error_code == Some(
            0i64,
        ),
        verdict(offset, status, error_code) == Err::<(), UploadError>(UploadError::AccessDenied)
            <==> status == 401 || status == 403,
        verdict(offset, status, error_code) == Err::<(), UploadError>(UploadError::Busy) <==> status
            == 429,
        200 <= status <= 299 && error_code is None ==> verdict(offset, status, error_code) == Err::<
            (),
            UploadError,
        >(UploadError::NoErrorCode { offset }),
        200 <= status <= 299 && error_code is Some && error_code->0 != 0 ==> verdict(
            offset,
            status,
            error_code,
        ) == Err::<(), UploadError>(UploadError::Printer { offset, code: error_code->0 }),
        !(200 <= status <= 299) && status != 401 && status != 403 && status != 429 ==> verdict(
            offset,
            status,
            error_code,
        ) == Err::<(), UploadError>(UploadError::Status(status)),
{
}

/// Every chunk but the last has a mebibyte.
pub proof fn all_chunks_but_the_last_are_full(total: int, offset: int)
    requires
        0 <= offset < total <= usize::MAX,
    ensures
        chunk_at(total, offset).offset == offset,
        total - offset > 1_048_576 ==> chunk_at(total, offset).end == offset + 1_048_575,
        total - offset <= 1_048_576 ==> chunk_at(total, offset).end == total - 1,
{
}

} // verus!
