use vstd::prelude::*;
use crate::MAX_CACHE_FILE_SIZE;
use crate::cache::SmallFileCache;
use crate::content::{content_type_of, determine_content_type};
use crate::error::{ServeError, serve_error_of_range};
use crate::range::{ByteRange, parse_range, range_outcome};
use crate::text::{decimal, push_decimal};

verus! {

/// Size of the chunks in which large files and ranges are streamed.
pub const STREAM_CHUNK_SIZE: usize = 8192;

/// Status and headers of a file response. `Accept-Ranges: bytes` is sent
/// whenever `accept_ranges` holds; `Content-Range` only on partial content.
pub struct ResponseHead {
    pub status: u16,
    pub content_type: &'static str,
    pub content_length: u64,
    pub content_range: Option<String>,
    pub accept_ranges: bool,
}

/// How a whole file without a cached copy is sent.
#[derive(Clone, Copy, Debug, PartialEq, Eq, Structural)]
pub enum WholeFile {
    /// Read it into memory, keep it in the cache, send the buffer.
    Buffer,
    /// Stream it from disk in chunks.
    Stream,
}

/// The value of a `Content-Range` header: `bytes {start}-{end}/{size}`.
pub open spec fn content_range_text(start: nat, end: nat, size: nat) -> Seq<char> {
    seq!['b', 'y', 't', 'e', 's', ' '] + decimal(start) + seq!['-'] + decimal(end) + seq!['/']
        + decimal(size)
}

/// `h` is a 200 response of `len` bytes for the file named `name`.
pub open spec fn is_full_head(h: ResponseHead, len: nat, name: Seq<char>) -> bool {
    &&& h.status == 200
    &&& h.content_type@ == content_type_of(name)
    &&& h.content_length == len
    &&& h.content_range is None
    &&& h.accept_ranges
}

/// `h` is a 206 response with the bytes `br` of a file of `size` bytes named `name`.
pub open spec fn is_partial_head(h: ResponseHead, br: ByteRange, size: nat, name: Seq<char>) -> bool {
    &&& h.status == 206
    &&& h.content_type@ == content_type_of(name)
    &&& h.content_length == br.spec_len()
    &&& h.content_range matches Some(cr) && cr@ == content_range_text(
        br.start as nat,
        br.end as nat,
        size,
    )
    &&& h.accept_ranges
}

/// The `Content-Range` value for `br` of a file of `size` bytes.
pub fn content_range_value(br: ByteRange, size: u64) -> (r: String)
    ensures
        r@ == content_range_text(br.start as nat, br.end as nat, size as nat),
{
    let mut s = String::new();
    s.append("bytes ");
    push_decimal(&mut s, br.start as u128);
    s.append("-");
    push_decimal(&mut s, br.end as u128);
    s.append("/");
    push_decimal(&mut s, size as u128);
    proof {
        reveal_strlit("bytes ");
        reveal_strlit("-");
        reveal_strlit("/");
    }
    assert(s@ =~= content_range_text(br.start as nat, br.end as nat, size as nat));
    s
}

/// The head of a 200 response of `len` bytes for the file named `name`.
pub fn full_response_head(len: u64, name: &str) -> (r: ResponseHead)
    ensures
        is_full_head(r, len as nat, name@),
{
    ResponseHead {
        status: 200,
        content_type: determine_content_type(name),
        content_length: len,
        content_range: None,
        accept_ranges: true,
    }
}

/// Answers a `Range` header against a file of `file_size` bytes named `name`:
/// the head of the 206 response and the bytes to send, or the error that
/// rejects the header.
pub fn partial_response(range_header: &str, file_size: u64, name: &str) -> (r: Result<
    (ResponseHead, ByteRange),
    ServeError,
>)
    ensures
        match range_outcome(range_header@, file_size as nat) {
            Ok(br) => r matches Ok(ok) && ok.1 == br && is_partial_head(
                ok.0,
                br,
                file_size as nat,
                name@,
            ),
            Err(e) => r == Err::<(ResponseHead, ByteRange), ServeError>(serve_error_of_range(e)),
        },
{
    match parse_range(range_header, file_size) {
        Ok(br) => {
            let head = ResponseHead {
                status: 206,
                content_type: determine_content_type(name),
                content_length: br.len(),
                content_range: Some(content_range_value(br, file_size)),
                accept_ranges: true,
            };
            Ok((head, br))
        },
        Err(e) => Err(ServeError::from_range_error(e)),
    }
}

/// How a whole file of `file_size` bytes that is not cached is sent: small
/// files are buffered and cached, the others streamed.
pub fn whole_file_strategy(file_size: u64) -> (r: WholeFile)
    ensures
        r == (if file_size <= MAX_CACHE_FILE_SIZE {
            WholeFile::Buffer
        } else {
            WholeFile::Stream
        }),
{
    if file_size <= MAX_CACHE_FILE_SIZE {
        WholeFile::Buffer
    } else {
        WholeFile::Stream
    }
}

/// The response for a cache lookup's result: the cached bytes as a 200
/// response when there are some, nothing otherwise.
pub fn cached_response(cached: Option<Vec<u8>>, name: &str) -> (r: Option<(ResponseHead, Vec<u8>)>)
    ensures
        r is Some <==> cached is Some,
        r matches Some(resp) ==> resp.1@ == cached->0@ && is_full_head(
            resp.0,
            resp.1@.len(),
            name@,
        ),
{
    match cached {
        Some(body) => {
            let head = full_response_head(body.len() as u64, name);
            Some((head, body))
        },
        None => None,
    }
}

/// Serves a file from the cache, without touching the disk, when the cache
/// holds it under the request path `key`.
pub fn serve_from_cache(cache: &SmallFileCache, key: &str, name: &str) -> (r: Option<
    (ResponseHead, Vec<u8>),
>)
    ensures
        r matches Some(resp) ==> is_full_head(resp.0, resp.1@.len(), name@),
{
    let cached = cache.get(key);
    cached_response(cached, name)
}

/// Keeps the whole content of a small file in the cache under the request
/// path `key`, and returns the 200 response that sends it.
pub fn remember_small_file(cache: &SmallFileCache, key: &str, content: Vec<u8>, name: &str) -> (r: (
    ResponseHead,
    Vec<u8>,
))
    ensures
        r.1@ == content@,
        is_full_head(r.0, content@.len(), name@),
{
    let copy = content.clone();
    assert(copy@ =~= content@);
    cache.put(key, copy);
    let head = full_response_head(content.len() as u64, name);
    (head, content)
}

/// What to do for a file request before anything is read from disk.
pub enum FileStep {
    /// Send this response; the file itself is not touched.
    Respond(ResponseHead, Vec<u8>),
    /// Read the file's size and go on with `plan_sized`.
    NeedSize,
}

/// What to do for a file request once its size is known.
pub enum SizedPlan {
    /// Send the bytes `.1` of the file with the head `.0`.
    Partial(ResponseHead, ByteRange),
    /// Read the whole file, then answer with `remember_small_file`.
    Buffer,
    /// Stream the whole file in chunks with this head.
    Stream(ResponseHead),
    /// Answer with the error's status.
    Reject(ServeError),
}

/// First step for the file at request path `key`, named `name`: a request
/// with a `Range` header needs the size and leaves the cache alone; any other
/// is answered from the cache when it holds the file.
pub fn begin_file_request(cache: &SmallFileCache, key: &str, name: &str, has_range: bool) -> (r:
    FileStep)
    ensures
        has_range ==> r is NeedSize,
        r matches FileStep::Respond(head, body) ==> is_full_head(head, body@.len(), name@),
{
    if has_range {
        return FileStep::NeedSize;
    }
    match serve_from_cache(cache, key, name) {
        Some((head, body)) => FileStep::Respond(head, body),
        None => FileStep::NeedSize,
    }
}

/// Second step, for a file of `file_size` bytes named `name`: a ranged
/// request is answered with its bytes or rejected; a whole small file is
/// buffered, a large one streamed.
pub fn plan_sized(range_header: Option<&str>, file_size: u64, name: &str) -> (r: SizedPlan)
    ensures
        match range_header {
            Some(h) => match range_outcome(h@, file_size as nat) {
                Ok(br) => r matches SizedPlan::Partial(head, b) && b == br && is_partial_head(
                    head,
                    br,
                    file_size as nat,
                    name@,
                ),
                Err(e) => r matches SizedPlan::Reject(err) && err == serve_error_of_range(e),
            },
            None => if file_size <= MAX_CACHE_FILE_SIZE {
                r is Buffer
            } else {
                r matches SizedPlan::Stream(head) && is_full_head(head, file_size as nat, name@)
            },
        },
{
    match range_header {
        Some(h) => match partial_response(h, file_size, name) {
            Ok((head, br)) => SizedPlan::Partial(head, br),
            Err(e) => SizedPlan::Reject(e),
        },
        None => match whole_file_strategy(file_size) {
            WholeFile::Buffer => SizedPlan::Buffer,
            WholeFile::Stream => SizedPlan::Stream(full_response_head(file_size, name)),
        },
    }
}

} // verus!
