//! The server's answer to a download request: status, framing headers and
//! payload, for the whole archive or for the byte range that was asked for.

use vstd::prelude::*;
use vstd::slice::{slice_subrange, slice_to_vec};
use crate::archive::{
    all_named, build_archive, planned_entries, stream_written, Archive, ArchiveError, SourceFile,
    GZIP_LEVEL,
};
use crate::decimal::{decimal_text, push_decimal};
use crate::range::{judge, lemma_range_text_parses, range_text, resolve, resolve_range};
use crate::writer::archive_image;

verus! {

/// The whole resource follows.
pub const STATUS_OK: u16 = 200;

/// The requested range of the resource follows.
pub const STATUS_PARTIAL_CONTENT: u16 = 206;

/// The sources cannot be archived as they were named.
pub const STATUS_BAD_REQUEST: u16 = 400;

/// The requested range cannot be served.
pub const STATUS_RANGE_NOT_SATISFIABLE: u16 = 416;

/// The archive could not be written.
pub const STATUS_INTERNAL_SERVER_ERROR: u16 = 500;

/// What a response says of the position of its payload in the resource.
#[derive(Clone, Copy, Debug, PartialEq, Eq, Structural)]
pub enum ContentRange {
    /// The payload is bytes `start` through `end` of `total`.
    Satisfied { start: u64, end: u64, total: u64 },
    /// No range is served; the resource has `total` bytes.
    Unsatisfied { total: u64 },
}

/// A response to a download request.
#[derive(Debug)]
pub struct Response {
    pub status: u16,
    /// The number of bytes in `body`.
    pub content_length: u64,
    pub content_range: Option<ContentRange>,
    pub body: Vec<u8>,
}

impl Response {
    /// The declared length is the length of the payload, and a range that is
    /// reported as served lies inside its total and has one position for
    /// each byte of the payload.
    pub open spec fn wf(self) -> bool {
        &&& self.content_length == self.body@.len()
        &&& self.content_range matches Some(ContentRange::Satisfied { start, end, total })
            ==> start <= end < total && end - start + 1 == self.body@.len()
    }
}

/// The text of a range specifier, if one was sent.
pub open spec fn sent(range: Option<&str>) -> Option<Seq<char>> {
    match range {
        Some(s) => Some(s@),
        None => None,
    }
}

/// `resp` is the answer to a request for `blob` with the range specifier
/// `range`: all of it where no range was sent, the bytes of the range where
/// the range resolves, and a refusal that names the length where it does not.
pub open spec fn answers(blob: Seq<u8>, range: Option<Seq<char>>, resp: Response) -> bool {
    match range {
        None => {
            &&& resp.status == STATUS_OK
            &&& resp.content_length == blob.len()
            &&& resp.content_range is None
            &&& resp.body@ == blob
        },
        Some(s) => match resolve(s, blob.len()) {
            Ok((start, end)) => {
                &&& resp.status == STATUS_PARTIAL_CONTENT
                &&& resp.content_length == end - start + 1
                &&& resp.content_range == Some(
                    ContentRange::Satisfied {
                        start: start as u64,
                        end: end as u64,
                        total: blob.len() as u64,
                    },
                )
                &&& resp.body@ == blob.subrange(start as int, end as int + 1)
            },
            Err(_) => {
                &&& resp.status == STATUS_RANGE_NOT_SATISFIABLE
                &&& resp.content_length == 0
                &&& resp.content_range == Some(
                    ContentRange::Unsatisfied { total: blob.len() as u64 },
                )
                &&& resp.body@ == Seq::<u8>::empty()
            },
        },
    }
}

/// `resp` reports a failure with `status` and carries nothing else.
pub open spec fn is_failure(resp: Response, status: u16) -> bool {
    &&& resp.status == status
    &&& resp.content_length == 0
    &&& resp.content_range is None
    &&& resp.body@ == Seq::<u8>::empty()
}

/// `resp` is the response to a request for the archive of `sources` with the
/// range specifier `range`: a bad request where a regular file cannot be
/// given a name, the answer from the archive where its stream gets written,
/// and a server error where it does not.
pub open spec fn serves(sources: Seq<SourceFile>, range: Option<Seq<char>>, resp: Response) -> bool {
    let entries = planned_entries(sources);
    if !all_named(sources) {
        is_failure(resp, STATUS_BAD_REQUEST)
    } else if stream_written(GZIP_LEVEL, entries) {
        answers(archive_image(GZIP_LEVEL, entries), range, resp)
    } else {
        is_failure(resp, STATUS_INTERNAL_SERVER_ERROR)
    }
}

/// The value of the `Content-Range` header for `range`.
pub open spec fn content_range_text(range: ContentRange) -> Seq<char> {
    match range {
        ContentRange::Satisfied { start, end, total } => "bytes "@ + decimal_text(start as nat)
            + "-"@ + decimal_text(end as nat) + "/"@ + decimal_text(total as nat),
        ContentRange::Unsatisfied { total } => "bytes */"@ + decimal_text(total as nat),
    }
}

/// The headers of `resp`, in the order in which they are sent. Type, range
/// support and disposition are the same on every response.
pub open spec fn header_lines(resp: Response) -> Seq<(Seq<char>, Seq<char>)> {
    let fixed = seq![
        ("Content-Type"@, "application/x-tar"@),
        ("Accept-Ranges"@, "bytes"@),
        ("Content-Disposition"@, "attachment; filename=\"archive.tar.gz\""@),
        ("Content-Length"@, decimal_text(resp.content_length as nat)),
    ];
    match resp.content_range {
        Some(range) => fixed.push(("Content-Range"@, content_range_text(range))),
        None => fixed,
    }
}

/// A request for a range inside the resource is answered with exactly the
/// bytes of that range: as many as the range has positions.
pub proof fn lemma_valid_range_served(blob: Seq<u8>, start: nat, end: nat, resp: Response)
    requires
        start <= end < blob.len(),
        answers(blob, Some(range_text(start, Some(end))), resp),
    ensures
        resp.status == STATUS_PARTIAL_CONTENT,
        resp.body@ == blob.subrange(start as int, end as int + 1),
        resp.body@.len() == end - start + 1,
        resp.content_length == end - start + 1,
{
    lemma_range_text_parses(start, Some(end));
}

/// A request for a range that starts or ends outside the resource, or that
/// ends before it starts, is refused with the length of the resource. It
/// makes no difference whether the end was written or left open.
pub proof fn lemma_invalid_range_refused(
    blob: Seq<u8>,
    start: nat,
    end: Option<nat>,
    resp: Response,
)
    requires
        ({
            let last: int = match end {
                Some(e) => e as int,
                None => blob.len() - 1,
            };
            start >= blob.len() || last >= blob.len() || start > last
        }),
        answers(blob, Some(range_text(start, end)), resp),
    ensures
        judge(start, end, blob.len()) is Err,
        resp.status == STATUS_RANGE_NOT_SATISFIABLE,
        resp.content_range == Some(ContentRange::Unsatisfied { total: blob.len() as u64 }),
        resp.body@.len() == 0,
{
    lemma_range_text_parses(start, end);
}

/// Two answers to the same request for the same resource are the same.
pub proof fn lemma_same_request_same_answer(
    blob: Seq<u8>,
    range: Option<Seq<char>>,
    first: Response,
    second: Response,
)
    requires
        answers(blob, range, first),
        answers(blob, range, second),
    ensures
        first.status == second.status,
        first.content_length == second.content_length,
        first.content_range == second.content_range,
        first.body@ == second.body@,
{
}

/// Two responses to the same request for the archive of the same sources
/// are the same: status, declared length, range and payload.
pub proof fn lemma_same_sources_same_response(
    sources: Seq<SourceFile>,
    range: Option<Seq<char>>,
    first: Response,
    second: Response,
)
    requires
        serves(sources, range, first),
        serves(sources, range, second),
    ensures
        first.status == second.status,
        first.content_length == second.content_length,
        first.content_range == second.content_range,
        first.body@ == second.body@,
{
}

/// Where the sources can all be named and their stream gets written, a
/// request without a range is answered with the whole archive.
pub proof fn lemma_whole_archive_served(sources: Seq<SourceFile>, resp: Response)
    requires
        all_named(sources),
        stream_written(GZIP_LEVEL, planned_entries(sources)),
        serves(sources, None, resp),
    ensures
        resp.status == STATUS_OK,
        resp.body@ == archive_image(GZIP_LEVEL, planned_entries(sources)),
        resp.content_length == resp.body@.len(),
{
}

/// What an answer declares is what it carries: the declared length is the
/// length of the payload, and a range reported as served lies inside the
/// resource and has one position for each byte of the payload.
pub proof fn lemma_answer_well_formed(blob: Seq<u8>, range: Option<Seq<char>>, resp: Response)
    requires
        blob.len() <= u64::MAX,
        answers(blob, range, resp),
    ensures
        resp.wf(),
        resp.content_range matches Some(ContentRange::Satisfied { total, .. }) ==> total
            == blob.len(),
        resp.content_range matches Some(ContentRange::Unsatisfied { total }) ==> total
            == blob.len(),
{
}

/// Answers a request for `blob`, with the range specifier `range` if one was
/// sent.
pub fn respond(blob: Vec<u8>, range: Option<&str>) -> (resp: Response)
    ensures
        answers(blob@, sent(range), resp),
        resp.wf(),
{
    let total: u64 = blob.len() as u64;
    match range {
        None => Response { status: STATUS_OK, content_length: total, content_range: None, body: blob },
        Some(spec) => match resolve_range(spec, total) {
            Ok(range) => {
                let from: usize = range.start as usize;
                let to: usize = range.end as usize + 1;
                let body = slice_to_vec(slice_subrange(blob.as_slice(), from, to));
                Response {
                    status: STATUS_PARTIAL_CONTENT,
                    content_length: range.len(),
                    content_range: Some(
                        ContentRange::Satisfied { start: range.start, end: range.end, total },
                    ),
                    body,
                }
            },
            Err(refusal) => Response {
                status: STATUS_RANGE_NOT_SATISFIABLE,
                content_length: 0,
                content_range: Some(ContentRange::Unsatisfied { total: refusal.total }),
                body: Vec::new(),
            },
        },
    }
}

/// A response that reports a failure and carries no payload.
pub fn failure(status: u16) -> (resp: Response)
    ensures
        is_failure(resp, status),
        resp.wf(),
{
    Response { status, content_length: 0, content_range: None, body: Vec::new() }
}

/// The response for a request whose archive build ended in `build`: the
/// answer from the archive where it was built, a bad request where a source
/// cannot be archived, and a server error where the writer failed.
pub fn respond_to_build(
    build: Result<Archive, ArchiveError>,
    range: Option<&str>,
) -> (resp: Response)
    ensures
        match build {
            Ok(archive) => answers(archive.bytes@, sent(range), resp),
            Err(ArchiveError::InvalidSource { .. }) => is_failure(resp, STATUS_BAD_REQUEST),
            Err(ArchiveError::Writer(_)) => is_failure(resp, STATUS_INTERNAL_SERVER_ERROR),
        },
        resp.wf(),
{
    match build {
        Ok(archive) => respond(archive.bytes, range),
        Err(ArchiveError::InvalidSource { .. }) => failure(STATUS_BAD_REQUEST),
        Err(ArchiveError::Writer(_)) => failure(STATUS_INTERNAL_SERVER_ERROR),
    }
}

/// Serves a download request: builds the archive of `sources` and answers
/// from it. Length, range and payload of the answer all come from the one
/// archive built here.
pub fn serve(sources: &Vec<SourceFile>, range: Option<&str>) -> (resp: Response)
    ensures
        serves(sources@, sent(range), resp),
        !all_named(sources@) ==> is_failure(resp, STATUS_BAD_REQUEST),
        all_named(sources@) && stream_written(GZIP_LEVEL, planned_entries(sources@)) ==> answers(
            archive_image(GZIP_LEVEL, planned_entries(sources@)),
            sent(range),
            resp,
        ),
        all_named(sources@) && !stream_written(GZIP_LEVEL, planned_entries(sources@))
            ==> is_failure(resp, STATUS_INTERNAL_SERVER_ERROR),
        resp.wf(),
{
    respond_to_build(build_archive(sources), range)
}

/// Appends the `Content-Range` value for `range` to `out`.
fn push_content_range(out: &mut String, range: ContentRange)
    ensures
        final(out)@ == old(out)@ + content_range_text(range),
{
    match range {
        ContentRange::Satisfied { start, end, total } => {
            out.append("bytes ");
            push_decimal(out, start);
            out.append("-");
            push_decimal(out, end);
            out.append("/");
            push_decimal(out, total);
            assert(final(out)@ =~= old(out)@ + content_range_text(range));
        },
        ContentRange::Unsatisfied { total } => {
            out.append("bytes */");
            push_decimal(out, total);
            assert(final(out)@ =~= old(out)@ + content_range_text(range));
        },
    }
}

/// One header.
fn header(name: &str, value: String) -> (line: (String, String))
    ensures
        line.0@ == name@,
        line.1@ == value@,
{
    (name.to_owned(), value)
}

impl Response {
    /// The value of the `Content-Range` header, where the response has one.
    pub fn content_range_value(&self) -> (value: Option<String>)
        ensures
            match value {
                Some(text) => self.content_range matches Some(range) && text@
                    == content_range_text(range),
                None => self.content_range is None,
            },
    {
        match self.content_range {
            Some(range) => {
                let mut text = String::new();
                push_content_range(&mut text, range);
                assert(text@ =~= content_range_text(range));
                Some(text)
            },
            None => None,
        }
    }

    /// The headers of the response, in the order in which they are sent.
    pub fn headers(&self) -> (lines: Vec<(String, String)>)
        ensures
            lines@.len() == header_lines(*self).len(),
            forall|i: int|
                0 <= i < lines@.len() ==> (#[trigger] lines@[i]).0@ == header_lines(*self)[i].0
                    && lines@[i].1@ == header_lines(*self)[i].1,
    {
        let mut length = String::new();
        push_decimal(&mut length, self.content_length);
        assert(length@ =~= decimal_text(self.content_length as nat));
        let mut lines: Vec<(String, String)> = Vec::new();
        lines.push(header("Content-Type", "application/x-tar".to_owned()));
        lines.push(header("Accept-Ranges", "bytes".to_owned()));
        lines.push(
            header("Content-Disposition", "attachment; filename=\"archive.tar.gz\"".to_owned()),
        );
        lines.push(header("Content-Length", length));
        match self.content_range_value() {
            Some(value) => {
                lines.push(header("Content-Range", value));
            },
            None => {},
        }
        lines
    }
}

} // verus!
