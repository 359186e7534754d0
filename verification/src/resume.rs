//! The client's side of a resumable download: where to resume, what to ask
//! for, what a response status means for the local file, and how many bytes
//! are present once the payload has been written.
//!
//! The local output file is the only state kept between attempts: its length
//! is the position from which the next attempt resumes.

use vstd::prelude::*;
use crate::range::{lemma_range_text_parses, range_text, write_range};
use crate::respond::{
    answers, Response, STATUS_OK, STATUS_PARTIAL_CONTENT, STATUS_RANGE_NOT_SATISFIABLE,
};

verus! {

/// After how many received bytes progress is reported.
pub const PROGRESS_STEP: u64 = 51200;

/// How the local file is opened for the payload.
#[derive(Clone, Copy, Debug, PartialEq, Eq, Structural)]
pub enum Disposition {
    /// What the file holds is dropped; the payload is written from the start.
    Truncate,
    /// The payload is written behind what the file holds.
    Append,
}

/// What a response status means for a download that asked to resume at
/// `offset`.
#[derive(Clone, Copy, Debug, PartialEq, Eq, Structural)]
pub enum Outcome {
    /// The payload is the whole resource, whatever was asked for.
    Full,
    /// The payload continues the resource from `offset`. It is `anomalous`
    /// where no range was asked for.
    Partial { offset: u64, anomalous: bool },
    /// The download is given up; the local file is left as it is.
    Abort { status: u16 },
}

/// Where a download stands.
#[derive(Clone, Copy, Debug, PartialEq, Eq, Structural)]
pub enum Phase {
    /// Nothing is known yet.
    Start,
    /// The request went out, resuming at `offset`.
    Requested { offset: u64 },
    /// The payload is being written: `base` bytes were kept from before,
    /// `received` have been written in this attempt.
    Receiving { base: u64, received: u64 },
    /// The payload has ended; the local file holds `total` bytes.
    Finished { total: u64 },
    /// The server answered with `status` and the download was given up.
    Aborted { status: u16 },
}

/// What happened outside.
#[derive(Clone, Copy, Debug, PartialEq, Eq)]
pub enum Event {
    /// The local output file was looked up: its length, if it exists.
    LocalFile(Option<u64>),
    /// The response arrived with this status.
    Status(u16),
    /// A piece of the payload, this many bytes long, was written.
    Chunk(u64),
    /// The payload has ended.
    EndOfBody,
}

/// What to do next.
#[derive(Debug)]
pub enum Action {
    /// Send the request, with this range specifier if there is one.
    Request { range: Option<String> },
    /// Open the local file in this way and start writing the payload. Warn
    /// where the response is `anomalous`.
    Open { disposition: Disposition, anomalous: bool },
    /// Go on reading. Where `progress` is set, report that many KiB as
    /// present.
    Continue { progress: Option<u64> },
    /// Report the download as complete, with `total` bytes present.
    Complete { total: u64 },
    /// Report `status` to the caller and stop.
    Fail { status: u16 },
    /// The event does not belong to the phase; nothing changes.
    Reject,
}

/// The position to resume at: the length of the local file, or 0 where there
/// is none.
pub open spec fn resume_offset_of(local: Option<u64>) -> u64 {
    match local {
        Some(len) => len,
        None => 0,
    }
}

/// The range specifier to send when resuming at `offset`: none for a fresh
/// download, else everything from `offset` on.
pub open spec fn request_range(offset: u64) -> Option<Seq<char>> {
    if offset == 0 {
        None
    } else {
        Some(range_text(offset as nat, None))
    }
}

/// What `status` means for a download that asked to resume at `offset`.
/// Partial content continues the file. Every other success is the whole
/// resource. Everything else ends the attempt.
pub open spec fn interpretation(status: u16, offset: u64) -> Outcome {
    if status == STATUS_PARTIAL_CONTENT {
        Outcome::Partial { offset, anomalous: offset == 0 }
    } else if 200 <= status <= 299 {
        Outcome::Full
    } else {
        Outcome::Abort { status }
    }
}

/// How the local file is opened after `outcome`, if it is opened at all.
pub open spec fn disposition_of(outcome: Outcome) -> Option<Disposition> {
    match outcome {
        Outcome::Full => Some(Disposition::Truncate),
        Outcome::Partial { .. } => Some(Disposition::Append),
        Outcome::Abort { .. } => None,
    }
}

/// What the local file holds once `payload` has been written after
/// `outcome`, where it held `before`.
pub open spec fn local_after(outcome: Outcome, before: Seq<u8>, payload: Seq<u8>) -> Seq<u8> {
    match outcome {
        Outcome::Full => payload,
        Outcome::Partial { .. } => before + payload,
        Outcome::Abort { .. } => before,
    }
}

/// The number of KiB to report once `received` bytes have come in on top of
/// `base`, if a report is due.
pub open spec fn progress_due(base: u64, received: u64) -> Option<u64> {
    if received % PROGRESS_STEP == 0 {
        Some(((base + received) / 1024) as u64)
    } else {
        None
    }
}

/// The number of bytes in all of `chunks`.
pub open spec fn total_len(chunks: Seq<u64>) -> nat
    decreases chunks.len(),
{
    if chunks.len() == 0 {
        0
    } else {
        total_len(chunks.drop_last()) + chunks.last() as nat
    }
}

impl Phase {
    /// The byte counts of the phase fit in 64 bits.
    pub open spec fn wf(self) -> bool {
        self matches Phase::Receiving { base, received } ==> base + received <= u64::MAX
    }

    /// `event` can be taken in this phase: a chunk does not push the byte
    /// count past 64 bits.
    pub open spec fn admits(self, event: Event) -> bool {
        match (self, event) {
            (Phase::Receiving { base, received }, Event::Chunk(len)) => base + received + len
                <= u64::MAX,
            _ => true,
        }
    }

    /// The phase that follows this one on `event`.
    pub open spec fn next(self, event: Event) -> Phase {
        match (self, event) {
            (Phase::Start, Event::LocalFile(local)) => Phase::Requested {
                offset: resume_offset_of(local),
            },
            (Phase::Requested { offset }, Event::Status(status)) => match interpretation(
                status,
                offset,
            ) {
                Outcome::Full => Phase::Receiving { base: 0, received: 0 },
                Outcome::Partial { offset, .. } => Phase::Receiving { base: offset, received: 0 },
                Outcome::Abort { status } => Phase::Aborted { status },
            },
            (Phase::Receiving { base, received }, Event::Chunk(len)) => Phase::Receiving {
                base,
                received: (received + len) as u64,
            },
            (Phase::Receiving { base, received }, Event::EndOfBody) => Phase::Finished {
                total: (base + received) as u64,
            },
            _ => self,
        }
    }

    /// The phase reached from this one once pieces of the payload with the
    /// lengths `chunks` have been written, one after the other.
    pub open spec fn after_chunks(self, chunks: Seq<u64>) -> Phase
        decreases chunks.len(),
    {
        if chunks.len() == 0 {
            self
        } else {
            self.after_chunks(chunks.drop_last()).next(Event::Chunk(chunks.last()))
        }
    }

    /// `action` is what is to be done when `event` arrives in this phase.
    pub open spec fn calls_for(self, event: Event, action: Action) -> bool {
        match (self, event) {
            (Phase::Start, Event::LocalFile(local)) => action matches Action::Request { range }
                && (match range {
                Some(text) => Some(text@),
                None => None,
            }) == request_range(resume_offset_of(local)),
            (Phase::Requested { offset }, Event::Status(status)) => match interpretation(
                status,
                offset,
            ) {
                Outcome::Full => action matches Action::Open { disposition, anomalous }
                    && disposition == Disposition::Truncate && !anomalous,
                Outcome::Partial { anomalous: odd, .. } => action matches Action::Open {
                    disposition,
                    anomalous,
                } && disposition == Disposition::Append && anomalous == odd,
                Outcome::Abort { status } => action matches Action::Fail { status: reported }
                    && reported == status,
            },
            (Phase::Receiving { base, received }, Event::Chunk(len)) => action
                matches Action::Continue { progress } && progress == progress_due(
                base,
                (received + len) as u64,
            ),
            (Phase::Receiving { base, received }, Event::EndOfBody) => action
                matches Action::Complete { total } && total == base + received,
            _ => action is Reject,
        }
    }
}

/// The position to resume at, from the length of the local file if there is
/// one.
pub fn resume_offset(local: Option<u64>) -> (offset: u64)
    ensures
        offset == resume_offset_of(local),
{
    match local {
        Some(len) => len,
        None => 0,
    }
}

/// The range specifier to send when resuming at `offset`.
pub fn range_for(offset: u64) -> (range: Option<String>)
    ensures
        match range {
            Some(text) => request_range(offset) == Some(text@),
            None => request_range(offset) is None,
        },
{
    if offset == 0 {
        None
    } else {
        Some(write_range(offset, None))
    }
}

/// What the response status `status` means for a download that asked to
/// resume at `offset`.
pub fn interpret_status(status: u16, offset: u64) -> (outcome: Outcome)
    ensures
        outcome == interpretation(status, offset),
{
    if status == STATUS_PARTIAL_CONTENT {
        Outcome::Partial { offset, anomalous: offset == 0 }
    } else if 200 <= status && status <= 299 {
        Outcome::Full
    } else {
        Outcome::Abort { status }
    }
}

/// How to open the local file after `outcome`.
pub fn disposition(outcome: Outcome) -> (how: Option<Disposition>)
    ensures
        how == disposition_of(outcome),
{
    match outcome {
        Outcome::Full => Some(Disposition::Truncate),
        Outcome::Partial { .. } => Some(Disposition::Append),
        Outcome::Abort { .. } => None,
    }
}

/// Takes `event` in `phase`: the phase that follows, and what to do next.
pub fn step(phase: Phase, event: Event) -> (r: (Phase, Action))
    requires
        phase.wf(),
        phase.admits(event),
    ensures
        r.0 == phase.next(event),
        r.0.wf(),
        phase.calls_for(event, r.1),
{
    match phase {
        Phase::Start => match event {
            Event::LocalFile(local) => {
                let offset = resume_offset(local);
                (Phase::Requested { offset }, Action::Request { range: range_for(offset) })
            },
            _ => (phase, Action::Reject),
        },
        Phase::Requested { offset } => match event {
            Event::Status(status) => match interpret_status(status, offset) {
                Outcome::Full => (
                    Phase::Receiving { base: 0, received: 0 },
                    Action::Open { disposition: Disposition::Truncate, anomalous: false },
                ),
                Outcome::Partial { offset, anomalous } => (
                    Phase::Receiving { base: offset, received: 0 },
                    Action::Open { disposition: Disposition::Append, anomalous },
                ),
                Outcome::Abort { status } => (Phase::Aborted { status }, Action::Fail { status }),
            },
            _ => (phase, Action::Reject),
        },
        Phase::Receiving { base, received } => match event {
            Event::Chunk(len) => {
                let received: u64 = received + len;
                let progress = if received % PROGRESS_STEP == 0 {
                    Some((base + received) / 1024)
                } else {
                    None
                };
                (Phase::Receiving { base, received }, Action::Continue { progress })
            },
            Event::EndOfBody => {
                let total: u64 = base + received;
                (Phase::Finished { total }, Action::Complete { total })
            },
            _ => (phase, Action::Reject),
        },
        Phase::Finished { .. } => (phase, Action::Reject),
        Phase::Aborted { .. } => (phase, Action::Reject),
    }
}

/// The bytes reported as present at the end are those kept from before plus
/// all that were written in this attempt, however the payload was cut into
/// pieces.
pub proof fn lemma_bytes_present(base: u64, chunks: Seq<u64>)
    requires
        base + total_len(chunks) <= u64::MAX,
    ensures
        (Phase::Receiving { base, received: 0 }).after_chunks(chunks) == (Phase::Receiving {
            base,
            received: total_len(chunks) as u64,
        }),
        (Phase::Receiving { base, received: 0 }).after_chunks(chunks).next(Event::EndOfBody) == (
        Phase::Finished { total: (base + total_len(chunks)) as u64 }),
    decreases chunks.len(),
{
    if chunks.len() > 0 {
        lemma_bytes_present(base, chunks.drop_last());
    }
}

/// A resumed attempt, run from the look at the local file to the end of the
/// payload, finishes with as many bytes present as the resource has.
pub proof fn lemma_resumed_run_finishes(
    blob: Seq<u8>,
    offset: u64,
    resp: Response,
    chunks: Seq<u64>,
)
    requires
        0 < offset < blob.len() <= u64::MAX,
        answers(blob, request_range(offset), resp),
        total_len(chunks) == resp.body@.len(),
    ensures
        Phase::Start.next(Event::LocalFile(Some(offset))).next(
            Event::Status(resp.status),
        ).after_chunks(chunks).next(Event::EndOfBody) == (Phase::Finished {
            total: blob.len() as u64,
        }),
{
    lemma_resume_completes(blob, offset, resp);
    lemma_bytes_present(offset, chunks);
}

/// A fresh attempt, run from the look at the local file to the end of the
/// payload, finishes with as many bytes present as the resource has.
pub proof fn lemma_fresh_run_finishes(
    blob: Seq<u8>,
    local: Option<u64>,
    resp: Response,
    chunks: Seq<u64>,
)
    requires
        blob.len() <= u64::MAX,
        resume_offset_of(local) == 0,
        answers(blob, request_range(0), resp),
        total_len(chunks) == resp.body@.len(),
    ensures
        Phase::Start.next(Event::LocalFile(local)).next(Event::Status(resp.status)).after_chunks(
            chunks,
        ).next(Event::EndOfBody) == (Phase::Finished { total: blob.len() as u64 }),
{
    lemma_bytes_present(0, chunks);
}

/// A download that resumes inside the resource ends with the whole resource
/// in the local file: the server sends the missing bytes as partial content,
/// the client appends them, and the file is what a fresh download would
/// have written.
pub proof fn lemma_resume_completes(blob: Seq<u8>, offset: u64, resp: Response)
    requires
        0 < offset < blob.len(),
        answers(blob, request_range(offset), resp),
    ensures
        resp.status == STATUS_PARTIAL_CONTENT,
        interpretation(resp.status, offset) == (Outcome::Partial { offset, anomalous: false }),
        local_after(interpretation(resp.status, offset), blob.take(offset as int), resp.body@)
            == blob,
        offset + resp.body@.len() == blob.len(),
{
    lemma_range_text_parses(offset as nat, None);
    assert(resp.body@ == blob.subrange(offset as int, blob.len() as int));
    assert(blob.take(offset as int) + resp.body@ =~= blob);
}

/// A download that starts with nothing asks for no range, is answered with
/// the whole resource, and leaves exactly that in the local file.
pub proof fn lemma_fresh_download_completes(blob: Seq<u8>, before: Seq<u8>, resp: Response)
    requires
        answers(blob, request_range(0), resp),
    ensures
        resp.status == STATUS_OK,
        interpretation(resp.status, 0) == Outcome::Full,
        local_after(interpretation(resp.status, 0), before, resp.body@) == blob,
{
}

/// A full response replaces what the local file held, whatever position the
/// client asked to resume at.
pub proof fn lemma_full_response_replaces(
    status: u16,
    offset: u64,
    before: Seq<u8>,
    payload: Seq<u8>,
)
    requires
        200 <= status <= 299,
        status != STATUS_PARTIAL_CONTENT,
    ensures
        interpretation(status, offset) == Outcome::Full,
        disposition_of(interpretation(status, offset)) == Some(Disposition::Truncate),
        local_after(interpretation(status, offset), before, payload) == payload,
{
}

/// A download that asks to resume at or behind the end of the resource is
/// refused, and the client gives up without touching the local file.
pub proof fn lemma_resume_past_end_aborts(
    blob: Seq<u8>,
    offset: u64,
    before: Seq<u8>,
    resp: Response,
)
    requires
        0 < offset,
        offset >= blob.len(),
        answers(blob, request_range(offset), resp),
    ensures
        resp.status == STATUS_RANGE_NOT_SATISFIABLE,
        interpretation(resp.status, offset) == (Outcome::Abort {
            status: STATUS_RANGE_NOT_SATISFIABLE,
        }),
        local_after(interpretation(resp.status, offset), before, resp.body@) == before,
{
    lemma_range_text_parses(offset as nat, None);
}

} // verus!
