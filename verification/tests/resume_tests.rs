use resumable_transfer::archive::{build_archive, Probe, SourceFile};
use resumable_transfer::respond::respond;
use resumable_transfer::resume::{
    disposition, interpret_status, range_for, resume_offset, step, Action, Disposition, Event,
    Outcome, Phase, PROGRESS_STEP,
};

fn hundred() -> Vec<u8> {
    (0..100u8).map(|i| i.wrapping_mul(91).wrapping_add(3)).collect()
}

/// Runs one download attempt against a server that holds `blob`, with `local`
/// as the output file. Returns the status the attempt failed with, if it did.
fn attempt(blob: &[u8], local: &mut Option<Vec<u8>>, chunk: usize) -> Result<u64, u16> {
    let found = local.as_ref().map(|file| file.len() as u64);
    let (mut phase, action) = step(Phase::Start, Event::LocalFile(found));
    let range = match action {
        Action::Request { range } => range,
        other => panic!("unexpected action {:?}", other),
    };
    let resp = respond(blob.to_vec(), range.as_deref());
    let (next, action) = step(phase, Event::Status(resp.status));
    phase = next;
    match action {
        Action::Open { disposition: Disposition::Truncate, .. } => *local = Some(Vec::new()),
        Action::Open { disposition: Disposition::Append, .. } => {
            if local.is_none() {
                *local = Some(Vec::new());
            }
        }
        Action::Fail { status } => {
            assert_eq!(phase, Phase::Aborted { status });
            return Err(status);
        }
        other => panic!("unexpected action {:?}", other),
    }
    for piece in resp.body.chunks(chunk) {
        local.as_mut().unwrap().extend_from_slice(piece);
        let (next, action) = step(phase, Event::Chunk(piece.len() as u64));
        phase = next;
        assert!(matches!(action, Action::Continue { .. }));
    }
    let (next, action) = step(phase, Event::EndOfBody);
    match action {
        Action::Complete { total } => {
            assert_eq!(next, Phase::Finished { total });
            Ok(total)
        }
        other => panic!("unexpected action {:?}", other),
    }
}

#[test]
fn interrupted_download_resumes_where_it_stopped() {
    let blob = hundred();
    let mut local = Some(blob[..40].to_vec());

    let (phase, action) = step(Phase::Start, Event::LocalFile(Some(40)));
    assert_eq!(phase, Phase::Requested { offset: 40 });
    let range = match action {
        Action::Request { range } => range,
        other => panic!("unexpected action {:?}", other),
    };
    assert_eq!(range.as_deref(), Some("bytes=40-"));

    let resp = respond(blob.clone(), range.as_deref());
    assert_eq!(resp.status, 206);
    assert_eq!(resp.content_range_value(), Some("bytes 40-99/100".to_string()));
    assert_eq!(resp.body.len(), 60);

    let (phase, action) = step(phase, Event::Status(resp.status));
    assert_eq!(phase, Phase::Receiving { base: 40, received: 0 });
    assert!(matches!(
        action,
        Action::Open { disposition: Disposition::Append, anomalous: false }
    ));
    local.as_mut().unwrap().extend_from_slice(&resp.body);
    let (phase, _) = step(phase, Event::Chunk(60));
    assert_eq!(phase, Phase::Receiving { base: 40, received: 60 });
    let (phase, action) = step(phase, Event::EndOfBody);
    assert_eq!(phase, Phase::Finished { total: 100 });
    assert!(matches!(action, Action::Complete { total: 100 }));

    let mut fresh = None;
    assert_eq!(attempt(&blob, &mut fresh, 100), Ok(100));
    assert_eq!(local.as_ref().unwrap().len(), 100);
    assert_eq!(local, fresh);
    assert_eq!(local.unwrap(), blob);
}

#[test]
fn fresh_download_writes_the_whole_archive() {
    let blob = hundred();
    let (phase, action) = step(Phase::Start, Event::LocalFile(None));
    assert_eq!(phase, Phase::Requested { offset: 0 });
    assert!(matches!(action, Action::Request { range: None }));

    let resp = respond(blob.clone(), None);
    assert_eq!(resp.status, 200);
    let (phase, action) = step(phase, Event::Status(resp.status));
    assert_eq!(phase, Phase::Receiving { base: 0, received: 0 });
    assert!(matches!(
        action,
        Action::Open { disposition: Disposition::Truncate, anomalous: false }
    ));

    let mut local = None;
    assert_eq!(attempt(&blob, &mut local, 7), Ok(100));
    assert_eq!(local.unwrap(), blob);
}

#[test]
fn download_resumes_from_every_position() {
    let sources = vec![
        SourceFile { path: "fileA.txt".to_string(), probe: Probe::File(b"AAAAA".to_vec()) },
        SourceFile { path: "fileB.txt".to_string(), probe: Probe::File(b"BBBBBBB".to_vec()) },
    ];
    let blob = build_archive(&sources).unwrap().bytes;
    for kept in 0..blob.len() {
        let mut local = if kept == 0 { None } else { Some(blob[..kept].to_vec()) };
        assert_eq!(attempt(&blob, &mut local, 16), Ok(blob.len() as u64), "resume at {}", kept);
        assert_eq!(local.unwrap(), blob, "resume at {}", kept);
    }
}

#[test]
fn empty_local_file_counts_as_a_fresh_start() {
    let blob = hundred();
    let mut local = Some(Vec::new());
    assert_eq!(attempt(&blob, &mut local, 33), Ok(100));
    assert_eq!(local.unwrap(), blob);
}

#[test]
fn complete_local_file_ends_in_a_refused_range() {
    let blob = hundred();
    let mut local = Some(blob.clone());
    assert_eq!(attempt(&blob, &mut local, 10), Err(416));
    assert_eq!(local.unwrap(), blob);

    let mut longer = Some(vec![1u8; 150]);
    assert_eq!(attempt(&blob, &mut longer, 10), Err(416));
    assert_eq!(longer.unwrap(), vec![1u8; 150]);
}

#[test]
fn resume_offset_is_the_local_length() {
    assert_eq!(resume_offset(None), 0);
    assert_eq!(resume_offset(Some(0)), 0);
    assert_eq!(resume_offset(Some(40)), 40);
    assert_eq!(resume_offset(Some(u64::MAX)), u64::MAX);
}

#[test]
fn range_is_sent_only_when_resuming() {
    assert_eq!(range_for(0), None);
    assert_eq!(range_for(1), Some("bytes=1-".to_string()));
    assert_eq!(range_for(40), Some("bytes=40-".to_string()));
    assert_eq!(range_for(u64::MAX), Some("bytes=18446744073709551615-".to_string()));
}

#[test]
fn partial_content_continues_the_file() {
    assert_eq!(interpret_status(206, 40), Outcome::Partial { offset: 40, anomalous: false });
    assert_eq!(disposition(interpret_status(206, 40)), Some(Disposition::Append));
}

#[test]
fn partial_content_without_an_offset_is_flagged() {
    assert_eq!(interpret_status(206, 0), Outcome::Partial { offset: 0, anomalous: true });
    assert_eq!(disposition(interpret_status(206, 0)), Some(Disposition::Append));
    let (phase, action) = step(Phase::Requested { offset: 0 }, Event::Status(206));
    assert_eq!(phase, Phase::Receiving { base: 0, received: 0 });
    assert!(matches!(action, Action::Open { disposition: Disposition::Append, anomalous: true }));
}

#[test]
fn other_success_means_the_whole_resource() {
    for status in [200u16, 201, 202, 203, 204, 205, 207, 226, 299] {
        for offset in [0u64, 40] {
            assert_eq!(interpret_status(status, offset), Outcome::Full);
            let (phase, action) = step(Phase::Requested { offset }, Event::Status(status));
            assert_eq!(phase, Phase::Receiving { base: 0, received: 0 });
            assert!(matches!(
                action,
                Action::Open { disposition: Disposition::Truncate, anomalous: false }
            ));
        }
    }
    assert_eq!(disposition(Outcome::Full), Some(Disposition::Truncate));
}

#[test]
fn full_response_to_a_resume_replaces_the_file() {
    // The server ignores the range and sends everything.
    let blob = hundred();
    let mut local = blob[..40].to_vec();
    let (phase, _) = step(Phase::Start, Event::LocalFile(Some(40)));
    let (phase, action) = step(phase, Event::Status(200));
    assert!(matches!(action, Action::Open { disposition: Disposition::Truncate, .. }));
    local.clear();
    local.extend_from_slice(&blob);
    let (phase, _) = step(phase, Event::Chunk(100));
    let (_, action) = step(phase, Event::EndOfBody);
    assert!(matches!(action, Action::Complete { total: 100 }));
    assert_eq!(local, blob);
}

#[test]
fn failure_status_aborts() {
    for status in [100u16, 199, 300, 304, 400, 404, 416, 500, 503, 999, 0, u16::MAX] {
        assert_eq!(interpret_status(status, 40), Outcome::Abort { status });
        assert_eq!(disposition(interpret_status(status, 40)), None);
        let (phase, action) = step(Phase::Requested { offset: 40 }, Event::Status(status));
        assert_eq!(phase, Phase::Aborted { status });
        assert!(matches!(action, Action::Fail { status: s } if s == status));
    }
}

#[test]
fn bytes_present_are_offset_plus_received() {
    let (phase, _) = step(Phase::Receiving { base: 40, received: 0 }, Event::Chunk(25));
    let (phase, _) = step(phase, Event::Chunk(0));
    let (phase, _) = step(phase, Event::Chunk(35));
    assert_eq!(phase, Phase::Receiving { base: 40, received: 60 });
    let (phase, action) = step(phase, Event::EndOfBody);
    assert_eq!(phase, Phase::Finished { total: 100 });
    assert!(matches!(action, Action::Complete { total: 100 }));

    let (phase, action) = step(Phase::Receiving { base: 40, received: 0 }, Event::EndOfBody);
    assert_eq!(phase, Phase::Finished { total: 40 });
    assert!(matches!(action, Action::Complete { total: 40 }));

    let (phase, _) = step(
        Phase::Receiving { base: u64::MAX - 10, received: 4 },
        Event::Chunk(6),
    );
    assert_eq!(phase, Phase::Receiving { base: u64::MAX - 10, received: 10 });
    let (_, action) = step(phase, Event::EndOfBody);
    assert!(matches!(action, Action::Complete { total: u64::MAX }));
}

#[test]
fn progress_is_reported_at_every_step() {
    assert_eq!(PROGRESS_STEP, 50 * 1024);
    let (_, action) = step(Phase::Receiving { base: 0, received: 0 }, Event::Chunk(PROGRESS_STEP));
    assert!(matches!(action, Action::Continue { progress: Some(50) }));
    let (_, action) =
        step(Phase::Receiving { base: 2048, received: 1200 }, Event::Chunk(PROGRESS_STEP - 1200));
    assert!(matches!(action, Action::Continue { progress: Some(52) }));
    let (_, action) =
        step(Phase::Receiving { base: 1000, received: PROGRESS_STEP }, Event::Chunk(PROGRESS_STEP));
    assert!(matches!(action, Action::Continue { progress: Some(100) }));
    let (_, action) = step(Phase::Receiving { base: 0, received: 0 }, Event::Chunk(PROGRESS_STEP - 1));
    assert!(matches!(action, Action::Continue { progress: None }));
    let (_, action) = step(Phase::Receiving { base: 0, received: 1 }, Event::Chunk(PROGRESS_STEP));
    assert!(matches!(action, Action::Continue { progress: None }));
    let (_, action) = step(Phase::Receiving { base: 4096, received: 0 }, Event::Chunk(0));
    assert!(matches!(action, Action::Continue { progress: Some(4) }));
}

#[test]
fn events_out_of_place_change_nothing() {
    let phases = [
        Phase::Start,
        Phase::Requested { offset: 40 },
        Phase::Receiving { base: 40, received: 2 },
        Phase::Finished { total: 100 },
        Phase::Aborted { status: 404 },
    ];
    let events =
        [Event::LocalFile(Some(7)), Event::LocalFile(None), Event::Status(200), Event::Chunk(5), Event::EndOfBody];
    for phase in phases {
        for event in events {
            let in_place = matches!(
                (phase, event),
                (Phase::Start, Event::LocalFile(_))
                    | (Phase::Requested { .. }, Event::Status(_))
                    | (Phase::Receiving { .. }, Event::Chunk(_))
                    | (Phase::Receiving { .. }, Event::EndOfBody)
            );
            let (next, action) = step(phase, event);
            if !in_place {
                assert_eq!(next, phase);
                assert!(matches!(action, Action::Reject));
            } else {
                assert!(!matches!(action, Action::Reject));
            }
        }
    }
}
