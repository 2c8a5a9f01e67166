use reactor_core::reactor::{
    AcceptDisposition, AcceptOutcome, IoAction, ReadDisposition, ReadOutcome, Registry,
    WriteDisposition, WriteOutcome, LISTENER_ID,
};

fn accept(reg: &mut Registry) -> u64 {
    match reg.on_accept_outcome(AcceptOutcome::Accepted) {
        AcceptDisposition::Register(id) => id,
        other => panic!("accept did not register: {:?}", other),
    }
}

#[test]
fn hello_then_world_reports_eleven_bytes() {
    let mut reg = Registry::new();
    let id = accept(&mut reg);
    let d = reg.on_read_outcome(id, ReadOutcome::Chunk(b"hello".to_vec()));
    assert_eq!(d, ReadDisposition::Continue);
    let d = reg.on_read_outcome(id, ReadOutcome::Chunk(b" world".to_vec()));
    assert_eq!(d, ReadDisposition::Continue);
    assert_eq!(reg.byte_count(id), 11);
    let d = reg.on_read_outcome(id, ReadOutcome::Eof);
    assert_eq!(d, ReadDisposition::Respond);
    assert_eq!(reg.pending_bytes(id), b"Received 11 bytes of data".to_vec());
    let d = reg.on_write_outcome(id, WriteOutcome::Wrote(25));
    assert_eq!(d, WriteDisposition::Done);
    assert!(!reg.contains(id));
}

#[test]
fn empty_stream_counts_zero_bytes() {
    let mut reg = Registry::new();
    let id = accept(&mut reg);
    let d = reg.on_read_outcome(id, ReadOutcome::Eof);
    assert_eq!(d, ReadDisposition::Respond);
    assert_eq!(reg.pending_bytes(id), b"Received 0 bytes of data".to_vec());
}

#[test]
fn chunked_reads_sum_exactly() {
    let mut reg = Registry::new();
    let id = accept(&mut reg);
    for chunk in [&b"abc"[..], &b"defg"[..], &b"hijk"[..]] {
        let d = reg.on_read_outcome(id, ReadOutcome::Chunk(chunk.to_vec()));
        assert_eq!(d, ReadDisposition::Continue);
    }
    let d = reg.on_read_outcome(id, ReadOutcome::WouldBlock);
    assert_eq!(d, ReadDisposition::Await);
    assert_eq!(reg.byte_count(id), 11);
    reg.on_read_outcome(id, ReadOutcome::Eof);
    assert_eq!(reg.pending_bytes(id), b"Received 11 bytes of data".to_vec());
}

#[test]
fn accept_drain_registers_every_client() {
    let mut reg = Registry::new();
    let mut ids = Vec::new();
    for _ in 0..100 {
        ids.push(accept(&mut reg));
    }
    assert_eq!(reg.len(), 100);
    for (i, id) in ids.iter().enumerate() {
        assert_eq!(*id, 1 + i as u64);
        assert!(reg.contains(*id));
    }
    let d = reg.on_accept_outcome(AcceptOutcome::WouldBlock);
    assert_eq!(d, AcceptDisposition::Await);
    assert_eq!(reg.len(), 100);
}

#[test]
fn hundred_clients_get_independent_responses() {
    let mut reg = Registry::new();
    let mut ids = Vec::new();
    for _ in 0..100 {
        ids.push(accept(&mut reg));
    }
    for (i, id) in ids.iter().enumerate() {
        let d = reg.on_read_outcome(*id, ReadOutcome::Chunk(vec![i as u8]));
        assert_eq!(d, ReadDisposition::Continue);
    }
    for id in ids.iter() {
        assert_eq!(reg.byte_count(*id), 1);
        let d = reg.on_read_outcome(*id, ReadOutcome::Eof);
        assert_eq!(d, ReadDisposition::Respond);
    }
    for id in ids.iter() {
        assert_eq!(reg.pending_bytes(*id), b"Received 1 bytes of data".to_vec());
        let d = reg.on_write_outcome(*id, WriteOutcome::Wrote(24));
        assert_eq!(d, WriteDisposition::Done);
        assert!(!reg.contains(*id));
    }
    assert_eq!(reg.len(), 0);
}

#[test]
fn partial_writes_deliver_the_whole_response() {
    let mut reg = Registry::new();
    let id = accept(&mut reg);
    reg.on_read_outcome(id, ReadOutcome::Chunk(b"hello".to_vec()));
    reg.on_read_outcome(id, ReadOutcome::Eof);
    let expected = b"Received 5 bytes of data".to_vec();

    // Simulate a tiny send buffer: at most 4 bytes leave per write call.
    let mut wire: Vec<u8> = Vec::new();
    loop {
        let pending = reg.pending_bytes(id);
        let n = pending.len().min(4);
        wire.extend_from_slice(&pending[..n]);
        match reg.on_write_outcome(id, WriteOutcome::Wrote(n)) {
            WriteDisposition::Progress => continue,
            WriteDisposition::Done => break,
            other => panic!("unexpected write disposition: {:?}", other),
        }
    }
    assert_eq!(wire, expected);
    assert!(!reg.contains(id));
}

#[test]
fn interrupted_write_keeps_the_remainder_queued() {
    let mut reg = Registry::new();
    let id = accept(&mut reg);
    reg.on_read_outcome(id, ReadOutcome::Eof);
    let d = reg.on_write_outcome(id, WriteOutcome::Wrote(9));
    assert_eq!(d, WriteDisposition::Progress);
    let d = reg.on_write_outcome(id, WriteOutcome::WouldBlock);
    assert_eq!(d, WriteDisposition::Await);
    assert_eq!(reg.pending_bytes(id), b"0 bytes of data".to_vec());
}

#[test]
fn close_removes_exactly_once() {
    let mut reg = Registry::new();
    let id = accept(&mut reg);
    assert!(reg.contains(id));
    reg.close(id);
    assert!(!reg.contains(id));
    assert_eq!(reg.len(), 0);
    // A second close of the same identifier is harmless.
    reg.close(id);
    assert!(!reg.contains(id));
    assert_eq!(reg.len(), 0);
}

#[test]
fn stale_events_are_ignored() {
    let mut reg = Registry::new();
    let id = accept(&mut reg);
    reg.close(id);
    assert_eq!(reg.classify(id, true, false), IoAction::Ignore);
    assert_eq!(reg.classify(id, false, true), IoAction::Ignore);
}

#[test]
fn classify_dispatches_by_token_and_stage() {
    let mut reg = Registry::new();
    assert_eq!(reg.classify(LISTENER_ID, true, false), IoAction::DrainAccept);
    let id = accept(&mut reg);
    assert_eq!(reg.classify(id, true, false), IoAction::DrainRead(id));
    assert_eq!(reg.classify(id, false, true), IoAction::Ignore);
    reg.on_read_outcome(id, ReadOutcome::Eof);
    assert_eq!(reg.classify(id, false, true), IoAction::WriteResponse(id));
    assert_eq!(reg.classify(id, true, false), IoAction::Ignore);
}

#[test]
fn read_error_closes_only_that_connection() {
    let mut reg = Registry::new();
    let a = accept(&mut reg);
    let b = accept(&mut reg);
    reg.on_read_outcome(a, ReadOutcome::Chunk(b"kept".to_vec()));
    let d = reg.on_read_outcome(b, ReadOutcome::Fatal);
    assert_eq!(d, ReadDisposition::Closed);
    assert!(!reg.contains(b));
    assert!(reg.contains(a));
    assert_eq!(reg.byte_count(a), 4);
}

#[test]
fn write_error_closes_the_connection() {
    let mut reg = Registry::new();
    let id = accept(&mut reg);
    reg.on_read_outcome(id, ReadOutcome::Eof);
    let d = reg.on_write_outcome(id, WriteOutcome::Fatal);
    assert_eq!(d, WriteDisposition::Closed);
    assert!(!reg.contains(id));
}

#[test]
fn failed_accept_stops_draining_but_keeps_serving() {
    let mut reg = Registry::new();
    let id = accept(&mut reg);
    let d = reg.on_accept_outcome(AcceptOutcome::Fatal);
    assert_eq!(d, AcceptDisposition::Stop);
    assert!(reg.contains(id));
    let id2 = accept(&mut reg);
    assert!(reg.contains(id2));
    assert_ne!(id, id2);
}

#[test]
fn identifiers_are_never_reused() {
    let mut reg = Registry::new();
    let a = accept(&mut reg);
    reg.close(a);
    let b = accept(&mut reg);
    assert_ne!(a, b);
    assert!(b > a);
}
