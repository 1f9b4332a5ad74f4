use sendme::error::SendmeError;
use sendme::human::format_bytes;
use sendme::identity::resolve_secret;
use sendme::import::{build_manifest, ImportedFile};
use sendme::manifest::ContentId;
use sendme::progress::{ProgressOperation, ProgressStream};
use sendme::receive::{ConnectOutcome, ReceiveAction, ReceiveFlow};
use sendme::registry::SendmeState;
use sendme::send::build_ticket;
use sendme::ticket::serialize_ticket;

fn id_of(b: u8) -> ContentId {
    ContentId::new(vec![b; 32])
}

fn sample_ticket_text(root_tag: u8) -> String {
    let root = id_of(root_tag);
    let ticket = build_ticket(vec![0x11; 32], vec![], &root);
    serialize_ticket(&ticket)
}

fn small_manifest() -> sendme::manifest::ContentManifest {
    let files = vec![
        ImportedFile { name: "t/a".to_string(), content: id_of(1), size: 100 },
        ImportedFile { name: "t/b".to_string(), content: id_of(2), size: 200 },
    ];
    build_manifest(files, &mut ProgressStream::disabled()).manifest
}

#[test]
fn receive_scratch_dir_is_keyed_by_root_hash() {
    let mut tracker = ProgressStream::new();
    let (_flow, dir) = ReceiveFlow::begin(&sample_ticket_text(0x5f), &mut tracker).expect("parses");
    assert_eq!(dir, format!(".sendme-recv-{}", "5f".repeat(32)));
}

#[test]
fn receive_rejects_bad_ticket_text() {
    let mut tracker = ProgressStream::new();
    match ReceiveFlow::begin("no ticket here", &mut tracker) {
        Err(SendmeError::InvalidTicket { .. }) => {}
        other => panic!("expected InvalidTicket, got {:?}", other.map(|_| ())),
    }
}

#[test]
fn complete_local_content_skips_the_network() {
    // everything is already on disk from an earlier attempt: no connect, no
    // fetch, and the result still carries the right counts
    let mut tracker = ProgressStream::new();
    let (mut flow, _dir) = ReceiveFlow::begin(&sample_ticket_text(3), &mut tracker).expect("parses");
    let action = flow.on_local_status(true, &mut tracker);
    assert_eq!(action, ReceiveAction::LoadManifest);
    let mut exporter = flow.manifest_loaded(small_manifest());
    while let Some(_step) = exporter.next_entry(&mut tracker) {
        exporter.confirm_target(false).expect("fresh target");
        exporter.entry_written(Ok(())).expect("written");
    }
    exporter.finish(&mut tracker);
    flow.export_complete();
    let result = flow.on_cleanup(Ok(()), 2, 300, 42).expect("cleanup ok");
    assert_eq!(result.file_count, 2);
    assert_eq!(result.size, 300);
    assert_eq!(result.duration_ms, 42);
}

#[test]
fn missing_content_demands_a_bounded_connect() {
    let mut tracker = ProgressStream::new();
    let (mut flow, _dir) = ReceiveFlow::begin(&sample_ticket_text(4), &mut tracker).expect("parses");
    let action = flow.on_local_status(false, &mut tracker);
    assert_eq!(action, ReceiveAction::ConnectPeer { timeout_secs: 30 });
}

#[test]
fn connect_timeout_fails_the_operation() {
    let mut tracker = ProgressStream::new();
    let (mut flow, _dir) = ReceiveFlow::begin(&sample_ticket_text(5), &mut tracker).expect("parses");
    let _ = flow.on_local_status(false, &mut tracker);
    match flow.on_connect(ConnectOutcome::TimedOut, &mut tracker) {
        Err(SendmeError::ConnectionTimeout) => {}
        other => panic!("expected ConnectionTimeout, got {:?}", other),
    }
}

#[test]
fn download_events_are_throttled_and_monotone() {
    let mut tracker = ProgressStream::new();
    let (mut flow, _dir) = ReceiveFlow::begin(&sample_ticket_text(6), &mut tracker).expect("parses");
    let _ = flow.on_local_status(false, &mut tracker);
    let _ = flow.on_connect(ConnectOutcome::Connected, &mut tracker).expect("connected");
    let sizes = vec![64u64, 100, 200];
    let action = flow.on_sizes(&sizes, &mut tracker);
    assert_eq!(action, ReceiveAction::FetchMissing);
    // total 364, step 3: a 2-byte step is swallowed, a 10-byte one goes out,
    // a stale offset is dropped, completion always goes out
    flow.on_fetch_progress(2, &mut tracker);
    flow.on_fetch_progress(10, &mut tracker);
    flow.on_fetch_progress(11, &mut tracker);
    flow.on_fetch_progress(5, &mut tracker);
    flow.on_fetch_progress(364, &mut tracker);
    let action = flow.on_fetch_done(&mut tracker);
    assert_eq!(action, ReceiveAction::LoadManifest);
    let mut download = Vec::new();
    while let Some(ev) = tracker.try_recv() {
        if ev.operation == ProgressOperation::Download {
            download.push((ev.current, ev.total));
        }
    }
    assert_eq!(download, vec![(0, 364), (10, 364), (364, 364), (364, 364)]);
    let mut last = 0;
    for (current, total) in download.iter() {
        assert!(*current >= last, "download events never go backwards");
        assert!(*current <= *total);
        last = *current;
    }
    assert_eq!(download.last().map(|(c, t)| c == t), Some(true));
}

#[test]
fn fetch_errors_carry_their_cause() {
    let mut tracker = ProgressStream::new();
    let (mut flow, _dir) = ReceiveFlow::begin(&sample_ticket_text(7), &mut tracker).expect("parses");
    let _ = flow.on_local_status(false, &mut tracker);
    let _ = flow.on_connect(ConnectOutcome::Connected, &mut tracker).expect("connected");
    let _ = flow.on_sizes(&vec![10u64, 10], &mut tracker);
    match flow.on_fetch_error("stream reset".to_string()) {
        SendmeError::DownloadFailed { cause } => assert_eq!(cause, "stream reset"),
        other => panic!("expected DownloadFailed, got {:?}", other),
    }
}

#[test]
fn cleanup_failure_is_terminal() {
    let mut tracker = ProgressStream::new();
    let (mut flow, _dir) = ReceiveFlow::begin(&sample_ticket_text(8), &mut tracker).expect("parses");
    let _ = flow.on_local_status(true, &mut tracker);
    let _ = flow.manifest_loaded(small_manifest());
    flow.export_complete();
    match flow.on_cleanup(Err("directory busy".to_string()), 2, 300, 7) {
        Err(SendmeError::CleanupFailed { cause }) => assert_eq!(cause, "directory busy"),
        other => panic!("expected CleanupFailed, got {:?}", other.map(|_| ())),
    }
}

#[test]
fn registry_holds_and_releases_bundles() {
    let mut registry: SendmeState<u32> = SendmeState::new();
    registry.add_sender("ticket-a".to_string(), 1);
    registry.add_sender("progress_stream".to_string(), 2);
    assert!(registry.contains_key(&"ticket-a".to_string()));
    assert!(registry.contains_key(&"progress_stream".to_string()));
    // adding under a held key replaces the bundle, it does not duplicate it
    registry.add_sender("progress_stream".to_string(), 3);
    assert!(registry.contains_key(&"progress_stream".to_string()));
    registry.remove_sender(&"ticket-a".to_string());
    assert!(!registry.contains_key(&"ticket-a".to_string()));
    // removing an unknown key is a quiet no-op
    registry.remove_sender(&"never-added".to_string());
    assert!(!registry.contains_key(&"never-added".to_string()));
}

#[test]
fn fresh_identity_is_drawn_when_no_override_is_set() {
    let secret = resolve_secret(None).expect("fresh identity");
    assert_eq!(secret.len(), 32);
}

#[test]
fn hex_override_parses_to_its_bytes() {
    let secret = resolve_secret(Some("01".repeat(32))).expect("valid override");
    assert_eq!(secret, vec![1u8; 32]);
}

#[test]
fn malformed_override_fails_fast() {
    match resolve_secret(Some("not a key".to_string())) {
        Err(SendmeError::InvalidSecret { .. }) => {}
        other => panic!("expected InvalidSecret, got {:?}", other),
    }
}

#[test]
fn byte_counts_render_for_humans() {
    assert_eq!(format_bytes(300), "300 B");
    assert_eq!(format_bytes(0), "0 B");
    assert_eq!(format_bytes(1024), "1.0 KiB");
}

#[test]
fn announced_totals_saturate_instead_of_wrapping() {
    let mut tracker = ProgressStream::new();
    let (mut flow, _dir) = ReceiveFlow::begin(&sample_ticket_text(9), &mut tracker).expect("parses");
    let _ = flow.on_local_status(false, &mut tracker);
    let _ = flow.on_connect(ConnectOutcome::Connected, &mut tracker).expect("connected");
    let sizes = vec![u64::MAX, 10u64];
    let _ = flow.on_sizes(&sizes, &mut tracker);
    let mut download_total = None;
    while let Some(ev) = tracker.try_recv() {
        if ev.operation == ProgressOperation::Download {
            download_total = Some(ev.total);
        }
    }
    assert_eq!(download_total, Some(u64::MAX));
}
