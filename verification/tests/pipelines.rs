use sendme::error::SendmeError;
use sendme::export::Exporter;
use sendme::import::{build_manifest, collect_hashed, sort_files, ImportItemError, ImportedFile};
use sendme::manifest::ContentId;
use sendme::progress::{ProgressOperation, ProgressStream};
use sendme::send::{build_ticket, finish_send, session_dir_name};
use sendme::ticket::parse_ticket;

fn id_of(b: u8) -> ContentId {
    ContentId::new(vec![b; 32])
}

fn file(name: &str, tag: u8, size: u64) -> ImportedFile {
    ImportedFile { name: name.to_string(), content: id_of(tag), size }
}

fn drain(tracker: &mut ProgressStream) -> Vec<(ProgressOperation, u64, u64)> {
    let mut out = Vec::new();
    while let Some(ev) = tracker.try_recv() {
        out.push((ev.operation, ev.current, ev.total));
    }
    out
}

#[test]
fn import_three_files_totals_three_hundred() {
    // an unordered 3-file, 300-byte tree
    let files = vec![file("tree/c.txt", 3, 50), file("tree/a.txt", 1, 100), file("tree/b.txt", 2, 150)];
    let mut tracker = ProgressStream::new();
    let outcome = build_manifest(files, &mut tracker);
    assert_eq!(outcome.total_size, 300);
    assert_eq!(outcome.file_count, 3);
    assert_eq!(outcome.manifest.len(), 3);
    assert_eq!(outcome.manifest.entry(0).name, "tree/a.txt");
    assert_eq!(outcome.manifest.entry(1).name, "tree/b.txt");
    assert_eq!(outcome.manifest.entry(2).name, "tree/c.txt");
    let events = drain(&mut tracker);
    assert_eq!(
        events,
        vec![(ProgressOperation::Import, 0, 3), (ProgressOperation::Import, 3, 3)]
    );
}

#[test]
fn send_result_reports_import_totals() {
    let files = vec![file("d/x", 1, 100), file("d/y", 2, 150), file("d/z", 3, 50)];
    let mut tracker = ProgressStream::disabled();
    let outcome = build_manifest(files, &mut tracker);
    let root = id_of(0x77);
    let ticket = build_ticket(vec![0x44; 32], vec![], &root);
    let result = finish_send(&ticket, &outcome);
    assert_eq!(result.size, 300);
    assert_eq!(result.file_count, 3);
    assert_eq!(result.hash, "77".repeat(32));
    let parsed = parse_ticket(&result.ticket).expect("send ticket parses");
    assert_eq!(parsed.root.as_bytes(), root.as_bytes());
    // a disabled tracker records nothing
    assert_eq!(tracker.pending(), 0);
}

#[test]
fn manifest_is_deterministic_across_orderings() {
    let one = vec![file("n/1", 1, 10), file("n/2", 2, 20), file("n/3", 3, 30)];
    let two = vec![file("n/3", 3, 30), file("n/1", 1, 10), file("n/2", 2, 20)];
    let mut t1 = ProgressStream::disabled();
    let mut t2 = ProgressStream::disabled();
    let m1 = build_manifest(one, &mut t1).manifest;
    let m2 = build_manifest(two, &mut t2).manifest;
    assert_eq!(m1.len(), m2.len());
    for i in 0..m1.len() {
        assert_eq!(m1.entry(i).name, m2.entry(i).name);
        assert_eq!(m1.entry(i).content.as_bytes(), m2.entry(i).content.as_bytes());
    }
}

#[test]
fn sort_files_orders_by_name_bytes() {
    let mut v = vec![file("b", 2, 0), file("a/z", 1, 0), file("a", 0, 0)];
    sort_files(&mut v);
    let names: Vec<&str> = v.iter().map(|f| f.name.as_str()).collect();
    assert_eq!(names, vec!["a", "a/z", "b"]);
}

#[test]
fn collect_keeps_every_success() {
    let results = vec![Ok(file("p", 1, 5)), Ok(file("q", 2, 6))];
    let files = collect_hashed(results).expect("all files hashed");
    assert_eq!(files.len(), 2);
    assert_eq!(files[0].name, "p");
    assert_eq!(files[1].name, "q");
}

#[test]
fn collect_aborts_on_first_failure() {
    let results = vec![
        Ok(file("good", 1, 5)),
        Err(ImportItemError { name: "bad.bin".to_string(), cause: "io failure".to_string() }),
        Err(ImportItemError { name: "later".to_string(), cause: "unseen".to_string() }),
    ];
    match collect_hashed(results) {
        Err(SendmeError::ImportItemFailed { name, cause }) => {
            assert_eq!(name, "bad.bin");
            assert_eq!(cause, "io failure");
        }
        other => panic!("expected ImportItemFailed, got {:?}", other),
    }
}

#[test]
fn export_writes_every_entry_in_order() {
    let files = vec![file("e/one", 1, 1), file("e/two", 2, 1)];
    let mut tracker = ProgressStream::new();
    let manifest = build_manifest(files, &mut ProgressStream::disabled()).manifest;
    let mut exporter = Exporter::new(manifest);
    while let Some(step) = exporter.next_entry(&mut tracker) {
        let _ = step.name;
        exporter.confirm_target(false).expect("no collision");
        exporter.entry_written(Ok(())).expect("write ok");
    }
    assert_eq!(exporter.done_count(), 2);
    exporter.finish(&mut tracker);
    let events = drain(&mut tracker);
    assert_eq!(
        events,
        vec![
            (ProgressOperation::Export, 0, 2),
            (ProgressOperation::Export, 1, 2),
            (ProgressOperation::Export, 2, 2),
        ]
    );
}

#[test]
fn export_refuses_existing_target_and_keeps_earlier_files() {
    let files = vec![file("f/a", 1, 1), file("f/b", 2, 1), file("f/c", 3, 1)];
    let mut tracker = ProgressStream::disabled();
    let manifest = build_manifest(files, &mut ProgressStream::disabled()).manifest;
    let mut exporter = Exporter::new(manifest);
    // first entry lands
    let _ = exporter.next_entry(&mut tracker).expect("entry f/a");
    exporter.confirm_target(false).expect("f/a is fresh");
    exporter.entry_written(Ok(())).expect("f/a written");
    // second entry collides: refused, nothing written there
    let step = exporter.next_entry(&mut tracker).expect("entry f/b");
    assert_eq!(step.name, "f/b");
    match exporter.confirm_target(true) {
        Err(SendmeError::TargetAlreadyExists { path }) => assert_eq!(path, "f/b"),
        other => panic!("expected TargetAlreadyExists, got {:?}", other),
    }
    // the file exported before the conflict stays: no rollback
    assert_eq!(exporter.done_count(), 1);
}

#[test]
fn export_surfaces_copy_failures_with_the_name() {
    let files = vec![file("g/a", 1, 1)];
    let mut tracker = ProgressStream::disabled();
    let manifest = build_manifest(files, &mut ProgressStream::disabled()).manifest;
    let mut exporter = Exporter::new(manifest);
    let _ = exporter.next_entry(&mut tracker).expect("entry g/a");
    exporter.confirm_target(false).expect("fresh");
    match exporter.entry_written(Err("disk full".to_string())) {
        Err(SendmeError::ExportItemFailed { name, cause }) => {
            assert_eq!(name, "g/a");
            assert_eq!(cause, "disk full");
        }
        other => panic!("expected ExportItemFailed, got {:?}", other),
    }
}

#[test]
fn progress_stream_is_first_in_first_out() {
    let mut tracker = ProgressStream::new();
    let files = vec![file("h", 1, 4)];
    let _ = build_manifest(files, &mut tracker);
    assert_eq!(tracker.pending(), 2);
    let first = tracker.try_recv().expect("first event");
    assert_eq!(first.current, 0);
    let second = tracker.try_recv().expect("second event");
    assert_eq!(second.current, 1);
    assert!(tracker.try_recv().is_none());
}

#[test]
fn session_dir_uses_the_random_suffix() {
    let suffix = vec![0xde; 16];
    let dir = session_dir_name(&suffix);
    assert_eq!(dir, format!(".sendme-send-{}", "de".repeat(16)));
}

#[test]
fn empty_import_yields_empty_manifest() {
    let mut tracker = ProgressStream::new();
    let outcome = build_manifest(Vec::new(), &mut tracker);
    assert_eq!(outcome.total_size, 0);
    assert_eq!(outcome.file_count, 0);
    assert_eq!(outcome.manifest.len(), 0);
    let events = drain(&mut tracker);
    assert_eq!(
        events,
        vec![(ProgressOperation::Import, 0, 0), (ProgressOperation::Import, 0, 0)]
    );
}
