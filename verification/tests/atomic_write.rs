use safe_write::parent_dir;
use safe_write::safe_write;
use safe_write::temp_path;
use safe_write::Action;
use safe_write::Event;
use safe_write::Phase;
use safe_write::SimFs;
use safe_write::Writer;

#[test]
fn test_basic_write() {
    let mut fs = SimFs::new();
    let content = b"Hello, World!";
    safe_write(&mut fs, b"test.txt", content, true);

    let read_content = fs.read_file(b"test.txt").expect("file should exist");
    assert_eq!(content, read_content.as_slice());
}

#[test]
fn test_nested_directory_creation() {
    let mut fs = SimFs::new();
    let content = b"Nested content";
    safe_write(&mut fs, b"nested/dirs/test.txt", content, true);

    assert!(fs.file_exists(b"nested/dirs/test.txt"));
    let read_content = fs.read_file(b"nested/dirs/test.txt").expect("file should exist");
    assert_eq!(content, read_content.as_slice());
}

#[test]
fn test_overwrite_existing() {
    let mut fs = SimFs::new();
    safe_write(&mut fs, b"overwrite.txt", b"Initial content", true);

    let new_content = b"New content";
    safe_write(&mut fs, b"overwrite.txt", new_content, true);

    let read_content = fs.read_file(b"overwrite.txt").expect("file should exist");
    assert_eq!(new_content, read_content.as_slice());
}

#[test]
fn empty_content_round_trip() {
    let mut fs = SimFs::new();
    safe_write(&mut fs, b"empty.txt", b"", true);
    let read_content = fs.read_file(b"empty.txt").expect("file should exist");
    assert_eq!(read_content.len(), 0);
}

#[test]
fn overwrite_leaves_no_temp_and_no_old_content() {
    let mut fs = SimFs::new();
    safe_write(&mut fs, b"out/data.txt", b"v1", true);
    assert_eq!(fs.read_file(b"out/data.txt").unwrap().as_slice(), b"v1");
    assert!(!fs.file_exists(b"out/data.tmp"));

    safe_write(&mut fs, b"out/data.txt", b"v2-longer", true);
    assert_eq!(fs.read_file(b"out/data.txt").unwrap().as_slice(), b"v2-longer");
    assert!(!fs.file_exists(b"out/data.tmp"));
}

#[test]
fn directory_chain_is_created() {
    let mut fs = SimFs::new();
    assert!(!fs.dir_exists(b"a"));
    safe_write(&mut fs, b"a/b/c/file.txt", b"deep", true);
    assert!(fs.dir_exists(b"a"));
    assert!(fs.dir_exists(b"a/b"));
    assert!(fs.dir_exists(b"a/b/c"));
    assert_eq!(fs.read_file(b"a/b/c/file.txt").unwrap().as_slice(), b"deep");
}

#[test]
fn directory_creation_is_idempotent() {
    let mut fs = SimFs::new();
    safe_write(&mut fs, b"shared/one.txt", b"first", true);
    safe_write(&mut fs, b"shared/two.txt", b"second", true);
    assert_eq!(fs.read_file(b"shared/one.txt").unwrap().as_slice(), b"first");
    assert_eq!(fs.read_file(b"shared/two.txt").unwrap().as_slice(), b"second");
    assert!(fs.dir_exists(b"shared"));
}

#[test]
fn stale_temp_is_recovered() {
    let mut fs = SimFs::new();
    fs.ensure_dir(b".");
    fs.create_exclusive(b"data.tmp");
    fs.write_all(b"data.tmp", b"left over by a crash");

    safe_write(&mut fs, b"data.txt", b"fresh", true);
    assert_eq!(fs.read_file(b"data.txt").unwrap().as_slice(), b"fresh");
    assert!(!fs.file_exists(b"data.tmp"));
}

#[test]
fn remove_then_rename_platform_overwrites() {
    let mut fs = SimFs::new();
    safe_write(&mut fs, b"win/file.txt", b"old", false);
    safe_write(&mut fs, b"win/file.txt", b"new", false);
    assert_eq!(fs.read_file(b"win/file.txt").unwrap().as_slice(), b"new");
    assert!(!fs.file_exists(b"win/file.tmp"));
}

#[test]
fn temp_name_replaces_extension() {
    assert_eq!(temp_path(b"foo.txt").as_slice(), b"foo.tmp");
    assert_eq!(temp_path(b"a/b.tar.gz").as_slice(), b"a/b.tar.tmp");
    assert_eq!(temp_path(b"dir.d/notes.md").as_slice(), b"dir.d/notes.tmp");
}

#[test]
fn temp_name_appends_when_no_extension() {
    assert_eq!(temp_path(b"foo").as_slice(), b"foo.tmp");
    assert_eq!(temp_path(b".hidden").as_slice(), b".hidden.tmp");
    assert_eq!(temp_path(b"dir.d/file").as_slice(), b"dir.d/file.tmp");
}

#[test]
fn parent_of_paths() {
    assert_eq!(parent_dir(b"a/b/c.txt").as_slice(), b"a/b");
    assert_eq!(parent_dir(b"file.txt").as_slice(), b".");
    assert_eq!(parent_dir(b"/etc/conf").as_slice(), b"/etc");
    assert_eq!(parent_dir(b"/a").as_slice(), b"/");
}

#[test]
fn colliding_targets_share_a_temp_name() {
    // The documented limitation of the naming scheme: extensions collapse.
    assert_eq!(temp_path(b"foo.txt").as_slice(), temp_path(b"foo.dat").as_slice());
}

#[test]
fn session_follows_the_protocol_order() {
    let mut w = Writer::new(b"a/b.txt", true);
    assert_eq!(w.parent.as_slice(), b"a");
    assert_eq!(w.temp.as_slice(), b"a/b.tmp");

    assert_eq!(w.action(), Action::EnsureDir);
    w.advance(Event::Success);
    assert_eq!(w.action(), Action::ProbeTemp);
    w.advance(Event::Absent);
    assert_eq!(w.action(), Action::CreateTemp);
    w.advance(Event::Success);
    assert_eq!(w.action(), Action::WriteContent);
    w.advance(Event::Success);
    assert_eq!(w.action(), Action::SyncClose);
    w.advance(Event::Success);
    assert_eq!(w.action(), Action::Rename);
    w.advance(Event::Success);
    assert_eq!(w.phase, Phase::Done);
    assert_eq!(w.action(), Action::Idle);
}

#[test]
fn session_removes_a_stale_temp_first() {
    let mut w = Writer::new(b"x.bin", true);
    w.advance(Event::Success);
    assert_eq!(w.action(), Action::ProbeTemp);
    w.advance(Event::Present);
    assert_eq!(w.action(), Action::RemoveTemp);
    w.advance(Event::Success);
    assert_eq!(w.action(), Action::CreateTemp);
}

#[test]
fn session_without_replace_probes_and_removes_the_target() {
    let mut w = Writer::new(b"x.bin", false);
    w.advance(Event::Success);
    w.advance(Event::Absent);
    w.advance(Event::Success);
    w.advance(Event::Success);
    assert_eq!(w.action(), Action::SyncClose);
    w.advance(Event::Success);
    assert_eq!(w.action(), Action::ProbeTarget);
    w.advance(Event::Present);
    assert_eq!(w.action(), Action::RemoveTarget);
    w.advance(Event::Success);
    assert_eq!(w.action(), Action::Rename);
    w.advance(Event::Success);
    assert_eq!(w.phase, Phase::Done);
}

#[test]
fn session_stops_on_failure() {
    let mut w = Writer::new(b"x.bin", true);
    w.advance(Event::Failure);
    assert_eq!(w.phase, Phase::Failed);
    assert_eq!(w.action(), Action::Idle);
    w.advance(Event::Success);
    assert_eq!(w.phase, Phase::Failed);
}

#[test]
fn session_refuses_an_event_its_action_cannot_produce() {
    let mut w = Writer::new(b"x.bin", true);
    // EnsureDir reports success or failure, never a probe result.
    w.advance(Event::Present);
    assert_eq!(w.phase, Phase::Failed);
    assert_eq!(w.action(), Action::Idle);
}
