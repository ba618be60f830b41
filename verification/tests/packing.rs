use airgap_xfer::cli::{
    attempt_note, exit_code, is_interrupted, received_summary, recv_title, reply_for, send_title,
    sent_summary, writing_line,
};
use airgap_xfer::error::Error;
use airgap_xfer::frame::{Payload, FAIL_DISK, FAIL_PROTOCOL};
use airgap_xfer::link::Session;
use airgap_xfer::pack::{
    archive_filename, archive_root_basename, clear_destination, dest_exists, look_up,
    no_basename, removal, removal_warning, temp_name, Found, Listed, Removable, Removal, Step,
    Walk,
};
use airgap_xfer::session::Completed;

#[test]
fn a_tree_is_walked_in_order_and_nothing_is_skipped_in_silence() {
    let mut walk = Walk::new(0);
    assert_eq!(walk.next(), Some(0));
    assert_eq!(walk.inspect("dir", Found::Directory), Step::AppendDirectory);
    assert!(walk.append("dir", 0, None));
    walk.list(
        "dir",
        vec![
            Listed::Entry(1),
            Listed::Unreadable("odd".into()),
            Listed::Entry(2),
            Listed::Entry(3),
        ],
    );
    assert_eq!(walk.next(), Some(1));
    assert_eq!(walk.inspect("dir/a", Found::Directory), Step::AppendDirectory);
    assert!(walk.append("dir/a", 0, None));
    walk.list("dir/a", vec![Listed::Entry(4)]);
    assert_eq!(walk.next(), Some(4));
    assert_eq!(walk.inspect("dir/a/f", Found::File(5)), Step::AppendFile);
    assert!(walk.append("dir/a/f", 5, None));
    assert_eq!(walk.next(), Some(2));
    assert_eq!(walk.inspect("dir/l", Found::Symlink), Step::Skip);
    assert_eq!(walk.next(), Some(3));
    assert_eq!(walk.inspect("dir/s", Found::Other), Step::Skip);
    assert_eq!(walk.next(), None);
    let (hint, warnings) = walk.finish().unwrap();
    assert_eq!(hint, 5);
    assert_eq!(
        warnings,
        [
            "skipped unreadable entry in dir: odd",
            "skipped symlink dir/l",
            "skipped unsupported file type dir/s"
        ]
    );
}

#[test]
fn skips_symlink_and_errors_on_empty() {
    let mut walk = Walk::new(0);
    walk.next();
    walk.inspect("root", Found::Directory);
    walk.append("root", 0, None);
    walk.list("root", vec![Listed::Entry(1)]);
    walk.next();
    walk.inspect("root/link", Found::Symlink);
    assert_eq!(walk.next(), None);
    assert!(matches!(walk.finish(), Err(Error::EmptyArchive)));
}

#[test]
fn an_empty_directory_is_an_archive_and_nothing_is_not() {
    let mut walk = Walk::new(0);
    walk.next();
    walk.inspect("root", Found::Directory);
    walk.append("root", 0, None);
    walk.list("root", vec![]);
    assert_eq!(walk.next(), None);
    assert_eq!(walk.finish().unwrap(), (0, vec![]));

    let mut walk = Walk::new(0);
    walk.next();
    walk.inspect("f", Found::Unreadable("denied".into()));
    assert!(matches!(walk.finish(), Err(Error::EmptyArchive)));
}

#[test]
fn failed_appends_and_listings_are_warned_about() {
    let mut walk = Walk::new(0);
    walk.next();
    walk.append("a", 1, None);
    walk.append("b", 2, None);
    assert!(!walk.append("c", 4, Some("busy".into())));
    walk.unlisted("d", "denied");
    let (hint, warnings) = walk.finish().unwrap();
    assert_eq!(hint, 3);
    assert_eq!(
        warnings,
        ["skipped unreadable c: busy", "skipped unreadable d: denied"]
    );
}

#[test]
fn an_archive_has_exactly_one_root() {
    let names = |names: &[&str]| names.iter().map(|n| n.to_string()).collect::<Vec<_>>();
    assert_eq!(
        archive_root_basename(names(&[".", "dir", ".."])).unwrap(),
        "dir"
    );
    match archive_root_basename(names(&["alpha", "beta"])) {
        Err(Error::Message(m)) => {
            assert_eq!(m, "bad archive: expected exactly one top-level entry, found 2")
        }
        other => panic!("{other:?}"),
    }
    match archive_root_basename(names(&["."])) {
        Err(Error::Message(m)) => {
            assert_eq!(m, "bad archive: expected exactly one top-level entry, found 0")
        }
        other => panic!("{other:?}"),
    }
}

#[test]
fn destinations_are_only_replaced_by_force() {
    assert!(!clear_destination(false, false, "out/dir").unwrap());
    assert!(clear_destination(true, true, "out/dir").unwrap());
    match clear_destination(true, false, "out/dir") {
        Err(Error::DestExists(path)) => assert_eq!(path, "out/dir"),
        other => panic!("{other:?}"),
    }
    assert!(dest_exists(".", "."));
    assert!(!dest_exists(".", "no-such-entry-for-airgap-xfer"));
}

#[test]
fn destinations_are_looked_up_in_the_directory() {
    let missing = "no-such-entry-for-airgap-xfer";
    assert_eq!(look_up(".", "."), ("./.".to_string(), true));
    assert_eq!(look_up("out", missing), (format!("out/{missing}"), false));
    assert_eq!(look_up("out/", missing), (format!("out/{missing}"), false));
    assert_eq!(look_up("", missing), (missing.to_string(), false));
    assert_eq!(look_up("out", "/"), ("/".to_string(), true));
    assert_eq!(look_up("/", missing), (format!("/{missing}"), false));
}

#[test]
fn names_and_removals() {
    assert_eq!(archive_filename("dir"), "dir.tar.zst");
    assert_eq!(temp_name(12, 345), "airgap-xfer-12-345.tar.zst");
    assert_eq!(no_basename("/").message(), "path has no basename: /");
    assert_eq!(removal(&Removable::Directory), Removal::Tree);
    assert_eq!(removal(&Removable::Other), Removal::File);
    assert_eq!(removal(&Removable::Missing), Removal::Nothing);
    assert_eq!(removal(&Removable::Unknown("x".into())), Removal::Fail);
    assert_eq!(removal_warning("p", true, "gone"), None);
    assert_eq!(
        removal_warning("p", false, "busy").unwrap(),
        "warning: failed to remove temporary archive p: busy"
    );
}

fn completed(attempt: usize) -> Completed {
    Completed {
        session: Session {
            qr_version: 25,
            dwell_ms: 1,
            basename: "dir".into(),
            uncompressed_hint: 9,
            compressed_size: 7,
            chunk_count: 2,
            sha256: [0; 32],
        },
        attempt,
    }
}

#[test]
fn summaries() {
    assert_eq!(attempt_note(0), "");
    assert_eq!(attempt_note(2), ", attempt 3/10");
    assert_eq!(sent_summary(&completed(0)), "sent dir (7 B in 2 chunks at QR v25)");
    assert_eq!(
        sent_summary(&completed(1)),
        "sent dir (7 B in 2 chunks at QR v25, attempt 2/10)"
    );
    assert_eq!(
        received_summary(&completed(1), "out"),
        "received dir.tar.zst into out (unpacked dir), attempt 2/10"
    );
    assert_eq!(send_title("dir"), "airgap-xfer · SEND dir");
    assert_eq!(recv_title("out"), "airgap-xfer · RECV into out");
    assert_eq!(writing_line("dir"), "writing dir.tar.zst");
}

#[test]
fn the_sender_is_told_ok_only_when_everything_is_written() {
    assert_eq!(reply_for(&Ok(())), Payload::Okay);
    assert_eq!(
        reply_for(&Err(Error::Io {
            disk_full: true,
            text: "full".into()
        })),
        Payload::Fail { reason: FAIL_DISK }
    );
    assert_eq!(
        reply_for(&Err(Error::Io {
            disk_full: false,
            text: "denied".into()
        })),
        Payload::Fail {
            reason: FAIL_PROTOCOL
        }
    );
    assert_eq!(
        reply_for(&Err(Error::DestExists("x".into()))),
        Payload::Fail {
            reason: FAIL_PROTOCOL
        }
    );
}

#[test]
fn exit_codes() {
    assert_eq!(exit_code(&Ok(())), 0);
    assert_eq!(exit_code(&Err(Error::Interrupted)), 130);
    assert_eq!(exit_code(&Err(Error::Aborted)), 1);
    assert!(is_interrupted(&Err(Error::Interrupted)));
    assert!(!is_interrupted(&Err(Error::Aborted)));
}
