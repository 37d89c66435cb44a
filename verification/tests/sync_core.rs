//! End-to-end tests of the verified core: codec round trips, path
//! translation, event classification, and the session state machine.

use cc_ftp::codec::{decode, encode};
use cc_ftp::events::{change_event_packet, sync_event_packet, FsEventKind};
use cc_ftp::packet::{CCFile, CCFsFile, CCPartialFile, PacketTypes, WsPacket};
use cc_ftp::session::{Action, Session};
use cc_ftp::start_script;
use cc_ftp::wirepath::{join_from, to_local, to_wire};

fn file(name: &str, data: &str, read_only: bool) -> CCFsFile {
    CCFsFile { name: name.to_string(), data: data.to_string(), read_only }
}

fn segs(parts: &[&str]) -> Vec<String> {
    parts.iter().map(|s| s.to_string()).collect()
}

fn round_trip(p: PacketTypes) -> PacketTypes {
    let frame = encode(&WsPacket::new(p));
    decode(&frame).expect("frame must decode").packet
}

#[test]
fn codec_round_trips_every_variant() {
    let variants = vec![
        PacketTypes::S2cHb,
        PacketTypes::S2cSync,
        PacketTypes::S2cSyncF(file("a/b.txt", "hello", false)),
        PacketTypes::C2sHb,
        PacketTypes::C2sSync(CCFile::Full(file("x.lua", "print(1)", false))),
        PacketTypes::C2sSync(CCFile::Partial(CCPartialFile(file("y.txt", "chunk", true), true))),
        PacketTypes::C2sComp(7),
        PacketTypes::C2sComp(0),
        PacketTypes::C2sComp(u32::MAX),
        PacketTypes::C2sReady,
    ];
    for p in variants {
        assert_eq!(round_trip(p.clone()), p);
    }
}

#[test]
fn codec_round_trips_awkward_text() {
    let p = PacketTypes::S2cSyncF(file("we ird/na\"me", "line1\nline2\t\"quoted\" \\slash\\", true));
    assert_eq!(round_trip(p.clone()), p);
    let empty = PacketTypes::S2cSyncF(file("", "", false));
    assert_eq!(round_trip(empty.clone()), empty);
}

#[test]
fn encoded_frame_is_gzipped_canonical_json() {
    let frame = encode(&WsPacket::new(PacketTypes::S2cHb));
    let mut dec = flate2::read::GzDecoder::new(&frame[..]);
    let mut text = String::new();
    std::io::Read::read_to_string(&mut dec, &mut text).expect("valid gzip");
    assert_eq!(text, "{\"p\":\"S2cHb\"}");

    let frame = encode(&WsPacket::new(PacketTypes::C2sComp(7)));
    let mut dec = flate2::read::GzDecoder::new(&frame[..]);
    let mut text = String::new();
    std::io::Read::read_to_string(&mut dec, &mut text).expect("valid gzip");
    assert_eq!(text, "{\"p\":{\"C2sComp\":7}}");
}

#[test]
fn decode_rejects_garbage_and_truncation() {
    assert!(decode(&vec![1u8, 2, 3, 4]).is_err());
    assert!(decode(&Vec::new()).is_err());
    let mut frame = encode(&WsPacket::new(PacketTypes::C2sReady));
    frame.truncate(frame.len() / 2);
    assert!(decode(&frame).is_err());
}

#[test]
fn path_round_trip_is_stable() {
    let root = segs(&[".", "comp", "3"]);
    let name = "a/b.txt".to_string();
    let local = to_local(&name, &root).expect("accepted name");
    assert_eq!(local, segs(&[".", "comp", "3", "a", "b.txt"]));
    let wire = to_wire(&local, root.len());
    assert_eq!(wire, "a/b.txt");
    let again = to_local(&wire, &root).expect("round trip stays accepted");
    assert_eq!(again, local);
}

#[test]
fn path_rejects_traversal_and_empty_segments() {
    let root = segs(&[".", "comp", "0"]);
    assert!(to_local(&"../x".to_string(), &root).is_none());
    assert!(to_local(&"a/../b".to_string(), &root).is_none());
    assert!(to_local(&"a//b".to_string(), &root).is_none());
    assert!(to_local(&"/a".to_string(), &root).is_none());
    assert!(to_local(&"a/".to_string(), &root).is_none());
    assert!(to_local(&"".to_string(), &root).is_none());
    assert!(to_local(&"..".to_string(), &root).is_none());
}

#[test]
fn join_uses_wire_separator() {
    let p = segs(&[".", "comp", "7", "x.lua"]);
    assert_eq!(join_from(&p, 0), "./comp/7/x.lua");
    assert_eq!(join_from(&p, 3), "x.lua");
}

#[test]
fn created_file_event_carries_content() {
    let root = segs(&["w"]);
    let abs = segs(&["w", "a", "b.txt"]);
    let p = change_event_packet(&abs, &root, FsEventKind::Created, false, "hello".to_string());
    match p {
        Some(PacketTypes::S2cSyncF(f)) => {
            assert_eq!(f.name, "a/b.txt");
            assert_eq!(f.data, "hello");
            assert!(!f.read_only);
        },
        other => panic!("unexpected packet {:?}", other),
    }
}

#[test]
fn removed_event_is_empty_read_only() {
    let root = segs(&["w"]);
    let abs = segs(&["w", "a", "b.txt"]);
    let p = change_event_packet(&abs, &root, FsEventKind::Removed, false, String::new());
    match p {
        Some(PacketTypes::S2cSyncF(f)) => {
            assert_eq!(f.name, "a/b.txt");
            assert_eq!(f.data, "");
            assert!(f.read_only);
        },
        other => panic!("unexpected packet {:?}", other),
    }
}

#[test]
fn directory_event_sends_marker() {
    let p = sync_event_packet(FsEventKind::Modified, true, "a/d".to_string(), String::new());
    match p {
        Some(PacketTypes::S2cSyncF(f)) => {
            assert_eq!(f.data, "dir");
            assert!(f.read_only);
        },
        other => panic!("unexpected packet {:?}", other),
    }
}

#[test]
fn events_outside_root_and_other_kinds_are_dropped() {
    let root = segs(&["w"]);
    let outside = segs(&["elsewhere", "b.txt"]);
    assert!(change_event_packet(&outside, &root, FsEventKind::Created, false, String::new())
        .is_none());
    let abs = segs(&["w", "b.txt"]);
    assert!(change_event_packet(&abs, &root, FsEventKind::Other, false, String::new()).is_none());
    // The root itself is not under the root.
    assert!(change_event_packet(&root, &root, FsEventKind::Created, true, String::new()).is_none());
}

#[test]
fn bind_then_full_writes_under_workspace() {
    let mut s = Session::new(0);
    let acts = s.handle_packet(0, PacketTypes::C2sComp(7));
    assert!(matches!(&acts[..], [Action::EnsureDir(d)] if d == "./comp/7"));
    let acts = s.handle_packet(
        0,
        PacketTypes::C2sSync(CCFile::Full(file("x.lua", "print(1)", false))),
    );
    assert_eq!(acts.len(), 2);
    assert!(matches!(&acts[0], Action::EnsureDir(d) if d == "./comp/7"));
    assert!(
        matches!(&acts[1], Action::WriteFull { path, data } if path == "./comp/7/x.lua" && data == "print(1)")
    );
}

#[test]
fn full_with_traversal_name_is_rejected() {
    let mut s = Session::new(0);
    let acts = s.handle_packet(
        0,
        PacketTypes::C2sSync(CCFile::Full(file("../esc", "boom", false))),
    );
    assert!(acts.is_empty());
}

#[test]
fn partial_chunks_accumulate_in_order() {
    let mut s = Session::new(0);
    let acts = s.handle_packet(
        0,
        PacketTypes::C2sSync(CCFile::Partial(CCPartialFile(file("big.txt", "ab", false), false))),
    );
    assert!(matches!(&acts[0], Action::EnsureDir(d) if d == "./comp/0"));
    assert!(
        matches!(&acts[1], Action::OpenHandle { name, path } if name == "big.txt" && path == "./comp/0/big.txt")
    );
    assert!(matches!(&acts[2], Action::AppendHandle { data, .. } if data == "ab"));
    assert_eq!(acts.len(), 3);
    assert_eq!(s.parts.len(), 1);

    let acts = s.handle_packet(
        0,
        PacketTypes::C2sSync(CCFile::Partial(CCPartialFile(file("big.txt", "cd", false), true))),
    );
    assert!(
        matches!(&acts[0], Action::AppendHandle { name, path, data }
            if name == "big.txt" && path == "./comp/0/big.txt" && data == "cd")
    );
    assert!(matches!(&acts[1], Action::CloseHandle { name } if name == "big.txt"));
    assert_eq!(acts.len(), 2);
    assert!(s.parts.is_empty());
}

#[test]
fn single_done_chunk_opens_and_closes() {
    let mut s = Session::new(0);
    let acts = s.handle_packet(
        0,
        PacketTypes::C2sSync(CCFile::Partial(CCPartialFile(file("one.txt", "x", false), true))),
    );
    assert_eq!(acts.len(), 4);
    assert!(matches!(&acts[3], Action::CloseHandle { name } if name == "one.txt"));
    assert!(s.parts.is_empty());
}

#[test]
fn heartbeat_updates_timestamp_silently() {
    let mut s = Session::new(1);
    let acts = s.handle_packet(42, PacketTypes::C2sHb);
    assert!(acts.is_empty());
    assert_eq!(s.last_hb, 42);
}

#[test]
fn heartbeat_timeout_closes_session() {
    let mut s = Session::new(100);
    let acts = s.hb_tick(110);
    assert!(matches!(&acts[..], [Action::Send(PacketTypes::S2cHb)]));
    assert!(!s.closed);
    let acts = s.hb_tick(111);
    assert!(matches!(acts.last(), Some(Action::CloseConnection)));
    assert!(s.closed);
}

#[test]
fn ready_activates_watch_on_bound_workspace() {
    let mut s = Session::new(0);
    s.handle_packet(0, PacketTypes::C2sComp(5));
    let acts = s.handle_packet(0, PacketTypes::C2sReady);
    assert!(matches!(&acts[..], [Action::Watch(d)] if d == "./comp/5"));
    assert!(s.watch_active);
}

#[test]
fn transport_close_releases_watch_and_handles() {
    let mut s = Session::new(0);
    s.handle_packet(0, PacketTypes::C2sReady);
    s.handle_packet(
        0,
        PacketTypes::C2sSync(CCFile::Partial(CCPartialFile(file("t.txt", "x", false), false))),
    );
    let acts = s.on_transport_close();
    assert_eq!(acts.len(), 2);
    assert!(matches!(&acts[0], Action::CloseHandle { name } if name == "t.txt"));
    assert!(matches!(&acts[1], Action::Unwatch(d) if d == "./comp/0"));
    assert!(s.closed);
    assert!(s.parts.is_empty());
    assert!(!s.watch_active);
}

#[test]
fn session_start_announces_fresh_sync() {
    let s = Session::new(0);
    let acts = s.on_start();
    assert!(matches!(&acts[..], [Action::Send(PacketTypes::S2cSync)]));
}

#[test]
fn unparseable_frame_closes_without_sending() {
    let mut s = Session::new(0);
    let acts = s.handle_frame(0, &vec![0xde, 0xad, 0xbe, 0xef]);
    assert!(matches!(acts.last(), Some(Action::CloseConnection)));
    assert!(acts.iter().all(|a| !matches!(a, Action::Send(_))));
    assert!(s.closed);
}

#[test]
fn server_direction_packet_from_client_closes() {
    let mut s = Session::new(0);
    let frame = encode(&WsPacket::new(PacketTypes::S2cHb));
    let acts = s.handle_frame(0, &frame);
    assert!(matches!(acts.last(), Some(Action::CloseConnection)));
    assert!(s.closed);
}

#[test]
fn valid_frame_is_dispatched() {
    let mut s = Session::new(0);
    let frame = encode(&WsPacket::new(PacketTypes::C2sComp(9)));
    let acts = s.handle_frame(0, &frame);
    assert!(matches!(&acts[..], [Action::EnsureDir(d)] if d == "./comp/9"));
    assert_eq!(s.comp_id, 9);
    assert!(!s.closed);
}

#[test]
fn start_script_embeds_address_twice() {
    let out = start_script(&"10.0.0.2:8080".to_string());
    assert_eq!(
        out,
        "shell.run('wget run http://10.0.0.2:8080/init.lua 10.0.0.2:8080')"
    );
}
