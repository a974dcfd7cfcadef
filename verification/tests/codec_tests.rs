use niri_session_manager::SessionError;
use niri_session_manager::codec::load_snapshot;
use niri_session_manager::codec::parse_snapshot;
use niri_session_manager::codec::serialize_snapshot;
use niri_session_manager::snapshot::LiveWindow;
use niri_session_manager::snapshot::TrackedWindow;
use niri_session_manager::snapshot::snapshot_from_live;

fn win(id: u64, app: &str, ws: Option<u64>, focused: bool) -> TrackedWindow {
    TrackedWindow {
        id,
        app_id: app.as_bytes().to_vec(),
        workspace_id: ws,
        is_focused: focused,
    }
}

fn pairs(snap: &[TrackedWindow]) -> Vec<(Vec<u8>, Option<u64>)> {
    let mut v: Vec<(Vec<u8>, Option<u64>)> = snap
        .iter()
        .map(|w| (w.app_id.clone(), w.workspace_id))
        .collect();
    v.sort();
    v.dedup();
    v
}

#[test]
fn load_save_load_keeps_pairs() {
    let content = br#"[
  {
    "id": 7,
    "app_id": "firefox",
    "workspace_id": 2,
    "is_focused": true
  },
  {
    "id": 9,
    "app_id": "kitty",
    "workspace_id": null,
    "is_focused": false
  }
]"#
        .to_vec();
    let first = load_snapshot(Some(&content)).expect("initial load");
    assert_eq!(first.len(), 2);
    let written = serialize_snapshot(&first);
    let second = load_snapshot(Some(&written)).expect("reload");
    assert_eq!(pairs(&first), pairs(&second));
    assert_eq!(second.len(), 2);
    assert_eq!(second[0].id, 7);
    assert_eq!(second[0].app_id, b"firefox".to_vec());
    assert_eq!(second[0].workspace_id, Some(2));
    assert!(second[0].is_focused);
    assert_eq!(second[1].workspace_id, None);
}

#[test]
fn missing_file_is_empty_snapshot() {
    let r = load_snapshot(None).expect("missing file loads");
    assert!(r.is_empty());
}

#[test]
fn empty_file_is_empty_snapshot() {
    let empty: Vec<u8> = Vec::new();
    let r = load_snapshot(Some(&empty)).expect("empty file loads");
    assert!(r.is_empty());

    let blank = b"  \n\t ".to_vec();
    let r = load_snapshot(Some(&blank)).expect("blank file loads");
    assert!(r.is_empty());
}

#[test]
fn not_json_is_corrupt() {
    let bad = b"not json".to_vec();
    assert_eq!(load_snapshot(Some(&bad)), Err(SessionError::CorruptSnapshot));
}

#[test]
fn empty_array_round_trip() {
    let snap: Vec<TrackedWindow> = Vec::new();
    let bytes = serialize_snapshot(&snap);
    assert_eq!(bytes, b"[]".to_vec());
    let back = parse_snapshot(&bytes).expect("parse []");
    assert!(back.is_empty());
    let spaced = b"[ ]".to_vec();
    assert!(parse_snapshot(&spaced).expect("parse [ ]").is_empty());
}

#[test]
fn escapes_round_trip() {
    let snap = vec![
        win(1, "quote\"back\\slash", Some(0), false),
        win(2, "tab\tnew\nret\rbell\u{7}", None, true),
        win(3, "unicode-\u{e9}\u{4e16}", Some(u64::MAX), false),
    ];
    let bytes = serialize_snapshot(&snap);
    let back = parse_snapshot(&bytes).expect("reparse escapes");
    assert_eq!(back.len(), 3);
    for (a, b) in snap.iter().zip(back.iter()) {
        assert_eq!(a.id, b.id);
        assert_eq!(a.app_id, b.app_id);
        assert_eq!(a.workspace_id, b.workspace_id);
        assert_eq!(a.is_focused, b.is_focused);
    }
}

#[test]
fn whitespace_tolerant_parse() {
    let content =
        b" [ { \"id\" : 1 , \"app_id\" : \"a\" , \"workspace_id\" : null , \"is_focused\" : false } ] "
            .to_vec();
    let snap = parse_snapshot(&content).expect("parse padded");
    assert_eq!(snap.len(), 1);
    assert_eq!(snap[0].app_id, b"a".to_vec());
}

#[test]
fn parse_rejects_malformed() {
    for bad in [
        &b"["[..],
        &b"[{]"[..],
        &b"[{\"id\":1}]"[..],
        &b"[{\"id\":1,\"app_id\":\"a\",\"workspace_id\":null,\"is_focused\":false}"[..],
        &b"[{\"id\":1,\"app_id\":\"a\",\"workspace_id\":null,\"is_focused\":false}]x"[..],
        &b"[{\"id\":18446744073709551616,\"app_id\":\"a\",\"workspace_id\":null,\"is_focused\":false}]"[..],
        &b"[{\"app_id\":\"a\",\"id\":1,\"workspace_id\":null,\"is_focused\":false}]"[..],
        &b"[{\"id\":1,\"app_id\":\"\x01\",\"workspace_id\":null,\"is_focused\":false}]"[..],
    ] {
        let content = bad.to_vec();
        assert_eq!(
            parse_snapshot(&content),
            Err(SessionError::CorruptSnapshot),
            "should reject {:?}",
            String::from_utf8_lossy(bad)
        );
    }
}

#[test]
fn largest_id_round_trip() {
    let snap = vec![win(u64::MAX, "x", Some(u64::MAX), true)];
    let bytes = serialize_snapshot(&snap);
    let back = parse_snapshot(&bytes).expect("reparse max");
    assert_eq!(back[0].id, u64::MAX);
    assert_eq!(back[0].workspace_id, Some(u64::MAX));
}

#[test]
fn snapshot_from_live_strips_and_defaults() {
    let live = vec![
        LiveWindow {
            id: 4,
            app_id: Some(b"zed".to_vec()),
            workspace_id: Some(3),
            is_focused: true,
        },
        LiveWindow { id: 5, app_id: None, workspace_id: None, is_focused: false },
    ];
    let snap = snapshot_from_live(&live);
    assert_eq!(snap.len(), 2);
    assert_eq!(snap[0].id, 4);
    assert_eq!(snap[0].app_id, b"zed".to_vec());
    assert_eq!(snap[1].app_id, Vec::<u8>::new());
    assert_eq!(snap[1].workspace_id, None);
}
