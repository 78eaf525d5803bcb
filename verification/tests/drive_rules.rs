use send2me::drive::{
    DriveCommand, DriveEngine, DriveEvent, DriveFileMeta, DriveMessage, DriveRoom, GuestSession,
    VirtualFile,
};

fn vf(id: &str, name: &str, size: u64, path: &str) -> VirtualFile {
    VirtualFile {
        meta: DriveFileMeta { id: id.to_string(), name: name.to_string(), size, is_folder: false, added_at: 1 },
        absolute_path: path.to_string(),
    }
}

#[test]
fn room_opens_shares_and_closes() {
    let mut room = DriveRoom::new();
    assert!(!room.admits_connection());
    room.start_room();
    assert!(room.admits_connection());
    let guest = "10.0.0.2:5000".to_string();
    match room.guest_joined(&guest) {
        DriveEvent::GuestConnected { node_id, name } => {
            assert_eq!(node_id, guest);
            assert_eq!(name, "Guest Device");
        }
        other => panic!("unexpected {:?}", other),
    }
    assert_eq!(room.add_virtual_file(vf("f1", "a.txt", 3, "/x/a.txt")), 1);
    assert_eq!(room.add_virtual_file(vf("f1", "b.txt", 4, "/x/b.txt")), 1);
    assert_eq!(room.files.len(), 1);
    assert_eq!(room.files[0].meta.name, "b.txt");
    let kicked = room.close_room();
    assert_eq!(kicked, vec![guest]);
    assert!(!room.is_online && room.guests.is_empty() && room.pending_requests.is_empty());
    assert_eq!(room.files.len(), 1);
    assert_eq!(room.remove_virtual_file(&"f1".to_string()), 0);
    assert!(room.files.is_empty());
}

#[test]
fn guest_requests_are_recorded_and_shown() {
    let mut room = DriveRoom::new();
    room.start_room();
    room.add_virtual_file(vf("f1", "a.txt", 3, "/x/a.txt"));
    let guest = "g".to_string();
    let chat = "c1".to_string();
    let r = room.on_guest_message(&guest, DriveMessage::ListRequest, 5, &chat);
    match r.reply {
        Some(DriveMessage::ListResponse { files }) => assert_eq!(files[0].id, "f1"),
        other => panic!("unexpected {:?}", other),
    }
    let r = room.on_guest_message(
        &guest,
        DriveMessage::DownloadRequest { request_id: "r1".to_string(), file_id: "nope".to_string() },
        5,
        &chat,
    );
    assert!(r.event.is_none() && room.pending_requests.is_empty());
    let r = room.on_guest_message(
        &guest,
        DriveMessage::DownloadRequest { request_id: "r1".to_string(), file_id: "f1".to_string() },
        7,
        &chat,
    );
    match r.event {
        Some(DriveEvent::RequestReceived { request_id, request_type, file_name, file_size, target_file_id, .. }) => {
            assert_eq!((request_id.as_str(), request_type.as_str(), file_name.as_str(), file_size), ("r1", "Download", "a.txt", 3));
            assert_eq!(target_file_id.as_deref(), Some("f1"));
        }
        other => panic!("unexpected {:?}", other),
    }
    assert_eq!(room.pending_requests.len(), 1);
    assert_eq!(room.pending_requests[0].timestamp, 7);
    room.on_guest_message(
        &guest,
        DriveMessage::UploadRequest { request_id: "r2".to_string(), file_name: "up.bin".to_string(), file_size: 9 },
        8,
        &chat,
    );
    assert_eq!(room.pending_requests.len(), 2);
    assert_eq!(room.pending_requests[1].request_type, "Upload");
    let r = room.on_guest_message(
        &guest,
        DriveMessage::ChatMessage { sender_id: "g".into(), sender_name: "Ann".into(), content: "hi".into(), timestamp: 1 },
        9,
        &chat,
    );
    match r.event {
        Some(DriveEvent::ChatMessageReceived { id, sender_name, content, is_host }) => {
            assert_eq!((id.as_str(), sender_name.as_str(), content.as_str(), is_host), ("c1", "Ann", "hi", false));
        }
        other => panic!("unexpected {:?}", other),
    }
}

#[test]
fn host_decisions() {
    let mut room = DriveRoom::new();
    room.start_room();
    room.add_virtual_file(vf("f1", "a.txt", 3, "/x/a.txt"));
    let guest = "g".to_string();
    let chat = "c".to_string();
    room.on_guest_message(&guest, DriveMessage::DownloadRequest { request_id: "r1".into(), file_id: "f1".into() }, 1, &chat);
    room.on_guest_message(&guest, DriveMessage::UploadRequest { request_id: "r2".into(), file_name: "u".into(), file_size: 1 }, 1, &chat);
    let r = room.on_host_command(DriveCommand::ApproveRequest("r1".into()));
    assert_eq!(r.push_file, Some(("r1".to_string(), "/x/a.txt".to_string(), "a.txt".to_string())));
    assert!(matches!(r.reply, Some(DriveMessage::RequestDecision { ref request_id, approved: true }) if request_id == "r1"));
    let r = room.on_host_command(DriveCommand::ApproveRequest("r2".into()));
    assert!(r.push_file.is_none());
    assert!(matches!(r.reply, Some(DriveMessage::RequestDecision { approved: true, .. })));
    let r = room.on_host_command(DriveCommand::ApproveRequest("unknown".into()));
    assert!(r.reply.is_none() && r.push_file.is_none());
    let r = room.on_host_command(DriveCommand::DenyRequest("r9".into()));
    assert!(matches!(r.reply, Some(DriveMessage::RequestDecision { approved: false, .. })));
    assert!(room.on_host_command(DriveCommand::Kick).end_session);
    assert!(matches!(room.on_host_command(DriveCommand::RefreshFiles).reply, Some(DriveMessage::ListResponse { .. })));
    assert!(room.on_host_command(DriveCommand::RequestDownload("f1".into())).reply.is_none());
}

#[test]
fn guest_uploads_follow_decisions() {
    let mut g = GuestSession::new();
    g.upload_requested("r1".to_string(), "/home/me/a.bin".to_string());
    g.upload_requested("r2".to_string(), "/home/me/b.bin".to_string());
    let d = g.on_decision("r1".to_string(), true);
    assert_eq!(d.upload.as_deref(), Some("/home/me/a.bin"));
    assert!(matches!(d.event, DriveEvent::GuestDownloadDecision { approved: true, .. }));
    let d = g.on_decision("r2".to_string(), false);
    assert!(d.upload.is_none());
    assert!(g.pending_uploads.is_empty());
    let d = g.on_decision("r3".to_string(), true);
    assert!(d.upload.is_none());
}

#[test]
fn guest_leaves() {
    let mut room = DriveRoom::new();
    room.start_room();
    room.guest_joined(&"a".to_string());
    room.guest_joined(&"b".to_string());
    room.guest_joined(&"a".to_string());
    assert_eq!(room.guests.len(), 2);
    assert_eq!(
        room.guests,
        vec![
            ("b".to_string(), "Guest Device".to_string()),
            ("a".to_string(), "Guest Device".to_string())
        ]
    );
    assert!(matches!(room.guest_left(&"a".to_string()), DriveEvent::GuestDisconnected { ref node_id } if node_id == "a"));
    assert_eq!(room.guests.len(), 1);
}

#[test]
fn header_framing() {
    assert_eq!(DriveEngine::frame_header(b"{}"), vec![0, 0, 0, 2, b'{', b'}']);
}
