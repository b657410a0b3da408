use mate_rov::camera_sync::{CameraSync, FIRST_PORT};
use mate_rov::config::CameraDefinition;
use mate_rov::events::{latest_leak, peer_change, PeerChange};
use mate_rov::inertial_schedule::{SampleSchedule, INERTIAL_FRAMES, MAGNETIC_FRAMES, TICKS_PER_BATCH};

fn names(list: &[&str]) -> Vec<String> {
    list.iter().map(|s| s.to_string()).collect()
}

#[test]
fn cameras_found_without_peer_are_reported() {
    let mut sync = CameraSync::new();
    let plan = sync.resync(&names(&["/dev/video0", "/dev/video2", "/dev/video0"]));
    assert!(plan.stop.is_empty());
    assert!(plan.missing.is_empty());
    assert!(plan.start.is_empty());
    assert_eq!(plan.no_peer, names(&["/dev/video0", "/dev/video2"]));
    assert!(sync.camera_list().is_empty());
}

#[test]
fn peer_connection_starts_known_cameras_on_fresh_ports() {
    let mut sync = CameraSync::new();
    sync.resync(&names(&["/dev/video0", "/dev/video2"]));
    let plan = sync.peer_connected();
    assert!(plan.stop.is_empty());
    assert_eq!(plan.start, names(&["/dev/video0", "/dev/video2"]));
    assert!(sync.has_peer());
    for cam in plan.start {
        assert!(sync.next_port() < u16::MAX);
        sync.stream_started(cam);
    }
    assert_eq!(
        sync.camera_list(),
        vec![("/dev/video0".to_string(), FIRST_PORT), ("/dev/video2".to_string(), FIRST_PORT + 1)]
    );
    assert_eq!(sync.next_port(), FIRST_PORT + 2);
}

#[test]
fn resync_stops_gone_cameras_and_starts_new_ones() {
    let mut sync = CameraSync::new();
    sync.resync(&names(&["a", "b"]));
    sync.peer_connected();
    sync.stream_started("a".to_string());
    let plan = sync.resync(&names(&["b", "c"]));
    assert_eq!(plan.stop, names(&["a"]));
    assert!(plan.missing.is_empty());
    assert_eq!(plan.start, names(&["c"]));
    assert!(plan.no_peer.is_empty());
    assert!(sync.camera_list().is_empty());

    let plan = sync.resync(&names(&["c"]));
    // "b" never started streaming.
    assert!(plan.stop.is_empty());
    assert_eq!(plan.missing, names(&["b"]));
    assert!(plan.start.is_empty());
}

#[test]
fn restarted_stream_replaces_the_old_one() {
    let mut sync = CameraSync::new();
    sync.resync(&names(&["a"]));
    sync.peer_connected();
    sync.stream_started("a".to_string());
    sync.stream_started("a".to_string());
    assert_eq!(sync.camera_list(), vec![("a".to_string(), FIRST_PORT + 1)]);
}

#[test]
fn losing_the_peer_stops_everything() {
    let mut sync = CameraSync::new();
    sync.resync(&names(&["a", "b"]));
    sync.peer_connected();
    sync.stream_started("a".to_string());
    sync.stream_started("b".to_string());
    assert_eq!(sync.peer_lost(), names(&["a", "b"]));
    assert!(!sync.has_peer());
    assert!(sync.camera_list().is_empty());
    let plan = sync.resync(&names(&["a", "b", "d"]));
    assert_eq!(plan.no_peer, names(&["d"]));
    let again = sync.peer_connected();
    assert_eq!(again.start, names(&["a", "b", "d"]));
    sync.stream_started("d".to_string());
    assert_eq!(sync.shutdown(), names(&["d"]));
}

#[test]
fn sampling_schedule_of_the_robot() {
    let mut sched = SampleSchedule::new(TICKS_PER_BATCH, INERTIAL_FRAMES, MAGNETIC_FRAMES);
    let first = sched.step();
    assert!(!first.send_batch);
    assert_eq!(first.inertial_slot, Some(0));
    assert_eq!(first.mag_slot, Some(0));
    for k in 1..10 {
        let s = sched.step();
        assert!(!s.send_batch);
        assert_eq!(s.inertial_slot, Some(k));
        assert_eq!(s.mag_slot, None);
    }
    let next = sched.step();
    assert!(next.send_batch);
    assert_eq!(next.inertial_slot, Some(0));
    assert_eq!(next.mag_slot, Some(0));
}

#[test]
fn sampling_schedule_with_coarser_buffers() {
    let mut sched = SampleSchedule::new(12, 4, 3);
    let mut inertial = Vec::new();
    let mut mag = Vec::new();
    for _ in 0..12 {
        let s = sched.step();
        inertial.push(s.inertial_slot);
        mag.push(s.mag_slot);
    }
    assert_eq!(
        inertial,
        vec![Some(0), None, None, Some(1), None, None, Some(2), None, None, Some(3), None, None]
    );
    assert_eq!(
        mag,
        vec![Some(0), None, None, None, Some(1), None, None, None, Some(2), None, None, None]
    );
}

#[test]
fn latest_leak_wins() {
    assert_eq!(latest_leak(&vec![]), None);
    assert_eq!(latest_leak(&vec![true, false]), Some(false));
    assert_eq!(latest_leak(&vec![false, true]), Some(true));
}

#[test]
fn peer_changes() {
    assert_eq!(peer_change(false, 0), PeerChange::Unchanged);
    assert_eq!(peer_change(true, 0), PeerChange::Lost);
    assert_eq!(peer_change(true, 2), PeerChange::Connected(1));
    assert_eq!(peer_change(false, 1), PeerChange::Connected(0));
}

#[test]
fn camera_definition_keeps_its_name() {
    let def = CameraDefinition::new("Front".to_string());
    assert_eq!(def.name, "Front");
}

#[test]
fn nothing_is_handled_after_shutdown() {
    let mut sync = CameraSync::new();
    sync.resync(&names(&["a"]));
    sync.peer_connected();
    sync.stream_started("a".to_string());
    assert_eq!(sync.shutdown(), names(&["a"]));
    let plan = sync.peer_connected();
    assert!(plan.stop.is_empty() && plan.start.is_empty());
    let plan = sync.resync(&names(&["a", "b"]));
    assert!(plan.stop.is_empty() && plan.missing.is_empty());
    assert!(plan.start.is_empty() && plan.no_peer.is_empty());
    sync.stream_started("b".to_string());
    assert!(sync.camera_list().is_empty());
    assert!(sync.peer_lost().is_empty());
    assert!(sync.shutdown().is_empty());
}
