use quartz::server::ServerClock;
use quartz::server_ping::{load_server_status, status_frame};

#[test]
fn clock_sleeps_to_fill_the_tick() {
    let mut clock = ServerClock::new(50);
    assert_eq!(clock.micros_total(), 0);
    clock.start();
    assert_eq!(clock.record_tick(Some(20_000_000)), 30_000_000);
    assert_eq!(clock.micros_total(), 20_000);
    assert_eq!(clock.record_tick(Some(60_000_000)), 0);
    assert_eq!(clock.micros_total(), 80_000);
    assert_eq!(clock.record_tick(None), 50_000_000);
    assert_eq!(clock.micros_total(), 80_000);
}

#[test]
fn clock_keeps_the_last_hundred_readings() {
    let mut clock = ServerClock::new(50);
    for _ in 0..100 {
        clock.record_tick(Some(1_000_000));
    }
    assert_eq!(clock.micros_total(), 100_000);
    clock.record_tick(Some(3_000_000));
    assert_eq!(clock.micros_total(), 102_000);
}

#[test]
fn clock_finish_tick_bounded() {
    let mut clock = ServerClock::new(50);
    clock.start();
    let sleep = clock.finish_tick();
    assert!(sleep <= 50_000_000);
}

#[test]
fn status_response_fields() {
    let status = load_server_status(20, 3, &"A server".to_string());
    assert_eq!(status.version.name, "Redstone 1.15.2");
    assert_eq!(status.version.protocol, 578);
    assert_eq!(status.players.max, 20);
    assert_eq!(status.players.online, 3);
    assert!(status.players.sample.is_empty());
    assert_eq!(status.description.text, "A server");
}

#[test]
fn status_frame_layout() {
    let json = b"{}";
    let frame = status_frame(json);
    assert_eq!(frame.len(), 1024);
    assert_eq!(&frame[..6], &[4, 0, 2, b'{', b'}', 0]);
    let long = vec![b'x'; 200];
    let frame = status_frame(&long);
    // length 1 + 2 + 200 = 203 = 0xCB 0x01
    assert_eq!(&frame[..5], &[0xCB, 0x01, 0x00, 0xC8, 0x01]);
    assert_eq!(frame[5], b'x');
    assert_eq!(frame[204], b'x');
    assert_eq!(frame[205], 0);
}

#[test]
fn legacy_ping_answer() {
    let r = quartz::server_ping::legacy_ping_response("1.15.2", "Hi \u{1F600}", 20);
    assert_eq!(
        r,
        vec![
            255, 0, 24, 0, 167, 0, 49, 0, 0, 0, 56, 0, 55, 0, 53, 0, 0, 0, 49, 0, 46, 0, 49, 0, 53, 0, 46, 0,
            50, 0, 0, 0, 72, 0, 105, 0, 32, 216, 61, 222, 0, 0, 0, 0, 48, 0, 0, 0, 50, 0, 48
        ]
    );
}
