use accelerator::curve::Curve;
use accelerator::engine::Engine;
use accelerator::event::{EventCode, RawEvent, ReadMode, ReadStatus, SyncState, TimeVal};

const U: i64 = 1_000_000;

fn at(sec: i64, usec: i64) -> TimeVal {
    TimeVal { sec, usec }
}

fn ev(time: TimeVal, code: EventCode, value: i32) -> RawEvent {
    RawEvent { time, code, value }
}

fn normal(e: &mut Engine, event: RawEvent) -> Vec<RawEvent> {
    e.on_read(ReadStatus::Normal, event)
}

fn frame(e: &mut Engine, time: TimeVal, x: i32, y: i32) -> Vec<RawEvent> {
    assert!(normal(e, ev(time, EventCode::RelX, x)).is_empty());
    assert!(normal(e, ev(time, EventCode::RelY, y)).is_empty());
    normal(e, ev(time, EventCode::SynReport, 0))
}

fn same_frame_state(a: &Engine, b: &Engine) -> bool {
    a.x == b.x && a.y == b.y && a.carry_x == b.carry_x && a.carry_y == b.carry_y
        && a.last_frame == b.last_frame && a.curve == b.curve
}

#[test]
fn frame_scenario_sixteen_ms() {
    let mut e = Engine::new(Curve::new(U, 10_000, None, 0).unwrap());
    let t0 = at(100, 0);
    let out = normal(&mut e, ev(t0, EventCode::SynReport, 0));
    assert_eq!(out.len(), 3);
    assert_eq!(e.last_frame, Some(t0));
    let t1 = at(100, 16_000);
    assert_eq!(e.scale(t1), U);
    let out = frame(&mut e, t1, 10, 0);
    assert_eq!(
        out,
        vec![
            ev(t1, EventCode::RelX, 10),
            ev(t1, EventCode::RelY, 0),
            ev(t1, EventCode::SynReport, 0),
        ]
    );
    assert_eq!(e.carry_x, 62_500);
    assert_eq!(e.carry_y, 0);
    assert_eq!((e.x, e.y), (0, 0));
    assert_eq!(e.last_frame, Some(t1));
}

#[test]
fn scale_in_scenario_frame() {
    let mut e = Engine::new(Curve::new(U, 10_000, None, 0).unwrap());
    normal(&mut e, ev(at(100, 0), EventCode::SynReport, 0));
    normal(&mut e, ev(at(100, 1), EventCode::RelX, 10));
    normal(&mut e, ev(at(100, 2), EventCode::RelY, 0));
    assert_eq!(e.scale(at(100, 16_000)), 1_006_250);
}

#[test]
fn first_frame_uses_mult_times_cap() {
    let mut e = Engine::new(Curve::new(2 * U, 10_000, Some(3 * U), 5 * U).unwrap());
    let t = at(50, 10);
    assert_eq!(e.scale(t), 6 * U);
    let out = frame(&mut e, t, 3, -2);
    assert_eq!(out[0], ev(t, EventCode::RelX, 18));
    assert_eq!(out[1], ev(t, EventCode::RelY, -12));
}

#[test]
fn non_increasing_clock_uses_mult_times_cap() {
    let mut e = Engine::new(Curve::new(2 * U, 0, Some(3 * U), 0).unwrap());
    frame(&mut e, at(10, 500), 0, 0);
    assert_eq!(e.scale(at(10, 500)), 6 * U);
    assert_eq!(e.scale(at(10, 400)), 6 * U);
    assert_eq!(e.scale(at(10, 501)), 2 * U);
}

#[test]
fn conservation_with_incoming_carry() {
    let curve = Curve::new(1_500_000, 0, None, 0).unwrap();
    let mut e = Engine::new(curve);
    e.last_frame = Some(at(1, 0));
    e.carry_x = 300_000;
    e.carry_y = -200_000;
    let t = at(1, 8_000);
    let out = frame(&mut e, t, 5, -3);
    // 1.5 * 5.3 = 7.95 and 1.5 * -3.2 = -4.8
    assert_eq!(out[0].value, 8);
    assert_eq!(e.carry_x, -50_000);
    assert_eq!(out[1].value, -5);
    assert_eq!(e.carry_y, 200_000);
    assert_eq!(out[0].value as i64 * U + e.carry_x, 7_950_000);
    assert_eq!(out[1].value as i64 * U + e.carry_y, -4_800_000);
}

#[test]
fn carries_stay_within_half() {
    let mut e = Engine::new(Curve::new(1_337_000, 12_345, Some(4 * U), 250_000).unwrap());
    let mut usec: i64 = 0;
    for i in 0..500i32 {
        usec += 1_000 + (i as i64 % 17) * 700;
        let x = (i * 37 % 23) - 11;
        let y = (i * 53 % 19) - 9;
        let out = frame(&mut e, at(7, usec), x, y);
        assert_eq!(out.len(), 3);
        assert!(e.carry_x > -500_000 && e.carry_x <= 500_000);
        assert!(e.carry_y > -500_000 && e.carry_y <= 500_000);
    }
}

#[test]
fn carry_dropped_for_axis_without_event() {
    let mut e = Engine::new(Curve::new(U, 0, None, 0).unwrap());
    e.last_frame = Some(at(0, 0));
    e.carry_x = 400_000;
    let out = normal(&mut e, ev(at(0, 10_000), EventCode::SynReport, 0));
    assert_eq!(out[0].value, 0);
    assert_eq!(e.carry_x, 0);
}

#[test]
fn same_axis_overwrites() {
    let mut e = Engine::new(Curve::new(U, 0, None, 0).unwrap());
    normal(&mut e, ev(at(0, 0), EventCode::RelX, 4));
    normal(&mut e, ev(at(0, 1), EventCode::RelX, 6));
    assert_eq!(e.x, 6 * U);
}

#[test]
fn sync_loss_then_frame_matches_frame_alone() {
    let curve = Curve::new(U, 10_000, Some(2 * U), 0).unwrap();
    let mut a = Engine::new(curve);
    let mut b = Engine::new(curve);
    frame(&mut a, at(3, 0), 7, 2);
    frame(&mut b, at(3, 0), 7, 2);
    let lost = b.on_read(ReadStatus::SyncLoss, ev(at(3, 5_000), EventCode::RelX, 99));
    assert!(lost.is_empty());
    assert_eq!(b.sync, SyncState::Resyncing);
    assert_eq!(b.read_mode(), ReadMode::Sync);
    assert!(same_frame_state(&a, &b));
    let out_a = frame(&mut a, at(3, 9_000), -4, 11);
    let out_b = frame(&mut b, at(3, 9_000), -4, 11);
    assert_eq!(out_a, out_b);
    assert!(same_frame_state(&a, &b));
    assert_eq!(b.sync, SyncState::Normal);
    assert_eq!(b.read_mode(), ReadMode::Normal);
}

#[test]
fn pass_through_unchanged() {
    let mut e = Engine::new(Curve::new(U, 10_000, None, 0).unwrap());
    normal(&mut e, ev(at(1, 0), EventCode::RelX, 3));
    let before = e;
    let button = ev(at(1, 2), EventCode::Other { kind: 1, code: 272 }, 1);
    let out = normal(&mut e, button);
    assert_eq!(out, vec![button]);
    assert!(same_frame_state(&before, &e));
}

#[test]
fn read_mode_starts_normal() {
    let e = Engine::new(Curve::new(U, 0, None, 0).unwrap());
    assert_eq!(e.read_mode(), ReadMode::Normal);
    assert_eq!(e.sync, SyncState::Normal);
}

#[test]
fn emitted_counts_saturate() {
    let mut e = Engine::new(Curve::new(1_000_000_000_000, 0, Some(1_000_000_000_000), 0).unwrap());
    let out = frame(&mut e, at(0, 0), i32::MAX, i32::MIN);
    assert_eq!(out[0].value, i32::MAX);
    assert_eq!(out[1].value, i32::MIN);
}

#[test]
fn process_matches_reads_one_by_one() {
    let curve = Curve::new(1_200_000, 20_000, Some(3 * U), 100_000).unwrap();
    let reads = vec![
        (ReadStatus::Normal, ev(at(2, 0), EventCode::SynReport, 0)),
        (ReadStatus::Normal, ev(at(2, 100), EventCode::RelX, 5)),
        (ReadStatus::Normal, ev(at(2, 200), EventCode::Other { kind: 1, code: 273 }, 0)),
        (ReadStatus::SyncLoss, ev(at(2, 300), EventCode::RelY, 8)),
        (ReadStatus::Normal, ev(at(2, 400), EventCode::RelY, -8)),
        (ReadStatus::Normal, ev(at(2, 8_000), EventCode::SynReport, 0)),
    ];
    let mut a = Engine::new(curve);
    let all = a.process(&reads);
    let mut b = Engine::new(curve);
    let mut each = Vec::new();
    for (s, r) in &reads {
        each.extend(b.on_read(*s, *r));
    }
    assert_eq!(all, each);
    assert_eq!(all.len(), 7);
    assert!(same_frame_state(&a, &b));
}
