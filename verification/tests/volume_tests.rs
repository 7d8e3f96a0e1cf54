use remote_ctl::events::{InjectorOp, InputEvent, KeyboardAction, KeyboardEvent, Key, MouseEvent,
    MouseMoveEvent, MouseMoveOrigin};
use remote_ctl::volume::{AudioError, DeciBel, LinVolt, VolumeLevel, VolumeRange};

const MICRO: i64 = 1_000_000;

/// A typical render-endpoint range: -96 dB to 0 dB in 0.5 dB steps.
fn range() -> VolumeRange {
    VolumeRange::new(DeciBel(-96 * MICRO), DeciBel(0), DeciBel(MICRO / 2)).unwrap()
}

#[test]
fn fraction_of_fraction_is_identity() {
    let r = range();
    for f in [0i64, 1, 250_000, 500_000, 999_999, MICRO] {
        assert_eq!(VolumeLevel::Frac(f).to_fraction(r.min_db, r.max_db), f);
    }
}

#[test]
fn fraction_is_clamped_for_out_of_range_levels() {
    let r = range();
    // A decibel value far above the range's ceiling.
    let f = VolumeLevel::Log(DeciBel(170 * MICRO)).to_fraction(r.min_db, r.max_db);
    assert_eq!(f, MICRO);
    // A decibel value far below the range's floor.
    let f = VolumeLevel::Log(DeciBel(-170 * MICRO)).to_fraction(r.min_db, r.max_db);
    assert_eq!(f, 0);
    // Out-of-range fractions are clamped too.
    assert_eq!(VolumeLevel::Frac(5 * MICRO).to_fraction(r.min_db, r.max_db), MICRO);
    assert_eq!(VolumeLevel::Frac(-5 * MICRO).to_fraction(r.min_db, r.max_db), 0);
}

#[test]
fn zero_decibel_is_one_volt() {
    let r = range();
    // 10^(0/20) = 1 exactly, even in fixed point.
    let lin = VolumeLevel::Log(DeciBel(0)).to_linear(r.min_db, r.max_db);
    assert_eq!(lin, LinVolt(MICRO));
}

#[test]
fn one_volt_is_zero_decibel() {
    let r = range();
    // 20*log10(1) = 0 exactly, even in fixed point.
    let db = VolumeLevel::Lin(LinVolt(MICRO)).to_db(r.min_db, r.max_db);
    assert_eq!(db, DeciBel(0));
}

#[test]
fn two_volts_is_six_decibel() {
    // 20*log10(2) in micro-decibel, against a range whose ceiling admits it.
    let db = VolumeLevel::Lin(LinVolt(2 * MICRO)).to_db(DeciBel(-96 * MICRO), DeciBel(20 * MICRO));
    assert_eq!(db, DeciBel(6_020_600));
}

#[test]
fn decibel_conversion_clamps_into_range() {
    let r = range();
    assert_eq!(VolumeLevel::Log(DeciBel(10 * MICRO)).to_db(r.min_db, r.max_db), DeciBel(0));
    assert_eq!(
        VolumeLevel::Log(DeciBel(-120 * MICRO)).to_db(r.min_db, r.max_db),
        DeciBel(-96 * MICRO)
    );
    assert_eq!(
        VolumeLevel::Log(DeciBel(-20_500_000)).to_db(r.min_db, r.max_db),
        DeciBel(-20_500_000)
    );
}

#[test]
fn non_positive_volts_map_to_the_floor() {
    let r = range();
    assert_eq!(VolumeLevel::Lin(LinVolt(0)).to_db(r.min_db, r.max_db), DeciBel(-96 * MICRO));
    assert_eq!(VolumeLevel::Lin(LinVolt(-5)).to_db(r.min_db, r.max_db), DeciBel(-96 * MICRO));
}

#[test]
fn fraction_endpoints_hit_the_linear_bounds() {
    let r = range();
    let floor = VolumeLevel::Log(r.min_db).to_linear(r.min_db, r.max_db);
    let ceiling = VolumeLevel::Log(r.max_db).to_linear(r.min_db, r.max_db);
    assert_eq!(VolumeLevel::Frac(0).to_linear(r.min_db, r.max_db), floor);
    assert_eq!(VolumeLevel::Frac(MICRO).to_linear(r.min_db, r.max_db), ceiling);
}

#[test]
fn range_validation() {
    assert!(VolumeRange::new(DeciBel(-96 * MICRO), DeciBel(0), DeciBel(MICRO)).is_ok());
    // Inverted bounds are a fatal initialization error.
    assert_eq!(
        VolumeRange::new(DeciBel(0), DeciBel(-96 * MICRO), DeciBel(MICRO)),
        Err(AudioError::Initialization)
    );
    // A step wider than the range is a fatal initialization error.
    assert_eq!(
        VolumeRange::new(DeciBel(-MICRO), DeciBel(0), DeciBel(2 * MICRO)),
        Err(AudioError::Initialization)
    );
    // Bounds beyond the conversions' domain are rejected.
    assert_eq!(
        VolumeRange::new(DeciBel(-1_000 * MICRO), DeciBel(0), DeciBel(MICRO)),
        Err(AudioError::Initialization)
    );
}

#[test]
fn audio_error_messages() {
    assert_eq!(AudioError::Initialization.describe(), "Initialization failed");
    assert_eq!(AudioError::VolumeSetting.describe(), "Set volume failed");
    assert_eq!(AudioError::GetVolume.describe(), "Get volume failed");
}

#[test]
fn keyboard_click_plans_press_wait_release() {
    let e = KeyboardEvent {
        action: KeyboardAction::Click(remote_ctl::events::EventDuration { secs: 0, nanos: 50 }),
        key: Key::Space,
    };
    let ops = e.plan();
    assert_eq!(ops.len(), 3);
    assert_eq!(ops[0], InjectorOp::KeyDown(Key::Space));
    assert!(matches!(ops[1], InjectorOp::Sleep(_)));
    assert_eq!(ops[2], InjectorOp::KeyUp(Key::Space));
}

#[test]
fn mouse_move_plans_one_op() {
    let e = MouseEvent::Move(MouseMoveEvent { origin: MouseMoveOrigin::Abs, x: 3, y: -4 });
    let ops = e.plan();
    assert_eq!(ops, vec![InjectorOp::MouseMoveAbs(3, -4)]);
}

#[test]
fn volume_event_plans_one_clamped_device_write() {
    let r = range();
    let level = VolumeLevel::Frac(500_000);
    let ops = InputEvent::Volume(level).plan(&r);
    let expected = level.to_db(r.min_db, r.max_db);
    assert_eq!(ops, vec![InjectorOp::SetVolumeDb(expected)]);
    assert!(r.min_db.0 <= expected.0 && expected.0 <= r.max_db.0);
}

#[test]
fn display_strings() {
    assert_eq!(DeciBel(-20_500_000).display_string(), "-20.5db");
    assert_eq!(DeciBel(0).display_string(), "0.0db");
    assert_eq!(LinVolt(500_000).display_string(), "0.5V");
    assert_eq!(VolumeLevel::Frac(250_000).display_string(), "0.25");
    assert_eq!(VolumeLevel::Log(DeciBel(6_020_600)).display_string(), "6.0206db");
}

#[test]
fn decibel_linear_round_trip_within_tolerance() {
    // The round-trip law volts -> decibel -> volts cannot be proved in the
    // library (the exponential is an outside result), so it is witnessed
    // here: converting to linear and back stays within a hundredth of a
    // decibel wherever the linear value is large enough that its one
    // micro-volt quantization does not dominate.
    for db in [0i64, 6_020_600, -6_020_600, -20_500_000, -40 * MICRO] {
        let v = remote_ctl::fixmath::lin_of_db_micro(db);
        let back = remote_ctl::fixmath::db_of_lin_micro(v);
        assert!((back - db).abs() <= 10_000, "round trip of {db} gave {back}");
    }
    // Near the floor the quantization is coarse; a decibel of slack covers it.
    let v = remote_ctl::fixmath::lin_of_db_micro(-96 * MICRO);
    let back = remote_ctl::fixmath::db_of_lin_micro(v);
    assert!((back + 96 * MICRO).abs() <= 1_000_000, "round trip of -96dB gave {back}");
}
