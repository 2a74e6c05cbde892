use arm_control::calibration::{after_read, calibration_limit, calibration_request, PortRead, ReadNext};
use arm_control::decimal::{decimal_bytes, parse_i32, push_decimal};
use arm_control::motion::{plan_steps, run_command, run_simulation, IsRunning, RotorMove, Steps};
use arm_control::rotor::Rotor;
use arm_control::PULSES_PER_DEGREE;

#[test]
fn parse_plain_numbers() {
    assert_eq!(parse_i32(b"0"), Some(0));
    assert_eq!(parse_i32(b"123"), Some(123));
    assert_eq!(parse_i32(b"-5"), Some(-5));
    assert_eq!(parse_i32(b"+7"), Some(7));
    assert_eq!(parse_i32(b"007"), Some(7));
    assert_eq!(parse_i32(b"-0"), Some(0));
}

#[test]
fn parse_limits_of_i32() {
    assert_eq!(parse_i32(b"2147483647"), Some(i32::MAX));
    assert_eq!(parse_i32(b"-2147483648"), Some(i32::MIN));
    assert_eq!(parse_i32(b"2147483648"), None);
    assert_eq!(parse_i32(b"-2147483649"), None);
    assert_eq!(parse_i32(b"99999999999999999999"), None);
    assert_eq!(parse_i32(b"0000000000000000000012"), Some(12));
}

#[test]
fn parse_rejects_other_text() {
    assert_eq!(parse_i32(b""), None);
    assert_eq!(parse_i32(b"-"), None);
    assert_eq!(parse_i32(b"+"), None);
    assert_eq!(parse_i32(b"+-5"), None);
    assert_eq!(parse_i32(b"12a"), None);
    assert_eq!(parse_i32(b" 1"), None);
    assert_eq!(parse_i32(b"1110\n"), None);
    assert_eq!(parse_i32(b"99999999999999999999x"), None);
}

#[test]
fn parse_agrees_with_std() {
    let samples = [
        "0", "1", "-1", "+1", "42", "-42", "2147483647", "-2147483648", "2147483648", "", "-", "+",
        "1 ", "a", "--1", "1-", "0x10", "٣", "12345678901",
    ];
    for s in samples {
        assert_eq!(parse_i32(s.as_bytes()), s.parse::<i32>().ok(), "{:?}", s);
    }
}

#[test]
fn decimal_text_of_numbers() {
    assert_eq!(decimal_bytes(0), b"0".to_vec());
    assert_eq!(decimal_bytes(7), b"7".to_vec());
    assert_eq!(decimal_bytes(-1), b"-1".to_vec());
    assert_eq!(decimal_bytes(1234567), b"1234567".to_vec());
    assert_eq!(decimal_bytes(i64::MAX), i64::MAX.to_string().into_bytes());
    assert_eq!(decimal_bytes(i64::MIN), i64::MIN.to_string().into_bytes());
    let mut out = b"x=".to_vec();
    push_decimal(-90, &mut out);
    assert_eq!(out, b"x=-90".to_vec());
}

#[test]
fn decimal_round_trip_examples() {
    for n in [0i32, 1, -1, 555, -555, i32::MAX, i32::MIN, 94350, -94350] {
        assert_eq!(parse_i32(&decimal_bytes(n as i64)), Some(n));
    }
}

#[test]
fn plan_takes_last_move_of_each_joint() {
    let moves = vec![
        RotorMove { rotor: Rotor::Sy, degrees: 10 },
        RotorMove { rotor: Rotor::Ez, degrees: -3 },
        RotorMove { rotor: Rotor::Sy, degrees: 2 },
    ];
    let s = plan_steps(&moves);
    assert_eq!(s, Steps { sy: 2 * 555, sz: 0, ez: -3 * 555, wz: 0, wy: 0 });
}

#[test]
fn plan_of_no_moves_is_all_zero() {
    let s = plan_steps(&Vec::new());
    assert_eq!(s, Steps { sy: 0, sz: 0, ez: 0, wz: 0, wy: 0 });
    assert_eq!(run_command(&s), b"0 0 0 0".to_vec());
}

#[test]
fn command_leaves_out_wrist_y() {
    let s = Steps { sy: 555, sz: -1110, ez: 0, wz: 94350, wy: 777 };
    assert_eq!(run_command(&s), b"555 -1110 0 94350".to_vec());
}

#[test]
fn command_fields_read_back() {
    let s = Steps { sy: -5550, sz: 1665, ez: 0, wz: 94350, wy: 5 };
    let text = run_command(&s);
    let fields: Vec<Option<i32>> = text.split(|b| *b == b' ').map(parse_i32).collect();
    assert_eq!(fields, vec![Some(-5550), Some(1665), Some(0), Some(94350)]);
}

#[test]
fn run_simulation_starts_every_joint() {
    let mut running = IsRunning::new();
    let moves = vec![
        RotorMove { rotor: Rotor::Wz, degrees: 170 },
        RotorMove { rotor: Rotor::Wy, degrees: -20 },
        RotorMove { rotor: Rotor::Sz, degrees: -1 },
    ];
    let command = run_simulation(&mut running, &moves);
    assert_eq!(command, b"0 -555 0 94350".to_vec());
    assert_eq!(
        running,
        IsRunning { sy: true, sz: true, ez: true, wz: true, wy: true }
    );
}

#[test]
fn pulses_per_degree_value() {
    assert_eq!(PULSES_PER_DEGREE, 555);
}

#[test]
fn calibration_request_text() {
    assert_eq!(calibration_request(), b"1 0 0 0 0".to_vec());
}

#[test]
fn calibration_limit_rounds_towards_zero() {
    assert_eq!(calibration_limit(b"1110"), Some(2));
    assert_eq!(calibration_limit(b"1664"), Some(2));
    assert_eq!(calibration_limit(b"-1110"), Some(-2));
    assert_eq!(calibration_limit(b"-1664"), Some(-2));
    assert_eq!(calibration_limit(b"554"), Some(0));
    assert_eq!(calibration_limit(b"-554"), Some(0));
    assert_eq!(calibration_limit(b"2147483647"), Some(3869339));
    assert_eq!(calibration_limit(b"-2147483648"), Some(-3869339));
}

#[test]
fn calibration_limit_rejects_bad_replies() {
    assert_eq!(calibration_limit(b""), None);
    assert_eq!(calibration_limit(b"ok"), None);
    assert_eq!(calibration_limit(b"1110\r\n"), None);
    assert_eq!(calibration_limit(b"3000000000"), None);
}

#[test]
fn read_outcomes() {
    assert_eq!(after_read(PortRead::Received), ReadNext::Use);
    assert_eq!(after_read(PortRead::TimedOut), ReadNext::Retry);
    assert_eq!(after_read(PortRead::Failed), ReadNext::Abort);
}
