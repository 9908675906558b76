use groupsim::codec::{bytes_to_data, bytes_to_time, data_to_bytes, time_to_bytes};

#[test]
fn round_trip_sentinels() {
    let records = [
        (-1i32, (0i16, 0i16, 0i16)),
        (0i32, (0i16, 0i16, 0i16)),
        (i32::MAX, (0i16, 0i16, 0i16)),
        (i32::MIN, (0i16, 0i16, 0i16)),
    ];
    for r in records {
        assert_eq!(bytes_to_data(&data_to_bytes(&r)), r);
    }
}

#[test]
fn round_trip_positions() {
    let records = [
        (5i32, (1i16, 2i16, 3i16)),
        (-42i32, (-1i16, i16::MIN, i16::MAX)),
        (7499i32, (100i16, -100i16, 0i16)),
        (1i32, (i16::MAX, i16::MAX, i16::MAX)),
        (-2147483647i32, (i16::MIN, i16::MIN, i16::MIN)),
    ];
    for r in records {
        assert_eq!(bytes_to_data(&data_to_bytes(&r)), r);
    }
}

#[test]
fn known_frame_bytes() {
    assert_eq!(
        data_to_bytes(&(1, (2, 3, 4))),
        [1, 0, 0, 0, 2, 0, 3, 0, 4, 0]
    );
    assert_eq!(
        data_to_bytes(&(-1, (0, 0, 0))),
        [255, 255, 255, 255, 0, 0, 0, 0, 0, 0]
    );
    assert_eq!(
        data_to_bytes(&(258, (-2, 256, 1))),
        [2, 1, 0, 0, 254, 255, 0, 1, 1, 0]
    );
}

#[test]
fn decode_known_bytes() {
    assert_eq!(
        bytes_to_data(&[2, 1, 0, 0, 254, 255, 0, 1, 1, 0]),
        (258, (-2, 256, 1))
    );
    assert_eq!(
        bytes_to_data(&[0, 0, 0, 128, 0, 128, 255, 127, 0, 0]),
        (i32::MIN, (i16::MIN, i16::MAX, 0))
    );
}

#[test]
fn latency_round_trip() {
    for t in [0u64, 42, 255, 256, u64::MAX, 1234567890123] {
        let frame = time_to_bytes(t);
        assert_eq!(bytes_to_time(&frame), t);
        assert_eq!(frame[8], 0);
        assert_eq!(frame[9], 0);
    }
}

#[test]
fn latency_known_bytes() {
    assert_eq!(time_to_bytes(42), [42, 0, 0, 0, 0, 0, 0, 0, 0, 0]);
    assert_eq!(bytes_to_time(&[42, 0, 0, 0, 0, 0, 0, 0, 0, 0]), 42);
}

#[test]
fn latency_ignores_trailing_bytes() {
    assert_eq!(bytes_to_time(&[7, 0, 0, 0, 0, 0, 0, 0, 99, 200]), 7);
}
