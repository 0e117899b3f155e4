use game_client::codec::{
    decode, encode_login, encode_move, encode_sync, parse_direction, parse_point, snapshot_payload,
    newest_snapshot, velocity_of_field, CodecError, Message,
};
use game_client::decimal::{field_value, push_decimal, read_signed, read_unsigned};
use game_client::{Direction, Player, Point};

const ALL: [Direction; 5] = [
    Direction::Stationary,
    Direction::Up,
    Direction::Right,
    Direction::Down,
    Direction::Left,
];

#[test]
fn move_round_trip_every_direction() {
    for d in ALL {
        let frame = encode_move(1234, "blub_id1", d);
        match decode(&frame) {
            Ok(Message::Move { timestamp, id, direction }) => {
                assert_eq!(timestamp, 1234);
                assert_eq!(id, "blub_id1");
                assert_eq!(direction, Some(d));
            }
            other => panic!("unexpected {:?}", other),
        }
    }
}

#[test]
fn encode_move_right_is_named_token() {
    let frame = encode_move(1700000000123, "blub_id1", Direction::Right);
    assert_eq!(frame, b"M0;1700000000123;blub_id1;Right".to_vec());
}

#[test]
fn encode_move_negative_timestamp() {
    let frame = encode_move(i64::MIN, "p", Direction::Up);
    assert_eq!(frame, b"M0;-9223372036854775808;p;Up".to_vec());
}

#[test]
fn lenient_parse_defaults_numeric_field_to_zero() {
    match decode(b"M0;abc;not_a_number") {
        Ok(Message::Move { timestamp, id, direction }) => {
            assert_eq!(timestamp, 0);
            assert_eq!(id, "not_a_number");
            assert_eq!(direction, None);
        }
        other => panic!("unexpected {:?}", other),
    }
}

#[test]
fn legacy_ordinal_direction_is_accepted() {
    match decode(b"M0;5;p;1") {
        Ok(Message::Move { timestamp, direction, .. }) => {
            assert_eq!(timestamp, 5);
            assert_eq!(direction, Some(Direction::Right));
        }
        other => panic!("unexpected {:?}", other),
    }
    assert_eq!(parse_direction(b"4"), Some(Direction::Stationary));
    assert_eq!(parse_direction(b"0"), Some(Direction::Up));
    assert_eq!(parse_direction(b"5"), None);
    assert_eq!(parse_direction(b"Left"), Some(Direction::Left));
    assert_eq!(parse_direction(b"left"), None);
}

#[test]
fn overflowing_timestamp_reads_as_zero() {
    match decode(b"M0;99999999999999999999;p;Up") {
        Ok(Message::Move { timestamp, direction, .. }) => {
            assert_eq!(timestamp, 0);
            assert_eq!(direction, Some(Direction::Up));
        }
        other => panic!("unexpected {:?}", other),
    }
}

#[test]
fn short_or_non_utf8_frames_are_malformed() {
    assert!(matches!(decode(b"P0"), Err(CodecError::MalformedFrame)));
    assert!(matches!(decode(b""), Err(CodecError::MalformedFrame)));
    assert!(matches!(decode(&[0x4d, 0x30, 0x3b, 0xff, 0xfe]), Err(CodecError::MalformedFrame)));
}

#[test]
fn unknown_opcode_is_nothing() {
    assert!(matches!(decode(b"X9;whatever"), Ok(Message::Nothing)));
    assert!(matches!(decode(b"M0x"), Ok(Message::Nothing)));
}

#[test]
fn login_and_snapshot_frames() {
    match decode(b"L1;blub_id1") {
        Ok(Message::Login { id }) => assert_eq!(id, "blub_id1"),
        other => panic!("unexpected {:?}", other),
    }
    let body = br#"{"a":{"id":"a"}}"#;
    let mut frame = b"P0;".to_vec();
    frame.extend_from_slice(body);
    match decode(&frame) {
        Ok(Message::Snapshot { payload }) => assert_eq!(payload, body.to_vec()),
        other => panic!("unexpected {:?}", other),
    }
    assert_eq!(snapshot_payload(&frame), Some(body.to_vec()));
    assert_eq!(snapshot_payload(b"L1;x"), None);
    assert_eq!(snapshot_payload(b"P"), None);
}

#[test]
fn sync_encodes_position_as_json_and_round_trips() {
    let frame = encode_sync(17, "p1", Point::new(-3, 42));
    assert_eq!(frame, br#"S0;17;p1;{"x":-3,"y":42}"#.to_vec());
    match decode(&frame) {
        Ok(Message::Sync { timestamp, id, position }) => {
            assert_eq!(timestamp, 17);
            assert_eq!(id, "p1");
            assert_eq!(position, Point::new(-3, 42));
        }
        other => panic!("unexpected {:?}", other),
    }
}

#[test]
fn sync_with_unreadable_position_is_origin() {
    match decode(b"S0;1;p;garbage") {
        Ok(Message::Sync { position, .. }) => assert_eq!(position, Point::new(0, 0)),
        other => panic!("unexpected {:?}", other),
    }
    assert_eq!(parse_point(br#"{"x":7,"y":zz}"#), Point::new(7, 0));
    assert_eq!(parse_point(br#"{"x":1,"y":2}"#), Point::new(1, 2));
    assert_eq!(parse_point(br#"{"x":1, "y":2}"#), Point::new(0, 0));
}

#[test]
fn login_request_layout() {
    let frame = encode_login(99, "blub_id1", 1, "player");
    assert_eq!(frame, b"L1;99;blub_id1;1;player".to_vec());
}

#[test]
fn non_ascii_id_survives_the_round_trip() {
    let frame = encode_move(3, "jöø", Direction::Down);
    match decode(&frame) {
        Ok(Message::Move { id, direction, .. }) => {
            assert_eq!(id, "jöø");
            assert_eq!(direction, Some(Direction::Down));
        }
        other => panic!("unexpected {:?}", other),
    }
}

#[test]
fn player_record_fields_and_defaults() {
    let p = Player::from_str("id1;Bob;3;10;-20;2;5;6");
    assert_eq!(p.id, "id1");
    assert_eq!(p.char_name, "Bob");
    assert_eq!(p.skin, 3);
    assert_eq!(p.pos, Point::new(10, -20));
    assert_eq!(p.team, 2);
    assert_eq!(p.world_pos, Point::new(5, 6));
    assert_eq!(p.velocity, 0);
    assert!(p.logged_in);
    assert_eq!(p.last_update, 0);

    let q = Player::from_str("only_id");
    assert_eq!(q.id, "only_id");
    assert_eq!(q.char_name, "");
    assert_eq!(q.skin, 0);
    assert_eq!(q.pos, Point::new(0, 0));

    let r = Player::from_str("a;b;x;1;2;300");
    assert_eq!(r.skin, 0);
    assert_eq!(r.pos, Point::new(1, 2));
    assert_eq!(r.team, 0);
}

#[test]
fn decimal_fields() {
    let mut out = Vec::new();
    push_decimal(&mut out, -120);
    push_decimal(&mut out, 0);
    assert_eq!(out, b"-1200".to_vec());
    assert_eq!(read_signed(b"+17", 0, 3, i64::MIN, i64::MAX), Some(17));
    assert_eq!(read_signed(b"-", 0, 1, i64::MIN, i64::MAX), None);
    assert_eq!(read_signed(b"2147483648", 0, 10, i32::MIN as i64, i32::MAX as i64), None);
    assert_eq!(read_signed(b"-2147483648", 0, 11, i32::MIN as i64, i32::MAX as i64), Some(-2147483648));
    assert_eq!(read_unsigned(b"-0", 0, 2, 255), None);
    assert_eq!(read_unsigned(b"256", 0, 3, 255), None);
    assert_eq!(read_unsigned(b"255", 0, 3, 255), Some(255));
    assert_eq!(field_value(b"x12y", 1, 3, -5, 100), 12);
    assert_eq!(field_value(b"1 2", 0, 3, -5, 100), 0);
}

#[test]
fn default_player_is_logged_in_at_origin() {
    let p = Player::default_at(1_700_000_000);
    assert_eq!(p.id, "");
    assert!(p.logged_in);
    assert_eq!(p.pos, Point::new(0, 0));
    assert_eq!(p.last_update, 1_700_000_000);
}

#[test]
fn velocity_fields_read_as_ordinals() {
    assert_eq!(velocity_of_field(b"Right"), 1);
    assert_eq!(velocity_of_field(b"3"), 3);
    assert_eq!(velocity_of_field(b"Sideways"), 4);
    assert_eq!(velocity_of_field(b"7"), 4);
}

#[test]
fn newest_snapshot_supersedes_older_ones() {
    assert_eq!(newest_snapshot(vec![]), None);
    assert_eq!(newest_snapshot(vec![b"{}".to_vec(), b"{\"a\":1}".to_vec()]), Some(b"{\"a\":1}".to_vec()));
}
