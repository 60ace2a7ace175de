use teehistorian::header::read_header;
use teehistorian::item::EventKind;
use teehistorian::item::InputSlot;
use teehistorian::item::InputSnap;
use teehistorian::item::PlayerSlot;
use teehistorian::item::PlayerSnap;
use teehistorian::Decoder;
use teehistorian::Error;
use teehistorian::HeaderError;
use teehistorian::MaybeEnd;
use teehistorian::Unpacker;

fn put_int(out: &mut Vec<u8>, v: i32) {
    let sign = v < 0;
    let mut m: u64 = if sign { (-(v as i64) - 1) as u64 } else { v as u64 };
    let mut b0 = (m & 0x3f) as u8;
    if sign {
        b0 |= 0x40;
    }
    m >>= 6;
    if m == 0 {
        out.push(b0);
        return;
    }
    out.push(b0 | 0x80);
    for _ in 0..3 {
        let b = (m & 0x7f) as u8;
        m >>= 7;
        if m == 0 {
            out.push(b);
            return;
        }
        out.push(b | 0x80);
    }
    out.push((m & 0x0f) as u8);
}

fn put_string(out: &mut Vec<u8>, payload: &[u8]) {
    put_int(out, payload.len() as i32);
    out.extend_from_slice(payload);
}

fn key(kind: i32, cid: i32) -> i32 {
    -(cid * 5 + kind) - 1
}

const HEADER_JSON: &str =
    "{\"version\":\"1\",\"map_name\":\"ctf1\",\"map_size\":\"1024\",\"map_crc\":\"deadbeef\"}";

fn stream_with(header_json: &str, body: &[u8]) -> Vec<u8> {
    let mut v = teehistorian::magic_bytes();
    put_string(&mut v, header_json.as_bytes());
    v.extend_from_slice(body);
    v
}

fn open_decoder(data: Vec<u8>) -> (Decoder, Unpacker) {
    let mut p = Unpacker::new(data);
    teehistorian::read_magic(&mut p).unwrap();
    let h = read_header(&mut p).unwrap();
    let d = Decoder::new(&h).unwrap();
    (d, p)
}

#[test]
fn correct_uuid() {
    const UUID_TEEWORLDS: [u8; 16] = [
        0xe0, 0x5d, 0xda, 0xaa, 0xc4, 0xe6, 0x4c, 0xfb, 0xb6, 0x42, 0x5d, 0x48, 0xe8, 0x0c,
        0x00, 0x29,
    ];
    const UUID_STRING: &str = "teehistorian@ddnet.tw";

    let ns = uuid::Uuid::from_bytes(UUID_TEEWORLDS);
    let ours = uuid::Uuid::from_bytes(teehistorian::UUID);
    let correct = uuid::Uuid::new_v3(&ns, UUID_STRING.as_bytes());
    assert_eq!(ours, correct);
}

#[test]
fn magic_advances_sixteen_bytes() {
    let mut data = teehistorian::magic_bytes();
    data.push(0x55);
    let mut p = Unpacker::new(data);
    assert!(teehistorian::read_magic(&mut p).is_ok());
    assert_eq!(p.cur_pos(), 16);
}

#[test]
fn magic_single_byte_flip_fails() {
    for i in 0..16 {
        let mut data = teehistorian::magic_bytes();
        data[i] ^= 0x01;
        let mut p = Unpacker::new(data);
        match teehistorian::read_magic(&mut p) {
            Err(MaybeEnd::Fail(teehistorian::WrongMagic)) => {}
            other => panic!("expected WrongMagic, got {:?}", other),
        }
    }
}

#[test]
fn magic_starved_is_unexpected_end() {
    let mut data = teehistorian::magic_bytes();
    data.truncate(10);
    let mut p = Unpacker::new(data);
    match teehistorian::read_magic(&mut p) {
        Err(MaybeEnd::UnexpectedEnd) => {}
        other => panic!("expected UnexpectedEnd, got {:?}", other),
    }
    assert_eq!(p.cur_pos(), 0);
}

#[test]
fn header_parses_fields() {
    let data = stream_with(HEADER_JSON, &[]);
    let mut p = Unpacker::new(data);
    teehistorian::read_magic(&mut p).unwrap();
    let h = read_header(&mut p).unwrap();
    assert_eq!(h.version, 1);
    assert_eq!(h.map_name, "ctf1");
    assert_eq!(h.map_size, 1024);
    assert_eq!(h.map_crc, 0xdeadbeef);
}

#[test]
fn header_reencode_reparse_identical() {
    let data = stream_with(HEADER_JSON, &[]);
    let mut p = Unpacker::new(data);
    teehistorian::read_magic(&mut p).unwrap();
    let h = read_header(&mut p).unwrap();

    let mut map = serde_json::Map::new();
    map.insert(
        "version".to_string(),
        serde_json::Value::String(format!("{}", h.version)),
    );
    map.insert(
        "map_name".to_string(),
        serde_json::Value::String(h.map_name.clone()),
    );
    map.insert(
        "map_size".to_string(),
        serde_json::Value::String(format!("{}", h.map_size)),
    );
    map.insert(
        "map_crc".to_string(),
        serde_json::Value::String(format!("{:x}", h.map_crc)),
    );
    let reencoded = serde_json::to_vec(&serde_json::Value::Object(map)).unwrap();

    let mut again = Vec::new();
    put_string(&mut again, &reencoded);
    let mut p2 = Unpacker::new(again);
    let h2 = read_header(&mut p2).unwrap();
    assert_eq!(h, h2);
}

#[test]
fn header_truncated_mid_field_is_unexpected_end() {
    let mut data = teehistorian::magic_bytes();
    let payload = HEADER_JSON.as_bytes();
    put_int(&mut data, payload.len() as i32);
    // cut the payload in the middle of a text field
    data.extend_from_slice(&payload[..payload.len() / 2]);
    let mut p = Unpacker::new(data);
    teehistorian::read_magic(&mut p).unwrap();
    match read_header(&mut p) {
        Err(MaybeEnd::UnexpectedEnd) => {}
        other => panic!("expected UnexpectedEnd, got {:?}", other),
    }
}

#[test]
fn header_bad_json_is_malformed_json() {
    let data = stream_with("{\"version\" \"1\"", &[]);
    let mut p = Unpacker::new(data);
    teehistorian::read_magic(&mut p).unwrap();
    match read_header(&mut p) {
        Err(MaybeEnd::Fail(HeaderError::MalformedJson)) => {}
        other => panic!("expected MalformedJson, got {:?}", other),
    }
}

#[test]
fn header_missing_field_is_malformed_header() {
    let data = stream_with(
        "{\"version\":\"1\",\"map_name\":\"ctf1\",\"map_size\":\"1024\"}",
        &[],
    );
    let mut p = Unpacker::new(data);
    teehistorian::read_magic(&mut p).unwrap();
    match read_header(&mut p) {
        Err(MaybeEnd::Fail(HeaderError::MalformedHeader)) => {}
        other => panic!("expected MalformedHeader, got {:?}", other),
    }
}

#[test]
fn header_non_string_field_is_malformed_header() {
    let data = stream_with(
        "{\"version\":\"1\",\"map_name\":\"ctf1\",\"map_size\":1024,\"map_crc\":\"deadbeef\"}",
        &[],
    );
    let mut p = Unpacker::new(data);
    teehistorian::read_magic(&mut p).unwrap();
    match read_header(&mut p) {
        Err(MaybeEnd::Fail(HeaderError::MalformedHeader)) => {}
        other => panic!("expected MalformedHeader, got {:?}", other),
    }
}

#[test]
fn header_bad_version_text() {
    let data = stream_with(
        "{\"version\":\"one\",\"map_name\":\"ctf1\",\"map_size\":\"1024\",\"map_crc\":\"deadbeef\"}",
        &[],
    );
    let mut p = Unpacker::new(data);
    teehistorian::read_magic(&mut p).unwrap();
    match read_header(&mut p) {
        Err(MaybeEnd::Fail(HeaderError::MalformedVersion)) => {}
        other => panic!("expected MalformedVersion, got {:?}", other),
    }
}

#[test]
fn header_bad_map_size_text() {
    let data = stream_with(
        "{\"version\":\"1\",\"map_name\":\"ctf1\",\"map_size\":\"4294967296\",\"map_crc\":\"deadbeef\"}",
        &[],
    );
    let mut p = Unpacker::new(data);
    teehistorian::read_magic(&mut p).unwrap();
    match read_header(&mut p) {
        Err(MaybeEnd::Fail(HeaderError::MalformedMapSize)) => {}
        other => panic!("expected MalformedMapSize, got {:?}", other),
    }
}

#[test]
fn header_bad_map_crc_text() {
    let data = stream_with(
        "{\"version\":\"1\",\"map_name\":\"ctf1\",\"map_size\":\"1024\",\"map_crc\":\"zzzz\"}",
        &[],
    );
    let mut p = Unpacker::new(data);
    teehistorian::read_magic(&mut p).unwrap();
    match read_header(&mut p) {
        Err(MaybeEnd::Fail(HeaderError::MalformedMapCrc)) => {}
        other => panic!("expected MalformedMapCrc, got {:?}", other),
    }
}

#[test]
fn unknown_version_is_rejected() {
    let data = stream_with(
        "{\"version\":\"3\",\"map_name\":\"ctf1\",\"map_size\":\"1024\",\"map_crc\":\"deadbeef\"}",
        &[],
    );
    let mut p = Unpacker::new(data);
    teehistorian::read_magic(&mut p).unwrap();
    let h = read_header(&mut p).unwrap();
    match Decoder::new(&h) {
        Err(e) => assert_eq!(e, Error::UnknownVersion),
        Ok(_) => panic!("expected UnknownVersion"),
    }
}

#[test]
fn full_session_scenario() {
    let mut body = Vec::new();
    put_int(&mut body, key(0, 0)); // player new
    put_int(&mut body, 100);
    put_int(&mut body, 200);
    put_int(&mut body, 1); // tick +1
    put_int(&mut body, key(3, 0)); // input new
    put_int(&mut body, 1);
    put_int(&mut body, 10);
    put_int(&mut body, -10);
    put_int(&mut body, 0);
    put_int(&mut body, 1); // tick +1
    put_int(&mut body, key(1, 0)); // player diff
    put_int(&mut body, 5);
    put_int(&mut body, -8);
    put_int(&mut body, key(4, 0)); // input diff
    put_int(&mut body, -2);
    put_int(&mut body, 1);
    put_int(&mut body, 1);
    put_int(&mut body, 7);
    put_int(&mut body, key(2, 0)); // player old
    let (mut d, mut p) = open_decoder(stream_with(HEADER_JSON, &body));

    let mut events = Vec::new();
    loop {
        match d.decode_next(&mut p) {
            Ok(Some(ev)) => events.push(ev),
            Ok(None) => break,
            Err(e) => panic!("unexpected error {:?}", e),
        }
    }
    assert_eq!(events.len(), 7);
    assert_eq!(
        events[0].kind,
        EventKind::PlayerNew { cid: 0, snap: PlayerSnap { x: 100, y: 200 } }
    );
    assert_eq!(events[0].tick, 0);
    assert_eq!(events[1].kind, EventKind::Tick);
    assert_eq!(events[1].tick, 1);
    assert_eq!(
        events[2].kind,
        EventKind::InputNew {
            cid: 0,
            input: InputSnap { direction: 1, target_x: 10, target_y: -10, buttons: 0 },
        }
    );
    assert_eq!(events[3].kind, EventKind::Tick);
    assert_eq!(events[3].tick, 2);
    assert_eq!(
        events[4].kind,
        EventKind::PlayerDiff { cid: 0, snap: PlayerSnap { x: 105, y: 192 } }
    );
    assert_eq!(events[4].tick, 2);
    assert_eq!(
        events[5].kind,
        EventKind::InputDiff {
            cid: 0,
            input: InputSnap { direction: -1, target_x: 11, target_y: -9, buttons: 7 },
        }
    );
    assert_eq!(events[6].kind, EventKind::PlayerOld { cid: 0 });
    assert_eq!(d.tick(), 2);
    assert_eq!(d.player_slot(0), PlayerSlot::Absent);
    // no input-release record exists in the format, so the input slot stays
    // active with the last diffed vector
    assert_eq!(
        d.input_slot(0),
        InputSlot::Active(InputSnap { direction: -1, target_x: 11, target_y: -9, buttons: 7 })
    );
}

#[test]
fn input_diff_without_new_fails_on_first_item() {
    let mut body = Vec::new();
    put_int(&mut body, key(4, 0)); // input diff with no preceding input new
    put_int(&mut body, 1);
    put_int(&mut body, 2);
    put_int(&mut body, 3);
    put_int(&mut body, 4);
    let (mut d, mut p) = open_decoder(stream_with(HEADER_JSON, &body));
    match d.decode_next(&mut p) {
        Err(Error::InputDiffWithoutNew) => {}
        other => panic!("expected InputDiffWithoutNew, got {:?}", other),
    }
}

#[test]
fn tick_advances_are_additive() {
    let mut body = Vec::new();
    put_int(&mut body, 1);
    put_int(&mut body, 2);
    put_int(&mut body, 3);
    let (mut d, mut p) = open_decoder(stream_with(HEADER_JSON, &body));
    for _ in 0..3 {
        d.decode_next(&mut p).unwrap().unwrap();
    }
    assert_eq!(d.tick(), 6);
    assert!(matches!(d.decode_next(&mut p), Ok(None)));
}

#[test]
fn tick_overflow_at_the_crossing_record() {
    let mut body = Vec::new();
    put_int(&mut body, 0x7ffffffe);
    put_int(&mut body, 1);
    put_int(&mut body, 1);
    let (mut d, mut p) = open_decoder(stream_with(HEADER_JSON, &body));
    d.decode_next(&mut p).unwrap().unwrap();
    assert_eq!(d.tick(), 0x7ffffffe);
    d.decode_next(&mut p).unwrap().unwrap();
    assert_eq!(d.tick(), 0x7fffffff);
    match d.decode_next(&mut p) {
        Err(Error::TickOverflow) => {}
        other => panic!("expected TickOverflow, got {:?}", other),
    }
    assert_eq!(d.tick(), 0x7fffffff);
}

#[test]
fn invalid_client_id_leaves_table_unchanged() {
    let mut body = Vec::new();
    put_int(&mut body, key(0, 64)); // first out-of-range client id
    let (mut d, mut p) = open_decoder(stream_with(HEADER_JSON, &body));
    match d.decode_next(&mut p) {
        Err(Error::InvalidClientId) => {}
        other => panic!("expected InvalidClientId, got {:?}", other),
    }
    for c in 0..64 {
        assert_eq!(d.player_slot(c), PlayerSlot::Absent);
        assert_eq!(d.input_slot(c), InputSlot::Inactive);
    }
}

#[test]
fn player_new_then_old_returns_to_absent() {
    let mut body = Vec::new();
    put_int(&mut body, key(0, 5));
    put_int(&mut body, 7);
    put_int(&mut body, 9);
    put_int(&mut body, key(2, 5));
    let (mut d, mut p) = open_decoder(stream_with(HEADER_JSON, &body));
    d.decode_next(&mut p).unwrap().unwrap();
    assert_eq!(d.player_slot(5), PlayerSlot::Present(PlayerSnap { x: 7, y: 9 }));
    d.decode_next(&mut p).unwrap().unwrap();
    assert_eq!(d.player_slot(5), PlayerSlot::Absent);
}

#[test]
fn player_diff_before_new_fails() {
    let mut body = Vec::new();
    put_int(&mut body, key(1, 3));
    put_int(&mut body, 1);
    put_int(&mut body, 1);
    let (mut d, mut p) = open_decoder(stream_with(HEADER_JSON, &body));
    match d.decode_next(&mut p) {
        Err(Error::PlayerDiffWithoutNew) => {}
        other => panic!("expected PlayerDiffWithoutNew, got {:?}", other),
    }
}

#[test]
fn second_player_new_is_duplicate() {
    let mut body = Vec::new();
    put_int(&mut body, key(0, 2));
    put_int(&mut body, 1);
    put_int(&mut body, 2);
    put_int(&mut body, key(0, 2));
    put_int(&mut body, 3);
    put_int(&mut body, 4);
    let (mut d, mut p) = open_decoder(stream_with(HEADER_JSON, &body));
    d.decode_next(&mut p).unwrap().unwrap();
    match d.decode_next(&mut p) {
        Err(Error::PlayerNewDuplicate) => {}
        other => panic!("expected PlayerNewDuplicate, got {:?}", other),
    }
    assert_eq!(d.player_slot(2), PlayerSlot::Present(PlayerSnap { x: 1, y: 2 }));
}

#[test]
fn player_old_without_new_fails() {
    let mut body = Vec::new();
    put_int(&mut body, key(2, 0));
    let (mut d, mut p) = open_decoder(stream_with(HEADER_JSON, &body));
    match d.decode_next(&mut p) {
        Err(Error::PlayerOldWithoutNew) => {}
        other => panic!("expected PlayerOldWithoutNew, got {:?}", other),
    }
}

#[test]
fn second_input_new_is_duplicate() {
    let mut body = Vec::new();
    put_int(&mut body, key(3, 1));
    put_int(&mut body, 0);
    put_int(&mut body, 0);
    put_int(&mut body, 0);
    put_int(&mut body, 0);
    put_int(&mut body, key(3, 1));
    put_int(&mut body, 0);
    put_int(&mut body, 0);
    put_int(&mut body, 0);
    put_int(&mut body, 0);
    let (mut d, mut p) = open_decoder(stream_with(HEADER_JSON, &body));
    d.decode_next(&mut p).unwrap().unwrap();
    match d.decode_next(&mut p) {
        Err(Error::InputNewDuplicate) => {}
        other => panic!("expected InputNewDuplicate, got {:?}", other),
    }
}

#[test]
fn truncated_payload_mid_record_is_unexpected_end() {
    let mut body = Vec::new();
    put_int(&mut body, key(0, 0));
    put_int(&mut body, 100); // second payload int missing
    let (mut d, mut p) = open_decoder(stream_with(HEADER_JSON, &body));
    match d.decode_next(&mut p) {
        Err(Error::UnexpectedEnd) => {}
        other => panic!("expected UnexpectedEnd, got {:?}", other),
    }
    assert_eq!(d.player_slot(0), PlayerSlot::Absent);
}

#[test]
fn player_diff_wraps_on_overflow() {
    let mut body = Vec::new();
    put_int(&mut body, key(0, 0));
    put_int(&mut body, 0x7fffffff);
    put_int(&mut body, 0);
    put_int(&mut body, key(1, 0));
    put_int(&mut body, 1);
    put_int(&mut body, -1);
    let (mut d, mut p) = open_decoder(stream_with(HEADER_JSON, &body));
    d.decode_next(&mut p).unwrap().unwrap();
    d.decode_next(&mut p).unwrap().unwrap();
    assert_eq!(
        d.player_slot(0),
        PlayerSlot::Present(PlayerSnap { x: -0x80000000, y: -1 })
    );
}
