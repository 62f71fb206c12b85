use radio_relay::client::Client;
use radio_relay::message::{GameMessage, Modulation, Radio};
use radio_relay::voice_codec::{encode_voice, Frequency, VoicePacket};
use radio_relay::driver::{DriverAction, DriverEvent, SessionDriver, SessionError};
use radio_relay::floatbits::f64_bits_of_u64;
use radio_relay::message::{Message, MsgType, SettingsEntry};
use radio_relay::msg_codec::{decode_control_line, decode_frame, encode_message};
use radio_relay::position::Position;
use radio_relay::voice_codec::decode_voice;

fn entry(key: &str, value: &str) -> SettingsEntry {
    SettingsEntry {
        key: key.as_bytes().to_vec(),
        value: value.as_bytes().to_vec(),
    }
}

fn settings_message(entries: Vec<SettingsEntry>) -> Message {
    Message {
        client: None,
        msg_type: MsgType::ServerSettings,
        server_settings: Some(entries),
        version: b"1.9.0.0".to_vec(),
    }
}

#[test]
fn sguid_is_22_alphanumeric_bytes_and_stable() {
    let client = Client::new("Test Station", 251_000_000, "AM");
    let sguid = client.sguid().clone();
    assert_eq!(sguid.len(), 22);
    assert!(sguid.iter().all(|b| b.is_ascii_alphanumeric()));

    // the same id is stamped on every message and packet of the session
    let mut driver = SessionDriver::new(true, Position::default());
    let (sync_msg, radio_msg) = driver.handshake(&client, Position::default());
    assert_eq!(sync_msg.client.as_ref().unwrap().client_guid, sguid);
    assert_eq!(radio_msg.client.as_ref().unwrap().client_guid, sguid);
    let action = driver.step(&client, DriverEvent::Voice(vec![1, 2, 3]));
    match action {
        DriverAction::SendVoice(p) => {
            assert_eq!(p.transmission_sguid, sguid);
            assert_eq!(p.client_sguid, sguid);
        }
        _ => panic!("expected a voice packet"),
    }
    let action = driver.step(&client, DriverEvent::PingTick);
    match action {
        DriverAction::SendPing(bytes) => assert_eq!(bytes, sguid),
        _ => panic!("expected a ping"),
    }
}

#[test]
fn client_accessors_and_mutators() {
    let mut client = Client::new("Alpha", 255_000_000, "FM");
    assert_eq!(client.name(), &b"Alpha".to_vec());
    assert_eq!(client.m(), &b"FM".to_vec());
    assert_eq!(client.freq(), 255_000_000);
    assert!(client.unit().is_none());

    client.set_unit(42, "Carrier Deck");
    let unit = client.unit().unwrap();
    assert_eq!(unit.id, 42);
    assert_eq!(unit.name, b"Carrier Deck".to_vec());

    let p = Position {
        lat_micro: 12_345_678,
        lon_micro: -44_000_000,
        alt_micro: 8_000_000_000,
    };
    client.set_position(p);
    assert_eq!(client.position(), p);

    // the handle is shared: a write through a clone is seen by the client
    let handle = client.position_handle();
    let p2 = Position {
        lat_micro: 1,
        lon_micro: 2,
        alt_micro: 3,
    };
    handle.set(p2);
    assert_eq!(client.position(), p2);

    let copy = client.clone();
    assert_eq!(copy.sguid(), client.sguid());
    assert_eq!(copy.position(), p2);
}

#[test]
fn handshake_writes_exactly_two_json_lines() {
    let client = Client::new("Station", 251_000_000, "AM");
    let driver = SessionDriver::new(false, Position::default());
    let (sync_msg, radio_msg) = driver.handshake(&client, Position::default());

    assert_eq!(sync_msg.msg_type, MsgType::Sync);
    assert_eq!(radio_msg.msg_type, MsgType::RadioUpdate);
    let info = radio_msg.client.as_ref().unwrap().radio_info.as_ref().unwrap();
    assert_eq!(info.radios.len(), 10);
    assert_eq!(info.selected, 0);
    assert!(info.simultaneous_transmission);
    assert!(!info.ptt);

    let first = encode_message(&sync_msg);
    let second = encode_message(&radio_msg);
    for line in [&first, &second] {
        assert_eq!(line.iter().filter(|b| **b == b'\n').count(), 1);
        assert_eq!(*line.last().unwrap(), b'\n');
    }

    // each line is valid JSON in the canonical field order
    let v: serde_json::Value = serde_json::from_slice(&first[..first.len() - 1]).unwrap();
    assert_eq!(v["MsgType"], "SYNC");
    assert_eq!(v["Version"], "1.9.0.0");
    assert_eq!(v["Client"]["ClientGuid"].as_str().unwrap().len(), 22);
    let v: serde_json::Value = serde_json::from_slice(&second[..second.len() - 1]).unwrap();
    assert_eq!(v["MsgType"], "RADIO_UPDATE");
    assert_eq!(v["Client"]["RadioInfo"]["Radios"].as_array().unwrap().len(), 10);
    assert_eq!(v["Client"]["RadioInfo"]["Selected"], 0);
    assert_eq!(v["Client"]["RadioInfo"]["SimultaneousTransmission"], true);
    assert_eq!(v["Client"]["LatLngPosition"]["Lat"], 0.0);
}

#[test]
fn server_settings_latch_exact_casing_only() {
    let client = Client::new("Station", 251_000_000, "AM");
    let mut driver = SessionDriver::new(false, Position::default());

    // LOS_ENABLED compares against literal `True`
    driver.step(
        &client,
        DriverEvent::Control(settings_message(vec![entry("LOS_ENABLED", "True")])),
    );
    assert!(driver.settings.los_enabled);
    assert!(!driver.settings.distance_enabled);

    for wrong in ["true", "TRUE", "tRue", "False", "1"] {
        driver.step(
            &client,
            DriverEvent::Control(settings_message(vec![entry("LOS_ENABLED", wrong)])),
        );
        assert!(!driver.settings.los_enabled, "casing {wrong} must not enable");
    }

    // DISTANCE_ENABLED compares against literal `true`
    driver.step(
        &client,
        DriverEvent::Control(settings_message(vec![entry("DISTANCE_ENABLED", "true")])),
    );
    assert!(driver.settings.distance_enabled);
    for wrong in ["True", "TRUE", "truE", "yes"] {
        driver.step(
            &client,
            DriverEvent::Control(settings_message(vec![entry("DISTANCE_ENABLED", wrong)])),
        );
        assert!(!driver.settings.distance_enabled, "casing {wrong} must not enable");
    }

    // a message without a settings map leaves the flags alone
    driver.step(
        &client,
        DriverEvent::Control(settings_message(vec![
            entry("LOS_ENABLED", "True"),
            entry("DISTANCE_ENABLED", "true"),
        ])),
    );
    let msg = Message {
        client: None,
        msg_type: MsgType::Update,
        server_settings: None,
        version: b"1.9.0.0".to_vec(),
    };
    driver.step(&client, DriverEvent::Control(msg));
    assert!(driver.settings.los_enabled && driver.settings.distance_enabled);
}

#[test]
fn version_mismatch_terminates_with_both_versions() {
    let client = Client::new("Station", 251_000_000, "AM");
    let mut driver = SessionDriver::new(false, Position::default());
    let msg = Message {
        client: None,
        msg_type: MsgType::VersionMismatch,
        server_settings: None,
        version: b"2.1.0.0".to_vec(),
    };
    match driver.step(&client, DriverEvent::Control(msg)) {
        DriverAction::Fail(SessionError::VersionMismatch { ours, theirs }) => {
            assert_eq!(ours, b"1.9.0.0".to_vec());
            assert_eq!(theirs, b"2.1.0.0".to_vec());
        }
        _ => panic!("expected a version-mismatch failure"),
    }
}

#[test]
fn position_updates_are_gated_by_flags_and_movement() {
    let client = Client::new("Station", 251_000_000, "AM");
    let mut driver = SessionDriver::new(false, Position::default());
    let moved = Position {
        lat_micro: 1_000_000,
        lon_micro: 0,
        alt_micro: 0,
    };

    // both flags off: no message even though the position changed
    match driver.step(&client, DriverEvent::PositionTick(moved)) {
        DriverAction::Idle => {}
        _ => panic!("no update may be sent while both flags are off"),
    }

    driver.step(
        &client,
        DriverEvent::Control(settings_message(vec![entry("LOS_ENABLED", "True")])),
    );

    // flag on, position unchanged since the initial snapshot: no message
    match driver.step(&client, DriverEvent::PositionTick(Position::default())) {
        DriverAction::Idle => {}
        _ => panic!("no update may be sent while the position is unchanged"),
    }

    // flag on and the position moved: exactly one update
    match driver.step(&client, DriverEvent::PositionTick(moved)) {
        DriverAction::SendControl(m) => assert_eq!(m.msg_type, MsgType::Update),
        _ => panic!("an update was due"),
    }
    // the same position again: nothing
    match driver.step(&client, DriverEvent::PositionTick(moved)) {
        DriverAction::Idle => {}
        _ => panic!("no update may be repeated for an unmoved position"),
    }

    // a session with a game feed never sends its own position updates
    let mut relay = SessionDriver::new(true, Position::default());
    relay.step(
        &client,
        DriverEvent::Control(settings_message(vec![entry("LOS_ENABLED", "True")])),
    );
    match relay.step(&client, DriverEvent::PositionTick(moved)) {
        DriverAction::Idle => {}
        _ => panic!("a game-fed session sends no position updates"),
    }
}

#[test]
fn voice_emission_stamps_consecutive_ids_and_session_frequency() {
    let client = Client::new("Station", 251_000_000, "AM");
    let mut driver = SessionDriver::new(false, Position::default());
    let mut ids = Vec::new();
    for _ in 0..3 {
        let chunk = vec![7u8; 80];
        match driver.step(&client, DriverEvent::Voice(chunk.clone())) {
            DriverAction::SendVoice(p) => {
                let datagram = encode_voice(&p);
                let decoded = decode_voice(&datagram).expect("datagram must decode");
                assert_eq!(decoded.audio_part, chunk);
                assert_eq!(decoded.frequencies.len(), 1);
                assert_eq!(
                    decoded.frequencies[0].freq_bits,
                    (251_000_000u64 as f64).to_bits()
                );
                ids.push(decoded.packet_id);
            }
            _ => panic!("expected a voice packet"),
        }
    }
    assert_eq!(ids, vec![1, 2, 3]);
}

#[test]
fn packet_ids_wrap_past_the_largest_value() {
    let client = Client::new("Station", 251_000_000, "FM");
    let mut driver = SessionDriver::new(false, Position::default());
    driver.packet_id = u64::MAX;
    match driver.step(&client, DriverEvent::Voice(vec![1])) {
        DriverAction::SendVoice(p) => assert_eq!(p.packet_id, u64::MAX),
        _ => panic!("expected a voice packet"),
    }
    match driver.step(&client, DriverEvent::Voice(vec![2])) {
        DriverAction::SendVoice(p) => assert_eq!(p.packet_id, 0),
        _ => panic!("expected a voice packet"),
    }
    assert_eq!(driver.packet_id, 1);
}

#[test]
fn float_bits_match_the_hardware_conversion() {
    for n in [
        0u64,
        1,
        2,
        3,
        255,
        251_000_000,
        131_400_000,
        9_007_199_254_740_992,     // 2^53
        9_007_199_254_740_993,     // 2^53 + 1: rounds to even
        9_007_199_254_740_995,     // rounds up
        u64::MAX,
        u64::MAX - 1024,
        1 << 63,
        (1 << 63) + 4097,
    ] {
        assert_eq!(f64_bits_of_u64(n), (n as f64).to_bits(), "bits differ for {n}");
    }
}

#[test]
fn frames_split_at_newlines_only() {
    let buf = b"{\"MsgType\":\"SYNC\"}\n{\"MsgType\":";
    let (line, consumed) = decode_frame(buf).unwrap();
    assert_eq!(line, b"{\"MsgType\":\"SYNC\"}".to_vec());
    assert_eq!(consumed, 19);
    assert!(decode_frame(&buf[consumed..]).is_none());
    assert!(decode_frame(b"").is_none());
}

#[test]
fn control_messages_survive_a_json_round_trip() {
    let client = Client::new("Round Trip", 131_400_000, "AM");
    let driver = SessionDriver::new(false, Position::default());
    let pos = Position {
        lat_micro: -42_123_456,
        lon_micro: 7_000_001,
        alt_micro: 8_000_000_000,
    };
    let (sync_msg, radio_msg) = driver.handshake(&client, pos);
    for m in [&sync_msg, &radio_msg] {
        let encoded = encode_message(m);
        let (line, consumed) = decode_frame(&encoded).unwrap();
        assert_eq!(consumed, encoded.len());
        let v: serde_json::Value = serde_json::from_slice(&line).unwrap();
        assert_eq!(v["Version"], "1.9.0.0");
        assert_eq!(v["Client"]["Name"], "Round Trip");
        assert_eq!(v["Client"]["Coalition"], "Blue");
        assert_eq!(v["Client"]["LatLngPosition"]["Lat"], -42.123456);
        assert_eq!(v["Client"]["LatLngPosition"]["Lng"], 7.000001);
        assert_eq!(v["Client"]["LatLngPosition"]["Alt"], 8000.0);
    }
}

#[test]
fn game_feed_messages_are_buffered_and_relayed() {
    let client = Client::new("Relay", 251_000_000, "AM");
    let mut driver = SessionDriver::new(true, Position::default());

    // nothing buffered yet: the relay tick is silent
    match driver.step(&client, DriverEvent::GameTick) {
        DriverAction::Idle => {}
        _ => panic!("nothing to relay yet"),
    }

    let gm = GameMessage {
        name: b"Pilot One".to_vec(),
        unit: b"FA-18C".to_vec(),
        unit_id: 99,
        ptt: true,
        selected: 2,
        radios: vec![Radio::default(), Radio::default()],
        lat_lng_position: Position {
            lat_micro: 1,
            lon_micro: 2,
            alt_micro: 3,
        },
    };
    driver.step(&client, DriverEvent::Game(gm));
    match driver.step(&client, DriverEvent::GameTick) {
        DriverAction::SendControl(m) => {
            assert_eq!(m.msg_type, MsgType::RadioUpdate);
            let mc = m.client.unwrap();
            assert_eq!(mc.name.unwrap(), b"Pilot One".to_vec());
            let info = mc.radio_info.unwrap();
            assert!(info.ptt);
            assert_eq!(info.selected, 2);
            assert_eq!(info.unit_id, 99);
            assert_eq!(info.radios.len(), 2);
        }
        _ => panic!("the buffered game message was due for relay"),
    }

    // a session without a game feed sends no keep-alive pings
    let mut station = SessionDriver::new(false, Position::default());
    match station.step(&client, DriverEvent::PingTick) {
        DriverAction::Idle => {}
        _ => panic!("a stationary session needs no ping"),
    }
    match station.step(&client, DriverEvent::Shutdown) {
        DriverAction::Stop => {}
        _ => panic!("shutdown must stop the driver"),
    }
}

#[test]
fn voice_datagrams_keep_their_exact_layout() {
    let sguid = b"AAAAAAAAAAAAAAAAAAAAAA".to_vec();
    let packet = VoicePacket {
        audio_part: vec![0xAB, 0xCD],
        frequencies: vec![Frequency {
            freq_bits: (251_000_000.0f64).to_bits(),
            modulation: Modulation::FM,
            encryption: 0,
        }],
        unit_id: 0x01020304,
        packet_id: 0x1122334455667788,
        hop_count: 0,
        transmission_sguid: sguid.clone(),
        client_sguid: sguid.clone(),
    };
    let bytes = encode_voice(&packet);
    assert_eq!(bytes.len(), 63 + 2 + 10);
    // little-endian total, audio and frequency-block lengths
    assert_eq!(&bytes[0..2], &[75, 0]);
    assert_eq!(&bytes[2..4], &[2, 0]);
    assert_eq!(&bytes[4..6], &[10, 0]);
    assert_eq!(&bytes[6..8], &[0xAB, 0xCD]);
    assert_eq!(&bytes[8..16], &(251_000_000.0f64).to_bits().to_le_bytes());
    assert_eq!(bytes[16], 1); // FM
    assert_eq!(bytes[17], 0); // no encryption
    assert_eq!(&bytes[18..22], &[4, 3, 2, 1]);
    assert_eq!(&bytes[22..30], &[0x88, 0x77, 0x66, 0x55, 0x44, 0x33, 0x22, 0x11]);
    assert_eq!(bytes[30], 0);
    assert_eq!(&bytes[31..53], sguid.as_slice());
    assert_eq!(&bytes[53..75], sguid.as_slice());

    let decoded = decode_voice(&bytes).unwrap();
    assert_eq!(decoded, packet);

    // a datagram shorter than its declared length decodes to nothing
    assert!(decode_voice(&bytes[..bytes.len() - 1]).is_none());
    assert!(decode_voice(&[]).is_none());
}

#[test]
fn settings_lines_survive_the_codec_round_trip() {
    let original = settings_message(vec![
        entry("LOS_ENABLED", "True"),
        entry("DISTANCE_ENABLED", "true"),
        entry("EXTERNAL_AWACS_MODE", "false"),
    ]);
    let encoded = encode_message(&original);
    assert_eq!(
        std::str::from_utf8(&encoded).unwrap(),
        "{\"MsgType\":\"SERVER_SETTINGS\",\"ServerSettings\":{\"LOS_ENABLED\":\"True\",\
         \"DISTANCE_ENABLED\":\"true\",\"EXTERNAL_AWACS_MODE\":\"false\"},\"Version\":\"1.9.0.0\"}\n"
    );
    let (line, _) = decode_frame(&encoded).unwrap();
    let decoded = decode_control_line(&line).unwrap();
    assert_eq!(decoded.msg_type, original.msg_type);
    assert!(decoded.client.is_none());
    assert_eq!(decoded.version, original.version);
    let got = decoded.server_settings.unwrap();
    let want = original.server_settings.unwrap();
    assert_eq!(got.len(), want.len());
    for (g, w) in got.iter().zip(want.iter()) {
        assert_eq!(g.key, w.key);
        assert_eq!(g.value, w.value);
    }

    // a message without a settings map round-trips too
    let bare = Message {
        client: None,
        msg_type: MsgType::VersionMismatch,
        server_settings: None,
        version: b"2.0.0.1".to_vec(),
    };
    let encoded = encode_message(&bare);
    let (line, _) = decode_frame(&encoded).unwrap();
    let decoded = decode_control_line(&line).unwrap();
    assert_eq!(decoded.msg_type, MsgType::VersionMismatch);
    assert!(decoded.server_settings.is_none());
    assert_eq!(decoded.version, b"2.0.0.1".to_vec());
}
