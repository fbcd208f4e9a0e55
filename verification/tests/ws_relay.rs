use mantis_hybrid::json::Json;
use mantis_hybrid::shipment::{
    acked, acked_in, embed, last_id, write_batch, BookColumns, FeedColumns, ShippedRow,
};
use mantis_hybrid::ws_relay::{
    compute_hmac, join_frame, split_frame, verify_hmac, Action, Event, Relay, RelayError, Session,
    BATCH_SIZE, HMAC_LEN,
};
use serde_json::Value;

// -- HMAC

#[test]
fn hmac_deterministic() {
    let secret = b"test-secret-32-bytes-minimum!!!!";
    let nonce = b"random-nonce-32-bytes-exactly!!!!";
    let h1 = compute_hmac(secret, nonce);
    let h2 = compute_hmac(secret, nonce);
    assert_eq!(h1, h2);
    assert_eq!(h1.len(), HMAC_LEN);
}

#[test]
fn hmac_different_nonce_different_output() {
    let secret = b"test-secret-32-bytes-minimum!!!!";
    let h1 = compute_hmac(secret, b"nonce-a-32-bytes-exactly!!!!!!!!");
    let h2 = compute_hmac(secret, b"nonce-b-32-bytes-exactly!!!!!!!!");
    assert_ne!(h1, h2);
}

#[test]
fn hmac_verify_correct() {
    let secret = b"test-secret-32-bytes-minimum!!!!";
    let nonce = b"random-nonce-32-bytes-exactly!!!!";
    let response = compute_hmac(secret, nonce);
    assert!(verify_hmac(secret, nonce, &response));
}

#[test]
fn hmac_verify_wrong_secret() {
    let secret = b"test-secret-32-bytes-minimum!!!!";
    let wrong = b"wrong-secret-32-bytes-minimum!!!";
    let nonce = b"random-nonce-32-bytes-exactly!!!!";
    let response = compute_hmac(secret, nonce);
    assert!(!verify_hmac(wrong, nonce, &response));
}

// -- Session key derivation

#[test]
fn session_derive_succeeds() {
    let secret = b"shared-secret-for-test-purposes!";
    let nonce = b"session-nonce-32-bytes-exactly!!";
    let session = Session::derive(secret, nonce);
    assert!(session.is_ok());
}

#[test]
fn session_different_nonce_different_key() {
    let secret = b"shared-secret-for-test-purposes!";
    let s1 = Session::derive(secret, b"nonce-a").unwrap();
    let s2 = Session::derive(secret, b"nonce-b").unwrap();
    // Encrypt the same plaintext — ciphertexts should differ
    let pt = b"test plaintext";
    let c1 = s1.encrypt(pt).unwrap();
    let c2 = s2.encrypt(pt).unwrap();
    // Different keys + different random GCM nonces → different ciphertexts
    assert_ne!(c1, c2);
}

#[test]
fn session_different_secret_different_key() {
    let nonce = b"same-nonce-for-both-sessions!!!!";
    let s1 = Session::derive(b"secret-a-32-bytes-for-testing!!", nonce).unwrap();
    let s2 = Session::derive(b"secret-b-32-bytes-for-testing!!", nonce).unwrap();
    let pt = b"test";
    // s2 cannot decrypt what s1 encrypted
    let ct = s1.encrypt(pt).unwrap();
    assert!(s2.decrypt(&ct).is_err());
}

// -- Encrypt/decrypt roundtrip

#[test]
fn encrypt_decrypt_roundtrip() {
    let session = Session::derive(b"key-material", b"nonce").unwrap();
    let plaintext = b"hello mantis-archive";
    let encrypted = session.encrypt(plaintext).unwrap();
    let decrypted = session.decrypt(&encrypted).unwrap();
    assert_eq!(&decrypted, plaintext);
}

#[test]
fn encrypt_decrypt_json_row() {
    let session = Session::derive(b"key-material", b"nonce").unwrap();
    let mut meta = serde_json::Map::new();
    meta.insert("trade_id".to_string(), serde_json::Value::from(123456789));
    let mut object = serde_json::Map::new();
    object.insert("ts".to_string(), serde_json::Value::from(1710000000.12));
    object.insert("source".to_string(), serde_json::Value::from("binance"));
    object.insert("value".to_string(), serde_json::Value::from(95123.45));
    object.insert("meta".to_string(), serde_json::Value::Object(meta));
    let row = serde_json::Value::Object(object);
    let plaintext = row.to_string();
    let encrypted = session.encrypt(plaintext.as_bytes()).unwrap();
    let decrypted = session.decrypt(&encrypted).unwrap();
    let recovered: serde_json::Value = serde_json::from_slice(&decrypted).unwrap();
    assert_eq!(recovered, row);
}

#[test]
fn encrypt_decrypt_empty() {
    let session = Session::derive(b"key-material", b"nonce").unwrap();
    let encrypted = session.encrypt(b"").unwrap();
    let decrypted = session.decrypt(&encrypted).unwrap();
    assert!(decrypted.is_empty());
}

#[test]
fn decrypt_tampered_frame_fails() {
    let session = Session::derive(b"key-material", b"nonce").unwrap();
    let mut encrypted = session.encrypt(b"secret data").unwrap();
    // Flip a byte in the ciphertext
    let mid = encrypted.len() / 2;
    encrypted[mid] ^= 0xFF;
    assert!(session.decrypt(&encrypted).is_err());
}

#[test]
fn decrypt_short_frame_fails() {
    let session = Session::derive(b"key-material", b"nonce").unwrap();
    // Less than 12 (nonce) + 16 (tag) = 28 bytes
    let short = vec![0u8; 20];
    assert!(session.decrypt(&short).is_err());
}

// -- Frame format

#[test]
fn encrypted_frame_has_nonce_prefix() {
    let session = Session::derive(b"key-material", b"nonce").unwrap();
    let encrypted = session.encrypt(b"data").unwrap();
    // Frame = 12-byte GCM nonce + ciphertext + 16-byte tag
    // For 4 bytes of plaintext: 12 + 4 + 16 = 32 bytes minimum
    assert!(encrypted.len() >= 12 + 16);
}

#[test]
fn each_encrypt_produces_unique_nonce() {
    let session = Session::derive(b"key-material", b"nonce").unwrap();
    let e1 = session.encrypt(b"same").unwrap();
    let e2 = session.encrypt(b"same").unwrap();
    // First 12 bytes (GCM nonce) should differ
    assert_ne!(&e1[..12], &e2[..12]);
    // Entire ciphertext differs too
    assert_ne!(e1, e2);
}

// -- Cross-session isolation

#[test]
fn cross_session_decrypt_fails() {
    let s1 = Session::derive(b"key", b"nonce-1").unwrap();
    let s2 = Session::derive(b"key", b"nonce-2").unwrap();
    let encrypted = s1.encrypt(b"session 1 data").unwrap();
    // s2 has a different session key — decryption must fail
    assert!(s2.decrypt(&encrypted).is_err());
}

// -- Handshake integration

#[test]
fn full_handshake_flow() {
    // Simulate the complete handshake: server generates nonce, client
    // responds with HMAC, server verifies, both derive same session key.
    let shared_secret = b"production-grade-secret-key-here!";
    let server_nonce = b"server-generated-random-nonce!!!";

    // Client computes HMAC
    let client_response = compute_hmac(shared_secret, server_nonce);

    // Server verifies
    assert!(verify_hmac(shared_secret, server_nonce, &client_response));

    // Both derive session key — encrypt/decrypt must be symmetric
    let client_session = Session::derive(shared_secret, server_nonce).unwrap();
    let server_session = Session::derive(shared_secret, server_nonce).unwrap();

    let msg = b"test message from client";
    let encrypted = client_session.encrypt(msg).unwrap();
    let decrypted = server_session.decrypt(&encrypted).unwrap();
    assert_eq!(&decrypted, msg);

    // And the reverse direction
    let reply = b"ack from server";
    let encrypted_reply = server_session.encrypt(reply).unwrap();
    let decrypted_reply = client_session.decrypt(&encrypted_reply).unwrap();
    assert_eq!(&decrypted_reply, reply);
}

#[test]
fn handshake_wrong_secret_no_decrypt() {
    let real_secret = b"real-secret-for-auth!!!!!!!!!!!!!";
    let fake_secret = b"attacker-secret-no-auth!!!!!!!!!";
    let nonce = b"server-nonce-32-bytes!!!!!!!!!!!!";

    // Attacker authenticates with wrong secret — server rejects
    let fake_hmac = compute_hmac(fake_secret, nonce);
    assert!(!verify_hmac(real_secret, nonce, &fake_hmac));

    // Even if attacker derives a session from their secret, they can't
    // decrypt messages encrypted with the real session key.
    let real_session = Session::derive(real_secret, nonce).unwrap();
    let fake_session = Session::derive(fake_secret, nonce).unwrap();

    let encrypted = real_session.encrypt(b"sensitive feed data").unwrap();
    assert!(fake_session.decrypt(&encrypted).is_err());
}

// -- Known values

#[test]
fn hmac_of_a_known_message() {
    let expected: [u8; 32] = [
        0x5b, 0xdc, 0xc1, 0x46, 0xbf, 0x60, 0x75, 0x4e, 0x6a, 0x04, 0x24, 0x26, 0x08, 0x95, 0x75,
        0xc7, 0x5a, 0x00, 0x3f, 0x08, 0x9d, 0x27, 0x39, 0x83, 0x9d, 0xec, 0x58, 0xb9, 0x64, 0xec,
        0x38, 0x43,
    ];
    assert_eq!(compute_hmac(b"Jefe", b"what do ya want for nothing?"), expected);
    assert!(verify_hmac(b"Jefe", b"what do ya want for nothing?", &expected));
    assert!(!verify_hmac(b"Jefe", b"what do ya want for nothing?", &expected[..31]));
    assert!(!verify_hmac(b"Jefe", b"what do ya want for nothing?", b""));
}

#[test]
fn frame_under_a_known_key() {
    let session = Session::derive(b"shared-secret", b"server-nonce").unwrap();
    let gcm_nonce: [u8; 12] = [0, 1, 2, 3, 4, 5, 6, 7, 8, 9, 10, 11];
    let frame = session.encrypt_with(&gcm_nonce, b"feed").unwrap();
    assert_eq!(
        frame,
        vec![
            0, 1, 2, 3, 4, 5, 6, 7, 8, 9, 10, 11, 187, 105, 136, 180, 216, 112, 118, 252, 200, 164,
            38, 172, 70, 158, 101, 55, 131, 144, 241, 236
        ]
    );
    assert_eq!(session.decrypt(&frame).unwrap(), b"feed");
}

#[test]
fn decrypt_errors_name_their_cause() {
    let session = Session::derive(b"key-material", b"nonce").unwrap();
    assert_eq!(session.decrypt(&[0u8; 27]).unwrap_err(), RelayError::FrameTooShort(27));
    assert_eq!(session.decrypt(&[0u8; 28]).unwrap_err(), RelayError::DecryptFailed);
    assert_eq!(session.decrypt(b"").unwrap_err(), RelayError::FrameTooShort(0));
}

// -- Relay

const SECRET: &[u8] = b"production-grade-secret-key-here!";
const NONCE: &[u8] = b"server-generated-random-nonce!!!";

fn concat(parts: &[&str]) -> Vec<u8> {
    parts.concat().into_bytes()
}

fn feed(id: i64, source: &str) -> ShippedRow {
    FeedColumns {
        id,
        ts: Value::from(1.5),
        source: source.to_string(),
        value: Value::from(2.0),
        meta: None,
    }
    .into_row()
}

fn book(id: i64) -> ShippedRow {
    BookColumns {
        id,
        ts: Value::from(1.5),
        ticker: "T".to_string(),
        venue: "kalshi".to_string(),
        best_bid: Value::from(0.45),
        best_ask: Value::Null,
        spread: Value::from(0.0),
        bid_depth: Value::from(2.0),
        ask_depth: Value::from(3.0),
        levels: Some(r#"{"yes": [[0.45, 2]], "no": []}"#.to_string()),
    }
    .into_row()
}

fn authenticated() -> Relay {
    let mut relay = Relay::new(SECRET.to_vec());
    assert!(matches!(relay.step(Event::Connected), Action::Receive));
    match relay.step(Event::Binary(NONCE.to_vec())) {
        Action::Send(response) => assert!(verify_hmac(SECRET, NONCE, &response)),
        _ => panic!("the nonce calls for a response"),
    }
    assert!(matches!(relay.step(Event::Sent), Action::Receive));
    assert!(matches!(relay.step(Event::Other), Action::Listen(None)));
    relay
}

#[test]
fn relay_ships_both_batches_and_moves_its_watermarks() {
    let server = Session::derive(SECRET, NONCE).unwrap();
    let mut relay = authenticated();
    assert!(matches!(relay.step(Event::Tick), Action::ReadFeeds(0, BATCH_SIZE)));
    match relay.step(Event::Rows(vec![feed(16, "a"), feed(17, "b")])) {
        Action::Send(frame) => assert_eq!(
            server.decrypt(&frame).unwrap(),
            concat(&[
                r#"{"batch":"feeds","count":2,"rows":["#,
                r#"{"meta":null,"source":"a","ts":1.5,"type":"feed","value":2.0},"#,
                r#"{"meta":null,"source":"b","ts":1.5,"type":"feed","value":2.0}]}"#,
            ])
        ),
        _ => panic!("rows are shipped"),
    }
    assert!(matches!(relay.step(Event::Sent), Action::ReadBooks(0, BATCH_SIZE)));
    match relay.step(Event::Rows(vec![book(4)])) {
        Action::Send(frame) => assert_eq!(
            server.decrypt(&frame).unwrap(),
            concat(&[
                r#"{"batch":"books","count":1,"rows":[{"ask_depth":3.0,"best_ask":null,"#,
                r#""best_bid":0.45,"bid_depth":2.0,"levels":{"no":[],"yes":[[0.45,2]]},"#,
                r#""spread":0.0,"ticker":"T","ts":1.5,"type":"book","venue":"kalshi"}]}"#,
            ])
        ),
        _ => panic!("rows are shipped"),
    }
    assert!(matches!(relay.step(Event::Sent), Action::Listen(None)));
    assert!(matches!(relay.step(Event::Tick), Action::ReadFeeds(17, BATCH_SIZE)));
    assert!(matches!(relay.step(Event::Rows(vec![])), Action::ReadBooks(4, BATCH_SIZE)));
    assert!(matches!(relay.step(Event::ReadFailed), Action::Listen(None)));
}

#[test]
fn relay_ships_a_failed_batch_again() {
    let mut relay = authenticated();
    relay.step(Event::Tick);
    relay.step(Event::Rows(vec![feed(17, "a")]));
    assert!(matches!(relay.step(Event::SendFailed), Action::Wait));
    assert!(matches!(relay.step(Event::Waited), Action::Connect));
    relay.step(Event::Connected);
    relay.step(Event::Binary(NONCE.to_vec()));
    relay.step(Event::Sent);
    relay.step(Event::Binary(b"ok".to_vec()));
    assert!(matches!(relay.step(Event::Tick), Action::ReadFeeds(0, BATCH_SIZE)));
}

#[test]
fn relay_refuses_a_nonce_of_another_length() {
    let mut relay = Relay::new(SECRET.to_vec());
    relay.step(Event::Connected);
    assert!(matches!(relay.step(Event::Binary(NONCE[..31].to_vec())), Action::Wait));
}

#[test]
fn relay_gives_up_a_refused_handshake() {
    let mut relay = Relay::new(SECRET.to_vec());
    relay.step(Event::Connected);
    relay.step(Event::Binary(NONCE.to_vec()));
    relay.step(Event::Sent);
    assert!(matches!(relay.step(Event::Close), Action::Wait));
    assert!(matches!(relay.step(Event::Tick), Action::Wait));
    assert!(matches!(relay.step(Event::Waited), Action::Connect));
    assert!(matches!(relay.step(Event::ConnectFailed), Action::Wait));
}

#[test]
fn relay_reads_acknowledgements_and_drops_on_forged_ones() {
    let server = Session::derive(SECRET, NONCE).unwrap();
    let mut relay = authenticated();
    let ack = server.encrypt(b"{\"acked\":3}").unwrap();
    match relay.step(Event::Binary(ack)) {
        Action::Listen(Some(count)) => assert_eq!(count, "3"),
        _ => panic!("the acknowledgement is read"),
    }
    let other = server.encrypt(b"no document").unwrap();
    assert!(matches!(relay.step(Event::Binary(other)), Action::Listen(None)));
    assert!(matches!(relay.step(Event::Other), Action::Listen(None)));
    assert!(matches!(relay.step(Event::Binary(vec![7u8; 40])), Action::Wait));
}

#[test]
fn relay_stops_for_good() {
    let mut relay = authenticated();
    assert!(matches!(relay.step(Event::Stop), Action::Quit));
    assert!(matches!(relay.step(Event::Waited), Action::Quit));
    assert!(matches!(relay.step(Event::Connected), Action::Quit));
}

#[test]
fn frames_come_apart_as_they_were_joined() {
    let nonce: [u8; 12] = [9; 12];
    let sealed: Vec<u8> = (0..20).collect();
    let frame = join_frame(&nonce, &sealed);
    assert_eq!(frame.len(), 32);
    assert_eq!(split_frame(&frame), Some((&nonce[..], &sealed[..])));
    assert_eq!(split_frame(&frame[..27]), None);
    assert!(split_frame(&frame[..28]).is_some());
}

#[test]
fn rows_are_shipped_once_over_a_failed_send() {
    let server = Session::derive(SECRET, NONCE).unwrap();
    let table: Vec<i64> = (1..=250).collect();
    let mut relay = authenticated();
    let mut shipped: Vec<i64> = Vec::new();
    let mut sends = 0;
    while shipped.len() < table.len() {
        let (mark, limit) = match relay.step(Event::Tick) {
            Action::ReadFeeds(mark, limit) => (mark, limit),
            _ => panic!("a tick asks for rows"),
        };
        let ids: Vec<i64> = table.iter().copied().filter(|id| *id > mark).take(limit).collect();
        let rows = ids.iter().map(|id| feed(*id, &id.to_string())).collect();
        let frame = match relay.step(Event::Rows(rows)) {
            Action::Send(frame) => frame,
            _ => panic!("rows are shipped"),
        };
        sends += 1;
        if sends == 2 {
            assert!(matches!(relay.step(Event::SendFailed), Action::Wait));
            relay.step(Event::Waited);
            relay.step(Event::Connected);
            relay.step(Event::Binary(NONCE.to_vec()));
            relay.step(Event::Sent);
            relay.step(Event::Other);
            continue;
        }
        let doc: Value = serde_json::from_slice(&server.decrypt(&frame).unwrap()).unwrap();
        for row in doc["rows"].as_array().unwrap() {
            shipped.push(row["source"].as_str().unwrap().parse().unwrap());
        }
        relay.step(Event::Sent);
        relay.step(Event::Rows(vec![]));
    }
    assert_eq!(shipped, table);
    assert_eq!(sends, 4);
}

#[test]
fn batch_reaches_its_last_row() {
    assert_eq!(last_id(&vec![]), None);
    assert_eq!(last_id(&vec![feed(3, "a"), feed(9, "b")]), Some(9));
    assert_eq!(
        write_batch("feeds", vec![]),
        r#"{"batch":"feeds","count":0,"rows":[]}"#.as_bytes()
    );
}

#[test]
fn embedded_text_becomes_a_document() {
    assert_eq!(embed(&None), Value::Null);
    assert_eq!(embed(&Some("not json".to_string())), Value::Null);
    assert_eq!(embed(&Some("[1, 2.50]".to_string())).to_string(), "[1,2.5]");
    let row = FeedColumns {
        id: 1,
        ts: Value::from(1.5),
        source: "binance".to_string(),
        value: Value::from(f64::NAN),
        meta: Some(r#"{"trade_id": 123456789, "price": 95123.45}"#.to_string()),
    }
    .into_row();
    assert_eq!(
        row.doc.to_string(),
        r#"{"meta":{"price":95123.45,"trade_id":123456789},"source":"binance","ts":1.5,"type":"feed","value":null}"#
    );
}

#[test]
fn acknowledgements_are_whole_numbers() {
    assert_eq!(acked(br#"{"acked": 17}"#).as_deref(), Some("17"));
    assert_eq!(acked(br#"{"acked": 18446744073709551615}"#).as_deref(), Some("18446744073709551615"));
    assert_eq!(acked(br#"{"acked": -1}"#), None);
    assert_eq!(acked(br#"{"acked": 1.5}"#), None);
    assert_eq!(acked(br#"{"acked": 18446744073709551616}"#), None);
    assert_eq!(acked(br#"{"acked": "17"}"#), None);
    assert_eq!(acked(br#"{"rows": 17}"#), None);
    assert_eq!(acked(b"\xff\xfe"), None);
    assert_eq!(acked(b""), None);
    let doc = Json::parse(r#"{"acked": 4}"#).unwrap();
    assert_eq!(acked_in(&doc).as_deref(), Some("4"));
}
