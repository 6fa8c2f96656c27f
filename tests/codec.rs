use msgpack_rpc::message::{
    encode, CycleError, DecodeError, Expected, Field, Message, Params, ParamsLike, Results,
};
use msgpack_rpc::method::{Method, Registry, RegistryError};
use msgpack_rpc::profile::{login_with_password, login_with_token};

fn registry() -> Registry {
    Registry::new().expect("the method names have distinct dispatch keys")
}

fn password_request(id: u32) -> Message {
    Message::Request {
        parent: None,
        id,
        params: Params::Profile_LoginWithPassword(login_with_password::Params {
            username: "john".to_string(),
            password: "hunter2".to_string(),
            bytes: vec![0x31, 0x00, 0x12, 0x24],
        }),
    }
}

fn token_request(id: u32) -> Message {
    Message::Request {
        parent: None,
        id,
        params: Params::Profile_LoginWithToken(login_with_token::Params {
            token: "alrighty".to_string(),
        }),
    }
}

fn replace_all(haystack: &mut Vec<u8>, from: &[u8], to: &[u8]) {
    assert_eq!(from.len(), to.len());
    let at = haystack
        .windows(from.len())
        .position(|w| w == from)
        .expect("pattern present");
    haystack[at..at + to.len()].copy_from_slice(to);
}

#[test]
fn login_with_password_scenario() {
    let reg = registry();
    let msg = Message::Request {
        parent: None,
        id: 42069,
        params: Params::Profile_LoginWithPassword(login_with_password::Params {
            username: "john".to_string(),
            password: "hunter2".to_string(),
            bytes: vec![],
        }),
    };
    let bytes = encode(&msg).unwrap();
    assert_eq!(reg.decode(&bytes, None), Ok(msg.clone()));

    let mut flipped = bytes.clone();
    replace_all(
        &mut flipped,
        b"Profile.LoginWithPassword",
        b"Profile.LoginWithPasswore",
    );
    match reg.decode(&flipped, None) {
        Err(DecodeError::UnknownMethod(_)) => {}
        other => panic!("expected UnknownMethod, got {:?}", other),
    }
}

#[test]
fn token_request_exact_bytes() {
    let bytes = encode(&token_request(548)).unwrap();
    let mut expected = vec![0x94, 0x00, 0xcd, 0x02, 0x24, 0xb6];
    expected.extend_from_slice(b"Profile.LoginWithToken");
    expected.push(0x91);
    expected.push(0xa8);
    expected.extend_from_slice(b"alrighty");
    assert_eq!(bytes, expected);
}

#[test]
fn password_request_exact_bytes() {
    let bytes = encode(&password_request(127)).unwrap();
    let mut expected = vec![0x94, 0x00, 0x7f, 0xb9];
    expected.extend_from_slice(b"Profile.LoginWithPassword");
    expected.extend_from_slice(&[0x93, 0xa4]);
    expected.extend_from_slice(b"john");
    expected.push(0xa7);
    expected.extend_from_slice(b"hunter2");
    expected.extend_from_slice(&[0xc4, 0x04, 0x31, 0x00, 0x12, 0x24]);
    assert_eq!(bytes, expected);
}

#[test]
fn ids_take_the_shortest_form() {
    let short = encode(&token_request(200)).unwrap();
    assert_eq!(&short[1..4], &[0x00, 0xcc, 200]);
    let long = encode(&token_request(70000)).unwrap();
    assert_eq!(&long[1..7], &[0x00, 0xce, 0x00, 0x01, 0x11, 0x70]);
}

#[test]
fn round_trip_every_method() {
    let reg = registry();
    for msg in [password_request(1), token_request(u32::MAX), password_request(65535)] {
        let bytes = encode(&msg).unwrap();
        let back = reg.decode(&bytes, None).unwrap();
        assert_eq!(back, msg);
        assert_eq!(encode(&back).unwrap(), bytes);
    }
}

#[test]
fn parent_is_not_carried() {
    let reg = registry();
    let msg = Message::Request {
        parent: Some(7),
        id: 3,
        params: Params::Profile_LoginWithToken(login_with_token::Params {
            token: "t".to_string(),
        }),
    };
    let bytes = encode(&msg).unwrap();
    assert_eq!(bytes, encode(&token_request_with("t", 3)).unwrap());
    assert_eq!(reg.decode(&bytes, None), Ok(token_request_with("t", 3)));
}

fn token_request_with(token: &str, id: u32) -> Message {
    Message::Request {
        parent: None,
        id,
        params: Params::Profile_LoginWithToken(login_with_token::Params {
            token: token.to_string(),
        }),
    }
}

#[test]
fn long_strings_use_wider_headers() {
    let reg = registry();
    for len in [31usize, 32, 255, 256, 70000] {
        let msg = token_request_with(&"x".repeat(len), 9);
        let bytes = encode(&msg).unwrap();
        assert_eq!(reg.decode(&bytes, None), Ok(msg));
    }
}

#[test]
fn response_round_trip() {
    let reg = registry();
    let ok = Message::Response {
        id: 42,
        error: None,
        results: Results::Profile_LoginWithPassword(login_with_password::Results { ok: true }),
    };
    let bytes = encode(&ok).unwrap();
    assert_eq!(bytes, vec![0x94, 0x01, 42, 0xc0, 0x91, 0xc3]);
    assert_eq!(
        reg.decode(&bytes, Some(Method::ProfileLoginWithPassword)),
        Ok(ok.clone())
    );

    let failed = Message::Response {
        id: 43,
        error: Some("denied".to_string()),
        results: Results::Profile_LoginWithToken(login_with_token::Results { ok: false }),
    };
    let bytes = encode(&failed).unwrap();
    let back = reg.decode(&bytes, Some(Method::ProfileLoginWithToken)).unwrap();
    assert_eq!(back, failed);
    assert_eq!(encode(&back).unwrap(), bytes);
}

#[test]
fn response_needs_its_method() {
    let reg = registry();
    let bytes = vec![0x94, 0x01, 42, 0xc0, 0x91, 0xc3];
    assert_eq!(
        reg.decode(&bytes, None),
        Err(DecodeError::MissingField(Field::Method))
    );
}

#[test]
fn unknown_method_is_rejected() {
    let reg = registry();
    let mut bytes = vec![0x94, 0x00, 0x01, 0xa3];
    bytes.extend_from_slice(b"Foo");
    bytes.extend_from_slice(&[0x91, 0xa1, b'x']);
    match reg.decode(&bytes, None) {
        Err(DecodeError::UnknownMethod(key)) => {
            assert_eq!(reg.lookup("Foo"), Err(key));
        }
        other => panic!("expected UnknownMethod, got {:?}", other),
    }
}

#[test]
fn truncation_at_every_field() {
    let reg = registry();
    let full = encode(&token_request(5)).unwrap();
    // [0x94, 0x00, 0x05, 0xb6, name..., 0x91, 0xa8, token...]
    let name_end = 4 + 22;
    let cases: [(usize, Field); 4] = [
        (1, Field::Type),
        (2, Field::Id),
        (3, Field::Method),
        (name_end, Field::Params),
    ];
    for (cut, field) in cases {
        assert_eq!(
            reg.decode(&full[..cut], None),
            Err(DecodeError::MissingField(field))
        );
        let mut short = full[..cut].to_vec();
        short[0] = 0x90 + field_count(field);
        assert_eq!(
            reg.decode(&short, None),
            Err(DecodeError::MissingField(field))
        );
    }
    assert_eq!(
        reg.decode(&[], None),
        Err(DecodeError::MissingField(Field::Envelope))
    );
}

fn field_count(f: Field) -> u8 {
    match f {
        Field::Type => 0,
        Field::Id => 1,
        Field::Method => 2,
        _ => 3,
    }
}

#[test]
fn array_with_only_type_and_id() {
    let reg = registry();
    assert_eq!(
        reg.decode(&[0x92, 0x00, 0x2a], None),
        Err(DecodeError::MissingField(Field::Method))
    );
}

#[test]
fn undefined_discriminant() {
    let reg = registry();
    assert_eq!(
        reg.decode(&[0x94, 0x02, 0x01, 0xc0, 0x90], None),
        Err(DecodeError::UnknownMessageType(2))
    );
    assert_eq!(
        reg.decode(&[0x91, 0xcc, 0xff], None),
        Err(DecodeError::UnknownMessageType(255))
    );
}

#[test]
fn wrong_kinds_are_type_mismatches() {
    let reg = registry();
    assert_eq!(
        reg.decode(&[0x94, 0xa1, b'x'], None),
        Err(DecodeError::TypeMismatch(Expected::Unsigned, 0xa1))
    );
    assert_eq!(
        reg.decode(&[0x80], None),
        Err(DecodeError::TypeMismatch(Expected::Array, 0x80))
    );
    assert_eq!(
        reg.decode(&[0x94, 0x00, 0x01, 0x05], None),
        Err(DecodeError::TypeMismatch(Expected::Text, 0x05))
    );
    assert_eq!(
        reg.decode(&[0x94, 0x01, 0x01, 0x05], None),
        Err(DecodeError::TypeMismatch(Expected::TextOrNil, 0x05))
    );
}

#[test]
fn malformed_payloads() {
    let reg = registry();
    let mut trailing = encode(&token_request(5)).unwrap();
    trailing.push(0x00);
    assert_eq!(reg.decode(&trailing, None), Err(DecodeError::MalformedPayload));

    let full = encode(&token_request(5)).unwrap();
    assert_eq!(
        reg.decode(&full[..full.len() - 1], None),
        Err(DecodeError::MalformedPayload)
    );

    let mut bad_utf8 = full.clone();
    let last = bad_utf8.len() - 1;
    bad_utf8[last] = 0xff;
    assert_eq!(reg.decode(&bad_utf8, None), Err(DecodeError::MalformedPayload));

    let mut extra = full.clone();
    extra[0] = 0x95;
    extra.push(0xc0);
    assert_eq!(reg.decode(&extra, None), Err(DecodeError::MalformedPayload));
}

#[test]
fn registry_keys_match_seahash() {
    let reg = registry();
    assert_eq!(reg.position_of_key(14049389558238484926), Some(0));
    assert_eq!(reg.position_of_key(4196540711449377264), Some(1));
    assert_eq!(reg.position_of_key(0), None);
    assert_eq!(
        reg.lookup("Profile.LoginWithToken"),
        Ok(Method::ProfileLoginWithToken)
    );
}

#[test]
fn colliding_registry_fails() {
    let table = [
        ("A.B", Method::ProfileLoginWithToken),
        ("C.D", Method::ProfileLoginWithPassword),
        ("A.B", Method::ProfileLoginWithPassword),
    ];
    assert_eq!(
        Registry::with_entries(&table).err(),
        Some(RegistryError::Collision { first: 0, second: 2 })
    );
    let custom = Registry::with_entries(&table[..2]).unwrap();
    assert_eq!(custom.lookup("C.D"), Ok(Method::ProfileLoginWithPassword));
    assert!(custom.lookup("Profile.LoginWithToken").is_err());
}

#[test]
fn method_names() {
    if let Message::Request { params, .. } = password_request(1) {
        assert_eq!(params.method(), "Profile.LoginWithPassword");
    }
    let p = Params::Profile_LoginWithToken(login_with_token::Params {
        token: String::new(),
    });
    assert_eq!(p.method(), "Profile.LoginWithToken");
    assert_eq!(p.kind(), Method::ProfileLoginWithToken);
    assert_eq!(Method::ProfileLoginWithPassword.name(), "Profile.LoginWithPassword");
}

#[test]
fn cycle_matches_for_registered_methods() {
    let reg = registry();
    assert_eq!(reg.cycle(&password_request(127)), Ok(true));
    assert_eq!(reg.cycle(&token_request(548)), Ok(true));
    let response = Message::Response {
        id: 9,
        error: Some("nope".to_string()),
        results: Results::Profile_LoginWithToken(login_with_token::Results { ok: false }),
    };
    assert_eq!(reg.cycle(&response), Ok(true));
}

#[test]
fn cycle_reports_unregistered_method() {
    let only_password = Registry::with_entries(&[(
        "Profile.LoginWithPassword",
        Method::ProfileLoginWithPassword,
    )])
    .unwrap();
    match only_password.cycle(&token_request(1)) {
        Err(CycleError::Decode(DecodeError::UnknownMethod(key))) => {
            assert_eq!(key, 4196540711449377264);
        }
        other => panic!("expected UnknownMethod, got {:?}", other),
    }
    assert_eq!(only_password.cycle(&password_request(2)), Ok(true));
    assert_eq!(only_password.len(), 1);
}

#[test]
fn malformed_id_is_missing() {
    let reg = registry();
    let mut bytes = vec![0x94, 0x00, 0xa3, b'a', b'b', b'c', 0xb6];
    bytes.extend_from_slice(b"Profile.LoginWithToken");
    bytes.extend_from_slice(&[0x91, 0xa1, b't']);
    assert_eq!(
        reg.decode(&bytes, None),
        Err(DecodeError::MissingField(Field::Id))
    );
    assert_eq!(
        reg.decode(&[0x94, 0x00, 0xcd, 0x01], None),
        Err(DecodeError::MissingField(Field::Id))
    );
    assert_eq!(
        reg.decode(&[0x94, 0x01, 0xcf, 0, 0, 0, 0, 0, 0, 0, 1, 0xc0, 0x91, 0xc3], Some(Method::ProfileLoginWithToken)),
        Err(DecodeError::MissingField(Field::Id))
    );
}

#[test]
fn wide_discriminants() {
    let reg = registry();
    assert_eq!(
        reg.decode(&[0x91, 0xcf, 0x01, 0, 0, 0, 0, 0, 0, 0x02], None),
        Err(DecodeError::UnknownMessageType(0x0100_0000_0000_0002))
    );
    let mut bytes = vec![0x94, 0xcf, 0, 0, 0, 0, 0, 0, 0, 0, 0x05, 0xb6];
    bytes.extend_from_slice(b"Profile.LoginWithToken");
    bytes.extend_from_slice(&[0x91, 0xa1, b't']);
    assert_eq!(reg.decode(&bytes, None), Ok(token_request_with("t", 5)));
}

#[test]
fn truncated_responses_without_method() {
    let reg = registry();
    let cases: [(&[u8], Field); 4] = [
        (&[0x91, 0x01], Field::Id),
        (&[0x92, 0x01, 0x07], Field::Error),
        (&[0x93, 0x01, 0x07, 0xc0], Field::Results),
        (&[0x94, 0x01, 0x07, 0xc0], Field::Results),
    ];
    for (bytes, field) in cases {
        assert_eq!(
            reg.decode(bytes, None),
            Err(DecodeError::MissingField(field))
        );
    }
}

#[test]
fn method_by_key() {
    let reg = registry();
    assert_eq!(
        reg.method_of_key(14049389558238484926),
        Some(Method::ProfileLoginWithPassword)
    );
    assert_eq!(
        reg.method_of_key(4196540711449377264),
        Some(Method::ProfileLoginWithToken)
    );
    assert_eq!(reg.method_of_key(1), None);
}

#[test]
fn lookup_from_unaligned_names() {
    let reg = registry();
    for pad in 0..9 {
        let padded = format!("{}{}", "x".repeat(pad), "Profile.LoginWithPassword");
        assert_eq!(
            reg.lookup(&padded[pad..]),
            Ok(Method::ProfileLoginWithPassword)
        );
        let long = format!("{}{}", "y".repeat(pad), "a name longer than thirty-two bytes, to reach the bulk loop");
        let table = [(&long[pad..], Method::ProfileLoginWithToken)];
        let custom = Registry::with_entries(&table).unwrap();
        assert_eq!(custom.lookup(&long[pad..]), Ok(Method::ProfileLoginWithToken));
        assert_eq!(custom.len(), 1);
    }
}
