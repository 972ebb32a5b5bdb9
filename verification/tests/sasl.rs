//! SASL: PLAIN, SCRAM-SHA-256, and the requests that carry them.

use bytes::{Buf, Bytes, BytesMut};
use volant_kafka::api::{ApiKey, KafkaErrorCode, KAFKA_ANONYMOUS_PRINCIPAL};
use volant_kafka::codec::{
    encode_request, encode_request_flexible, get_bytes, get_compact_bytes,
    get_compact_nullable_string, get_nullable_string, get_string, put_compact_bytes, put_string,
    skip_tag_buffer, try_decode_request,
};
use volant_kafka::error::Error;
use volant_kafka::handler::{
    decode_auth_bytes, dispatch_kafka, encode_sasl_authenticate, encode_sasl_handshake,
    put_end_txn_failed, Authentication, KafkaConnState, Route,
};
use volant_kafka::sasl::{
    after_begin, after_finish, after_password, authenticate_step, sasl_decode_name, AuthStep,
    SaslMechanism, SaslState, SaslWork, ScramChallenge, ServerFirst,
};

fn plain(state: &mut SaslState, msg: &[u8], known: (&str, &str)) -> AuthStep {
    match authenticate_step(state, msg).unwrap() {
        SaslWork::Answer(s) => s,
        SaslWork::CheckPassword { username, password } => {
            let accepted = username == known.0 && password == known.1;
            after_password(state, username, accepted)
        }
        other => panic!("{other:?}"),
    }
}

#[test]
fn plain_roundtrip() {
    let mut state = SaslState::Selected(SaslMechanism::Plain);
    let msg = b"\0alice\0s3cret";
    let step = plain(&mut state, msg, ("alice", "s3cret"));
    assert!(!step.failed);
    assert_eq!(step.principal.as_deref(), Some("alice"));
    assert!(matches!(state, SaslState::Done));
}

#[test]
fn plain_bad_password() {
    let mut state = SaslState::Selected(SaslMechanism::Plain);
    let step = plain(&mut state, b"\0alice\0wrong", ("alice", "s3cret"));
    assert!(step.failed);
    assert!(step.principal.is_none());
}

/// A store of credentials that takes one proof for the nonce that it gave out.
fn finish(challenge: &ScramChallenge, combined_nonce: &str, proof: &[u8]) -> Option<Vec<u8>> {
    if challenge.combined_nonce == combined_nonce && proof == b"proof" {
        Some(b"sig".to_vec())
    } else {
        None
    }
}

#[test]
fn scram_sha256_roundtrip() {
    let mut state = SaslState::Selected(SaslMechanism::ScramSha256);
    let client_nonce = "rOprNGfwEbeRWgbNEkqO";
    let first = format!("n,,n=bob,r={client_nonce}");
    let step1 = match authenticate_step(&mut state, first.as_bytes()).unwrap() {
        SaslWork::BeginScram { username, client_nonce: nonce } => {
            assert_eq!(username, "bob");
            assert_eq!(nonce, client_nonce);
            let reply = ServerFirst {
                salt: vec![1, 2, 3, 4],
                iterations: 4096,
                combined_nonce: format!("{nonce}server"),
            };
            after_begin(&mut state, username, nonce, Ok(reply))
        }
        other => panic!("{other:?}"),
    };
    assert!(!step1.failed);
    assert!(step1.principal.is_none());
    let server_first = std::str::from_utf8(&step1.auth_bytes).unwrap();
    assert_eq!(server_first, format!("r={client_nonce}server,s=AQIDBA==,i=4096"));

    let final_msg = format!("c=biws,r={client_nonce}server,p=cHJvb2Y=");
    let step2 = match authenticate_step(&mut state, final_msg.as_bytes()).unwrap() {
        SaslWork::FinishScram { challenge, combined_nonce, proof } => {
            assert_eq!(challenge.username, "bob");
            assert_eq!(challenge.client_nonce, client_nonce);
            assert_eq!(challenge.combined_nonce, format!("{client_nonce}server"));
            assert_eq!((challenge.salt.as_slice(), challenge.iterations), (&[1u8, 2, 3, 4][..], 4096));
            let signature = finish(&challenge, &combined_nonce, &proof);
            after_finish(&mut state, challenge, signature)
        }
        other => panic!("{other:?}"),
    };
    assert!(!step2.failed, "{:?}", step2.error_message);
    assert_eq!(step2.principal.as_deref(), Some("bob"));
    assert_eq!(std::str::from_utf8(&step2.auth_bytes).unwrap(), "v=c2ln");
    assert!(matches!(state, SaslState::Done));
}

#[test]
fn plain_takes_an_identity_or_none() {
    for msg in [&b"alice\0s3cret"[..], &b"id\0alice\0s3cret"[..]] {
        let mut state = SaslState::Selected(SaslMechanism::Plain);
        let step = plain(&mut state, msg, ("alice", "s3cret"));
        assert_eq!(step.principal.as_deref(), Some("alice"));
    }
    for (msg, why) in [
        (&b"alice"[..], "invalid PLAIN message"),
        (&b"a\0b\0c\0d"[..], "invalid PLAIN message"),
        (&b"\0\0pass"[..], "invalid PLAIN username"),
        (&b"\0\xff\0pass"[..], "invalid PLAIN username"),
        (&b"\0alice\0\xff"[..], "invalid PLAIN password"),
    ] {
        let mut state = SaslState::Selected(SaslMechanism::Plain);
        let step = plain(&mut state, msg, ("alice", "s3cret"));
        assert!(step.failed);
        assert_eq!(step.error_message.as_deref(), Some(why));
        assert!(matches!(state, SaslState::Selected(SaslMechanism::Plain)));
    }
}

fn answer(state: &mut SaslState, msg: &[u8]) -> AuthStep {
    match authenticate_step(state, msg).unwrap() {
        SaslWork::Answer(s) => s,
        other => panic!("{other:?}"),
    }
}

#[test]
fn scram_refuses_what_it_cannot_read() {
    for (msg, bytes, why) in [
        ("y,,n=bob,r=x", "e=channel-binding-not-supported", "channel binding not supported"),
        ("p=tls,,n=bob,r=x", "e=channel-binding-not-supported", "channel binding not supported"),
        ("n,,n=bob", "e=invalid-encoding", "invalid SCRAM client-first"),
        ("n,,n=,r=x", "e=invalid-encoding", "invalid SCRAM client-first"),
        ("n,,n=bob,r=", "e=invalid-encoding", "invalid SCRAM client-first"),
    ] {
        let mut state = SaslState::Selected(SaslMechanism::ScramSha256);
        let step = answer(&mut state, msg.as_bytes());
        assert!(step.failed);
        assert_eq!(step.auth_bytes, bytes.as_bytes());
        assert_eq!(step.error_message.as_deref(), Some(why));
        assert!(matches!(state, SaslState::Idle));
    }
    let mut state = SaslState::Selected(SaslMechanism::ScramSha256);
    assert!(matches!(authenticate_step(&mut state, b"\xff"), Err(Error::Protocol(_))));
}

fn pending(user: &str) -> SaslState {
    challenged(user, "n", 1)
}

fn challenged(user: &str, nonce: &str, iterations: u32) -> SaslState {
    let mut state = SaslState::Selected(SaslMechanism::ScramSha256);
    let reply = ServerFirst { salt: vec![9], iterations, combined_nonce: nonce.into() };
    after_begin(&mut state, user.to_string(), "c".into(), Ok(reply));
    state
}

fn final_step(state: &mut SaslState, msg: &[u8]) -> AuthStep {
    match authenticate_step(state, msg).unwrap() {
        SaslWork::FinishScram { challenge, combined_nonce, proof } => {
            let signature = finish(&challenge, &combined_nonce, &proof);
            after_finish(state, challenge, signature)
        }
        other => panic!("{other:?}"),
    }
}

#[test]
fn scram_final_is_judged_by_the_challenge_of_its_connection() {
    let mut own = challenged("bob", "c-one", 4096);
    let mut other = challenged("bob", "c-two", 8192);
    let recorded = b"c=biws,r=c-one,p=cHJvb2Y=";
    let refused = final_step(&mut other, recorded);
    assert!(refused.failed && refused.principal.is_none());
    assert_eq!(refused.auth_bytes, b"e=invalid-proof");
    assert!(matches!(other, SaslState::Idle));
    let taken = final_step(&mut own, recorded);
    assert_eq!(taken.principal.as_deref(), Some("bob"));
    assert!(matches!(own, SaslState::Done));

    let mut state = challenged("bob", "c-two", 8192);
    match authenticate_step(&mut state, recorded).unwrap() {
        SaslWork::FinishScram { challenge, combined_nonce, .. } => {
            assert_eq!(challenge.combined_nonce, "c-two");
            assert_eq!((challenge.client_nonce.as_str(), challenge.iterations), ("c", 8192));
            assert_eq!(combined_nonce, "c-one");
        }
        other => panic!("{other:?}"),
    }
    match state {
        SaslState::ScramPending(c) => assert_eq!(c.combined_nonce, "c-two"),
        other => panic!("{other:?}"),
    }
}

#[test]
fn scram_final_needs_nonce_and_proof() {
    for (msg, why) in [
        (&b"c=biws,r=n"[..], "invalid SCRAM client-final"),
        (&b"c=biws,p=cHJvb2Y="[..], "invalid SCRAM client-final"),
        (&b"\xff"[..], "invalid SCRAM client-final"),
        (&b"c=biws,r=n,p=***"[..], "invalid client proof encoding"),
    ] {
        let mut state = pending("bob");
        let step = answer(&mut state, msg);
        assert!(step.failed);
        assert_eq!(step.auth_bytes, b"e=invalid-encoding");
        assert_eq!(step.error_message.as_deref(), Some(why));
        assert!(matches!(state, SaslState::Idle));
        let again = answer(&mut state, b"c=biws,r=n,p=cHJvb2Y=");
        assert_eq!(again.error_message.as_deref(), Some("SASL handshake required first"));
    }
    let mut state = pending("bob");
    let step = final_step(&mut state, b"c=biws,r=n,p=d3Jvbmc=");
    assert!(step.failed);
    assert_eq!(step.auth_bytes, b"e=invalid-proof");
    assert!(matches!(state, SaslState::Idle));
}

#[test]
fn scram_names_are_unescaped() {
    assert_eq!(sasl_decode_name("a=2Cb=3Dc"), "a,b=c");
    assert_eq!(sasl_decode_name("plain"), "plain");
    assert_eq!(sasl_decode_name("=2C=2C"), ",,");
    assert_eq!(sasl_decode_name("=2"), "=2");
    let mut state = SaslState::Selected(SaslMechanism::ScramSha256);
    match authenticate_step(&mut state, b"n=a=2Cb,r=x").unwrap() {
        SaslWork::BeginScram { username, .. } => assert_eq!(username, "a,b"),
        other => panic!("{other:?}"),
    }
}

#[test]
fn unknown_users_end_the_exchange() {
    let mut state = SaslState::Selected(SaslMechanism::ScramSha256);
    let step = after_begin(&mut state, "bob".into(), "c".into(), Err("unknown user".into()));
    assert!(step.failed);
    assert_eq!(step.error_message.as_deref(), Some("unknown user"));
    assert!(matches!(state, SaslState::Idle));
}

#[test]
fn mechanisms_have_their_names() {
    assert_eq!(SaslMechanism::parse("PLAIN"), Some(SaslMechanism::Plain));
    assert_eq!(SaslMechanism::parse("SCRAM-SHA-256"), Some(SaslMechanism::ScramSha256));
    assert_eq!(SaslMechanism::parse("plain"), None);
    assert_eq!(SaslMechanism::ScramSha256.as_str(), "SCRAM-SHA-256");
}

fn mechanisms(src: &mut Bytes) -> Vec<String> {
    let n = src.get_i32();
    (0..n).map(|_| get_string(src).unwrap()).collect()
}

#[test]
fn handshake_selects_a_mechanism() {
    let mut conn = KafkaConnState::default();
    assert_eq!(conn.acl_principal(), KAFKA_ANONYMOUS_PRINCIPAL);
    assert!(!conn.authenticated());
    for (name, code) in [
        ("SCRAM-SHA-256", 0),
        ("GSSAPI", KafkaErrorCode::UnsupportedSaslMechanism.as_i16()),
    ] {
        let mut body = BytesMut::new();
        put_string(&mut body, name);
        let mut src = body.freeze();
        let mut out = BytesMut::new();
        encode_sasl_handshake(&mut src, &mut out, &mut conn);
        let mut resp = out.freeze();
        assert_eq!(resp.get_i16(), code);
        assert_eq!(mechanisms(&mut resp), vec!["PLAIN", "SCRAM-SHA-256"]);
        assert!(matches!(conn.sasl, SaslState::Selected(SaslMechanism::ScramSha256)));
    }
    let mut out = BytesMut::new();
    encode_sasl_handshake(&mut Bytes::new(), &mut out, &mut conn);
    assert_eq!(out.freeze().get_i16(), KafkaErrorCode::InvalidRequest.as_i16());
}

#[test]
fn authenticate_response_takes_over_the_principal() {
    let mut conn = KafkaConnState::default();
    let mut out = BytesMut::new();
    let step = AuthStep {
        auth_bytes: b"v=x".to_vec(),
        principal: Some("bob".into()),
        failed: false,
        error_message: None,
    };
    encode_sasl_authenticate(&mut out, 2, &mut conn, Authentication::Step(step));
    let mut resp = out.freeze();
    assert_eq!(resp.get_i16(), 0);
    assert_eq!(get_compact_nullable_string(&mut resp).unwrap(), None);
    assert_eq!(get_compact_bytes(&mut resp).unwrap().unwrap().as_ref(), b"v=x");
    assert_eq!(resp.get_i64(), 0);
    skip_tag_buffer(&mut resp).unwrap();
    assert_eq!(resp.remaining(), 0);
    assert_eq!(conn.acl_principal(), "bob");
    assert!(conn.authenticated());
}

#[test]
fn authenticate_failures_are_told() {
    let mut conn = KafkaConnState::default();
    let mut out = BytesMut::new();
    encode_sasl_authenticate(&mut out, 0, &mut conn, Authentication::Truncated);
    let mut resp = out.freeze();
    assert_eq!(resp.get_i16(), KafkaErrorCode::InvalidRequest.as_i16());
    assert_eq!(get_nullable_string(&mut resp).unwrap().as_deref(), Some("truncated auth bytes"));
    assert_eq!(get_bytes(&mut resp).unwrap(), None);
    assert_eq!(resp.remaining(), 0);

    let mut out = BytesMut::new();
    encode_sasl_authenticate(&mut out, 1, &mut conn, Authentication::Broken("why".into()));
    let mut resp = out.freeze();
    assert_eq!(resp.get_i16(), KafkaErrorCode::SaslAuthenticationFailed.as_i16());
    assert_eq!(get_nullable_string(&mut resp).unwrap().as_deref(), Some("why"));
    assert_eq!(get_bytes(&mut resp).unwrap(), None);
    assert_eq!(resp.get_i64(), 0);
    assert!(!conn.authenticated());

    let mut body = BytesMut::new();
    put_compact_bytes(&mut body, Some(b"abc"));
    assert_eq!(decode_auth_bytes(&mut body.freeze(), 2).unwrap().as_ref(), b"abc");
    assert!(decode_auth_bytes(&mut Bytes::new(), 0).is_none());
}

fn request(api: i16, version: i16, flexible: bool) -> Bytes {
    let mut frame = if flexible {
        encode_request_flexible(api, version, 5, Some("c"), b"B")
    } else {
        encode_request(api, version, 5, Some("c"), b"B")
    };
    try_decode_request(&mut frame).unwrap().unwrap()
}

#[test]
fn requests_are_routed() {
    let mut src = request(ApiKey::Metadata.as_i16(), 9, true);
    let mut out = BytesMut::new();
    let r = dispatch_kafka(&mut src, &mut out, false, false);
    assert_eq!(r, Route::Serve { api: ApiKey::Metadata, version: 9 });
    assert_eq!(&out[..], &[0, 0, 0, 5, 0]);
    assert_eq!(src.as_ref(), b"B");

    let mut src = request(ApiKey::ApiVersions.as_i16(), 3, true);
    let mut out = BytesMut::new();
    let r = dispatch_kafka(&mut src, &mut out, true, false);
    assert_eq!(r, Route::Serve { api: ApiKey::ApiVersions, version: 3 });
    assert_eq!(&out[..], &[0, 0, 0, 5]);
    assert_eq!(src.as_ref(), b"B");

    let mut src = request(ApiKey::Produce.as_i16(), 0, false);
    let mut out = BytesMut::new();
    let r = dispatch_kafka(&mut src, &mut out, true, false);
    assert_eq!(r, Route::Refused);
    assert_eq!(&out[4..], &58i16.to_be_bytes());

    let mut src = request(ApiKey::Produce.as_i16(), 99, false);
    let mut out = BytesMut::new();
    let r = dispatch_kafka(&mut src, &mut out, true, true);
    assert_eq!(r, Route::Refused);
    assert_eq!(&out[5..], &35i16.to_be_bytes());

    let mut out = BytesMut::new();
    assert_eq!(dispatch_kafka(&mut Bytes::from_static(b"x"), &mut out, false, false), Route::Silent);
    assert!(out.is_empty());
}

#[test]
fn end_txn_failure_has_no_producer() {
    let mut out = BytesMut::new();
    put_end_txn_failed(&mut out, 5);
    let mut src = out.freeze();
    assert_eq!(src.get_i32(), 0);
    assert_eq!(src.get_i16(), -1);
    assert_eq!(src.get_i64(), -1);
    assert_eq!(src.get_i16(), -1);
    assert_eq!(src.as_ref(), &[0]);
    let mut out = BytesMut::new();
    put_end_txn_failed(&mut out, 0);
    assert_eq!(out.len(), 6);
}
