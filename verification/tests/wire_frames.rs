use deribit::{
    auth::credential_of, wire::decode_frame, wire::encode_request, Dispatcher, Error, Json,
    Message, ParamValue, Params, Request,
};

#[test]
fn malformed_text_is_a_protocol_error() {
    match decode_frame("not-json") {
        Err(Error::Protocol(_)) => {},
        other => panic!("expected a protocol error, got {:?}", other),
    }
}

#[test]
fn malformed_frame_never_stops_a_later_resolution() {
    let mut d: Dispatcher<&str, &str> = Dispatcher::new();
    let id = d.allocate("caller slot");
    let frames = ["not-json", "{\"jsonrpc\":\"2.0\",\"id\":1,\"result\":42}"];
    let mut delivered = None;
    for text in frames {
        match decode_frame(text) {
            Err(_) => continue,  // dropped, the loop goes on
            Ok(Message::Response(resp)) => {
                if let Some(slot) = d.resolve(resp.id) {
                    delivered = Some((slot, resp));
                }
            },
            Ok(Message::Notification(_)) => {},
        }
    }
    let (slot, resp) = delivered.expect("the valid frame must resolve");
    assert_eq!(slot, "caller slot");
    assert_eq!(resp.id, id);
    match resp.value().unwrap() {
        Json::Num(text) => assert_eq!(text, "42"),
        other => panic!("expected a number result, got {:?}", other),
    }
}

#[test]
fn auth_response_yields_a_credential() {
    let text = "{\"jsonrpc\":\"2.0\",\"id\":1,\"result\":{\"access_token\":\"abc\",\"expires_in\":100,\"refresh_token\":\"r1\",\"scope\":\"session:default\",\"token_type\":\"bearer\"}}";
    let resp = match decode_frame(text) {
        Ok(Message::Response(r)) => r,
        other => panic!("expected a response, got {:?}", other),
    };
    assert_eq!(resp.id, 1);
    let body = resp.value().unwrap();
    let auth = credential_of(&body, 1000).expect("well-shaped auth body");
    assert_eq!(auth.response.access_token, "abc");
    assert_eq!(auth.expires_at, 1100);
    assert!(!auth.expired(1000));
}

#[test]
fn response_with_neither_field_is_a_logic_error_but_still_resolves() {
    let text = "{\"jsonrpc\":\"2.0\",\"id\":7}";
    let resp = match decode_frame(text) {
        Ok(Message::Response(r)) => r,
        other => panic!("expected a response, got {:?}", other),
    };
    match resp.value() {
        Err(Error::Logic(_)) => {},
        other => panic!("expected a logic error, got {:?}", other),
    }
    // the pending entry is still removed on match
    let mut d: Dispatcher<&str, &str> = Dispatcher::new();
    for _ in 0..7 {
        d.allocate("slot");
    }
    assert!(d.resolve(resp.id).is_some());
    assert_eq!(d.resolve(resp.id), None);
}

#[test]
fn server_error_reaches_only_its_caller() {
    let text = "{\"jsonrpc\":\"2.0\",\"id\":3,\"error\":{\"code\":-32602,\"message\":\"bad params\"}}";
    let resp = match decode_frame(text) {
        Ok(Message::Response(r)) => r,
        other => panic!("expected a response, got {:?}", other),
    };
    match resp.value() {
        Err(Error::Api(e)) => {
            assert_eq!(e.code, -32602);
            assert_eq!(e.message, "bad params");
        },
        other => panic!("expected a server error, got {:?}", other),
    }
}

#[test]
fn notification_carries_channel_and_data() {
    let text = "{\"jsonrpc\":\"2.0\",\"params\":{\"channel\":\"trades.BTC-PERPETUAL\",\"data\":[1,2]}}";
    let n = match decode_frame(text) {
        Ok(Message::Notification(n)) => n,
        other => panic!("expected a notification, got {:?}", other),
    };
    assert_eq!(n.params.channel, "trades.BTC-PERPETUAL");
    let mut d: Dispatcher<&str, &str> = Dispatcher::new();
    d.subscribe("trades.BTC-PERPETUAL".to_string(), "sink");
    assert_eq!(d.sink_for(&n.params.channel), Some(&"sink"));
}

#[test]
fn frame_with_neither_shape_is_a_protocol_error() {
    match decode_frame("{\"jsonrpc\":\"2.0\"}") {
        Err(Error::Protocol(_)) => {},
        other => panic!("expected a protocol error, got {:?}", other),
    }
    // a response whose error object is ill-shaped is no response either
    match decode_frame("{\"jsonrpc\":\"2.0\",\"id\":1,\"error\":{\"code\":\"x\"}}") {
        Err(Error::Protocol(_)) => {},
        other => panic!("expected a protocol error, got {:?}", other),
    }
}

#[test]
fn encoded_request_round_trips_through_a_json_parser() {
    let mut params = Params::new();
    params.push("grant_type", ParamValue::Str("client_credentials".to_string()));
    params.push("subject_id", ParamValue::Int(-5));
    params.push("count", ParamValue::UInt(3));
    params.push("flag", ParamValue::Bool(true));
    let req = Request::new(12, "public/auth", params);
    let text = encode_request(&req);
    let v: serde_json::Value = serde_json::from_str(&text).unwrap();
    assert_eq!(v.get("jsonrpc").unwrap().as_str(), Some("2.0"));
    assert_eq!(v.get("id").unwrap().as_u64(), Some(12));
    assert_eq!(v.get("method").unwrap().as_str(), Some("public/auth"));
    let p = v.get("params").unwrap();
    assert_eq!(p.get("grant_type").unwrap().as_str(), Some("client_credentials"));
    assert_eq!(p.get("subject_id").unwrap().as_i64(), Some(-5));
    assert_eq!(p.get("count").unwrap().as_u64(), Some(3));
    assert_eq!(p.get("flag").unwrap().as_bool(), Some(true));
}

#[test]
fn later_binding_of_a_key_wins_in_the_encoded_object() {
    let mut params = Params::new();
    params.push("access_token", ParamValue::Str("stale".to_string()));
    params.push("access_token", ParamValue::Str("fresh".to_string()));
    let req = Request::new(1, "private/x", params);
    let text = encode_request(&req);
    let v: serde_json::Value = serde_json::from_str(&text).unwrap();
    let p = v.get("params").unwrap();
    assert_eq!(p.get("access_token").unwrap().as_str(), Some("fresh"));
}

#[test]
fn errors_describe_their_kind() {
    assert_eq!(
        Error::Protocol("bad frame".to_string()).describe(),
        "protocol error: bad frame"
    );
    let api = deribit::ApiError { code: 1, message: "no".to_string(), data: None };
    assert_eq!(Error::Api(api).describe(), "API error: no");
    assert_eq!(Error::Transport("gone".to_string()).describe(), "transport error: gone");
    assert_eq!(Error::Channel("closed".to_string()).describe(), "channel error: closed");
    assert_eq!(Error::Logic("both empty".to_string()).describe(), "logic error: both empty");
}

#[test]
fn auth_body_with_features_and_nested_data_round_trips() {
    let text = "{\"jsonrpc\":\"2.0\",\"id\":2,\"result\":{\"access_token\":\"tok\",\"expires_in\":900,\"refresh_token\":\"ref\",\"scope\":\"session:s,trade:read\",\"token_type\":\"bearer\",\"enabled_features\":[\"a\",\"b\"],\"google_login\":true,\"sid\":\"s-1\",\"extra\":{\"deep\":[1,\"x\"]}}}";
    let resp = match decode_frame(text) {
        Ok(Message::Response(r)) => r,
        other => panic!("expected a response, got {:?}", other),
    };
    let body = resp.value().unwrap();
    let auth = credential_of(&body, 100).expect("well-shaped auth body");
    assert_eq!(auth.response.access_token, "tok");
    assert_eq!(auth.response.refresh_token, "ref");
    assert_eq!(auth.response.enabled_features, vec!["a".to_string(), "b".to_string()]);
    assert!(auth.response.google_login);
    assert_eq!(auth.response.sid, Some("s-1".to_string()));
    assert_eq!(auth.response.scope.dump(), "session:s,trade:read");
    assert_eq!(auth.expires_at, 1000);
}

#[test]
fn auth_body_missing_a_required_field_yields_nothing() {
    let text = "{\"jsonrpc\":\"2.0\",\"id\":2,\"result\":{\"access_token\":\"tok\",\"expires_in\":900,\"scope\":\"\",\"token_type\":\"bearer\"}}";
    let resp = match decode_frame(text) {
        Ok(Message::Response(r)) => r,
        other => panic!("expected a response, got {:?}", other),
    };
    let body = resp.value().unwrap();
    assert!(credential_of(&body, 100).is_none());
}

#[test]
fn encoded_strings_are_escaped() {
    let mut params = Params::new();
    params.push("note", ParamValue::Str("say \"hi\"\\\n".to_string()));
    let req = Request::new(9, "odd\"method", params);
    let text = encode_request(&req);
    let v: serde_json::Value = serde_json::from_str(&text).unwrap();
    assert_eq!(v.get("method").unwrap().as_str(), Some("odd\"method"));
    let p = v.get("params").unwrap();
    assert_eq!(p.get("note").unwrap().as_str(), Some("say \"hi\"\\\n"));
}
