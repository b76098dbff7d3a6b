use chat_relay::messages::Command;
use chat_relay::messages::CommandRequest;
use chat_relay::messages::CommandResponse;
use chat_relay::messages::DecodeError;
use chat_relay::messages::ResponsePayload;

#[test]
fn test_basic_command_request() {
    let example_json_str = String::from(
        r#"
        {
            "request": 1
        }"#,
    );

    let cmd_request = CommandRequest::from_str(&example_json_str).unwrap();
    assert!(matches!(cmd_request.payload, Command::ListRooms));
}

#[test]
fn test_basic_response() {
    let example_response = CommandResponse::new(
        ResponsePayload::AvailableRooms(vec![
            String::from("coolroom"),
            String::from("fancyroom"),
        ]),
        None,
    );

    let stringified_response = example_response.stringify();

    println!("{}", stringified_response);
    assert_eq!(
        stringified_response,
        "{\"request\":1,\"message\":null,\"room_list\":[\"coolroom\",\"fancyroom\"],\"error\":\"none\"}"
    );
}

#[test]
fn test_parse_send_message() {
    let text = String::from("{\"request\":0,\"content\":\"hi\"}");
    let req = CommandRequest::from_str(&text).unwrap();
    match req.payload {
        Command::ChatMsg(m) => assert_eq!(m, "hi"),
        _ => panic!("expected a chat message"),
    }
}

#[test]
fn test_parse_set_name() {
    let text = String::from("{\"request\":2,\"content\":\"alice\"}");
    let req = CommandRequest::from_str(&text).unwrap();
    match req.payload {
        Command::SetName(n) => assert_eq!(n, "alice"),
        _ => panic!("expected a set-name command"),
    }
}

#[test]
fn test_parse_join_room() {
    let text = String::from("{\"request\":3,\"content\":\"lobby\"}");
    let req = CommandRequest::from_str(&text).unwrap();
    match req.payload {
        Command::JoinRoom(r) => assert_eq!(r, "lobby"),
        _ => panic!("expected a join-room command"),
    }
}

#[test]
fn test_parse_content_null() {
    let text = String::from("{\"request\":2,\"content\":null}");
    let err = CommandRequest::from_str(&text).unwrap_err();
    assert_eq!(err, DecodeError::MissingContent(2));
}

#[test]
fn test_parse_missing_content() {
    let text = String::from("{\"request\":0}");
    let err = CommandRequest::from_str(&text).unwrap_err();
    assert_eq!(err, DecodeError::MissingContent(0));
}

#[test]
fn test_parse_unknown_opcode() {
    let text = String::from("{\"request\":7,\"content\":\"x\"}");
    let err = CommandRequest::from_str(&text).unwrap_err();
    assert_eq!(err, DecodeError::UnknownRequest);

    let text = String::from("{\"request\":444441}");
    let err = CommandRequest::from_str(&text).unwrap_err();
    assert_eq!(err, DecodeError::UnknownRequest);
}

#[test]
fn test_parse_malformed() {
    for bad in [
        "",
        "not json",
        "{\"request\":}",
        "{\"requests\":1}",
        "{\"request\":1} x",
        "{\"request\":1,\"content\":\"unterminated}",
        "{\"request\":1,\"content\":\"bad\\escape\"}",
        "[1,2,3]",
    ] {
        let text = String::from(bad);
        let err = CommandRequest::from_str(&text).unwrap_err();
        assert_eq!(err, DecodeError::Malformed, "input: {}", bad);
    }
}

#[test]
fn test_parse_escapes() {
    let text = String::from("{\"request\":0,\"content\":\"a\\\"b\\\\c\"}");
    let req = CommandRequest::from_str(&text).unwrap();
    match req.payload {
        Command::ChatMsg(m) => assert_eq!(m, "a\"b\\c"),
        _ => panic!("expected a chat message"),
    }
}

#[test]
fn test_parse_with_spaces() {
    let text = String::from("  { \"request\" : 3 , \"content\" : \"den\" }  ");
    let req = CommandRequest::from_str(&text).unwrap();
    match req.payload {
        Command::JoinRoom(r) => assert_eq!(r, "den"),
        _ => panic!("expected a join-room command"),
    }
}

#[test]
fn test_stringify_escapes() {
    let resp = CommandResponse::new(
        ResponsePayload::ChatMsg(String::from("say \"hi\" \\ wave")),
        None,
    );
    assert_eq!(
        resp.stringify(),
        "{\"request\":0,\"message\":\"say \\\"hi\\\" \\\\ wave\",\"room_list\":null,\"error\":\"none\"}"
    );
}

#[test]
fn test_stringify_error_reply() {
    let resp = CommandResponse::new(
        ResponsePayload::Rejected(3),
        Some(String::from("name is not set")),
    );
    assert_eq!(
        resp.stringify(),
        "{\"request\":3,\"message\":null,\"room_list\":null,\"error\":\"name is not set\"}"
    );
}

#[test]
fn test_stringify_empty_room_list() {
    let resp = CommandResponse::new(ResponsePayload::AvailableRooms(vec![]), None);
    assert_eq!(
        resp.stringify(),
        "{\"request\":1,\"message\":null,\"room_list\":[],\"error\":\"none\"}"
    );
}

#[test]
fn test_stringify_large_opcode() {
    let resp = CommandResponse::new(
        ResponsePayload::Rejected(240),
        Some(String::from("unknown")),
    );
    assert_eq!(
        resp.stringify(),
        "{\"request\":240,\"message\":null,\"room_list\":null,\"error\":\"unknown\"}"
    );
}
