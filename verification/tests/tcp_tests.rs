use kesko::models::Model;
use kesko::tcp::{
    body_named, http_response, joint_targets, parse, server_step, HttpRequest, ServerStep, SocketOutcome, SystemRequestEvent,
    TcpCommand, TcpConnectionState, TcpEvent,
};

#[test]
fn parse_finds_json_line() {
    let req = "POST / HTTP/1.1\r\nHost: 127.0.0.1:8080\r\nContent-Type: application/json\r\n\r\n{\"actions\":[\"GetState\"]}";
    assert_eq!(parse(req), Ok("{\"actions\":[\"GetState\"]}".to_owned()));
}

#[test]
fn parse_strips_crlf_of_json_line() {
    let req = "GET / HTTP/1.1\r\n{\"actions\":[]}\r\nmore";
    assert_eq!(parse(req), Ok("{\"actions\":[]}".to_owned()));
}

#[test]
fn parse_takes_first_json_line() {
    let req = "header\n{\"a\":1}\n{\"b\":2}\n";
    assert_eq!(parse(req), Ok("{\"a\":1}".to_owned()));
}

#[test]
fn parse_keeps_carriage_return_of_last_line() {
    let req = "x\n{\"a\":1}\r";
    assert_eq!(parse(req), Ok("{\"a\":1}\r".to_owned()));
}

#[test]
fn parse_without_json_fails() {
    assert_eq!(parse("GET / HTTP/1.1\r\n\r\n"), Err("Failed to parse http request".to_owned()));
    assert_eq!(parse(""), Err("Failed to parse http request".to_owned()));
    assert_eq!(parse(" {indented}"), Err("Failed to parse http request".to_owned()));
}

#[test]
fn request_commands_become_events_in_order() {
    let req: HttpRequest<(i32, i32), u8> = HttpRequest {
        actions: vec![
            TcpCommand::SpawnModel { model: Model::Car, placement: (1, 2) },
            TcpCommand::Restart,
            TcpCommand::Close,
            TcpCommand::Despawn { name: "car-3".to_owned() },
            TcpCommand::ApplyMotorCommand { body_name: "wheely-4".to_owned(), command: 7 },
            TcpCommand::NoCommand,
            TcpCommand::GetState,
            TcpCommand::PausePhysics,
            TcpCommand::RunPhysics,
            TcpCommand::IsAlive,
        ],
    };
    let events = req.into_events();
    assert_eq!(events.len(), 9);
    assert!(matches!(events[0], TcpEvent::Spawn { model: Model::Car, placement: (1, 2) }));
    assert!(matches!(events[1], TcpEvent::SpawnedModel));
    assert!(matches!(events[2], TcpEvent::System(SystemRequestEvent::ExitApp)));
    match &events[3] {
        TcpEvent::System(SystemRequestEvent::Despawn { name }) => assert_eq!(name, "car-3"),
        _ => panic!("expected a despawn request"),
    }
    match &events[4] {
        TcpEvent::System(SystemRequestEvent::ApplyMotorCommand { body_name, command }) => {
            assert_eq!(body_name, "wheely-4");
            assert_eq!(*command, 7);
        }
        _ => panic!("expected a motor command"),
    }
    assert!(matches!(events[5], TcpEvent::System(SystemRequestEvent::GetState)));
    assert!(matches!(events[6], TcpEvent::System(SystemRequestEvent::PausePhysics)));
    assert!(matches!(events[7], TcpEvent::System(SystemRequestEvent::StartPhysics)));
    assert!(matches!(events[8], TcpEvent::System(SystemRequestEvent::IsAlive)));
}

#[test]
fn empty_request_raises_nothing() {
    let req: HttpRequest<(), ()> = HttpRequest { actions: vec![TcpCommand::Restart, TcpCommand::NoCommand] };
    assert!(req.into_events().is_empty());
}

#[test]
fn server_connects_and_disconnects() {
    assert_eq!(
        server_step(TcpConnectionState::NotConnected, SocketOutcome::Accepted),
        ServerStep { state: TcpConnectionState::Connected, message: None, keep_reading: false }
    );
    assert_eq!(
        server_step(TcpConnectionState::NotConnected, SocketOutcome::AcceptFailed),
        ServerStep { state: TcpConnectionState::NotConnected, message: None, keep_reading: false }
    );
    assert_eq!(
        server_step(TcpConnectionState::Connected, SocketOutcome::Read(0)),
        ServerStep { state: TcpConnectionState::Connected, message: None, keep_reading: true }
    );
    assert_eq!(
        server_step(TcpConnectionState::Connected, SocketOutcome::Read(42)),
        ServerStep { state: TcpConnectionState::Connected, message: Some(42), keep_reading: false }
    );
    assert_eq!(
        server_step(TcpConnectionState::Connected, SocketOutcome::ReadFailed),
        ServerStep { state: TcpConnectionState::NotConnected, message: None, keep_reading: true }
    );
}

#[test]
fn http_response_frames_body() {
    let json = "[\"Alive\"]";
    assert_eq!(
        http_response(json),
        "HTTP/1.1 200 OK\r\nContent-Length: 9\r\nContent-Type: application/json\r\n\r\n[\"Alive\"]"
    );
}

#[test]
fn http_response_counts_bytes() {
    let json = "\"é\"";
    let r = http_response(json);
    assert!(r.starts_with("HTTP/1.1 200 OK\r\nContent-Length: 4\r\n"));
    assert!(r.ends_with("\r\n\r\n\"é\""));
    let empty = http_response("");
    assert_eq!(empty, "HTTP/1.1 200 OK\r\nContent-Length: 0\r\nContent-Type: application/json\r\n\r\n");
}

#[test]
fn requests_by_name_find_bodies_and_joints() {
    let bodies = vec![("car".to_owned(), 5), ("wheely".to_owned(), 8), ("car".to_owned(), 9)];
    assert_eq!(body_named(&bodies, "car"), Some(5));
    assert_eq!(body_named(&bodies, "wheely"), Some(8));
    assert_eq!(body_named(&bodies, "spider"), None);

    let mut m = kesko::multibody::ChildMap::new();
    m.insert("left".to_owned(), 11);
    m.insert("right".to_owned(), 12);
    let command = vec![("right".to_owned(), 1.5f32), ("missing".to_owned(), 2.0), ("left".to_owned(), -0.5)];
    assert_eq!(joint_targets(&m, command), vec![(12, 1.5), (11, -0.5)]);
}
