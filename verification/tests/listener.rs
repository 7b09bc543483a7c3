use solana_event_listener::backoff::calculate_backoff;
use solana_event_listener::config::{Commitment, Config, ConfigError, Mode};
use solana_event_listener::event::{AccountEvent, LogEvent};
use solana_event_listener::json::{parse_json_text, to_json_text};
use solana_event_listener::metrics::Metrics;
use solana_event_listener::notifier::{Notifier, StubNotifier};
use solana_event_listener::rpc::{
    classify_frame, extract_program_id, subscribe_requests, Classified, Frame, Session,
    SessionError, SessionState, StepAction, Supervisor, Targets,
};
use solana_event_listener::storage::{record_line, JsonlWriter};

fn test_config(accounts: Option<String>) -> Config {
    Config {
        ws_url: "wss://test".to_string(),
        mode: Mode::Logs,
        program_id: None,
        accounts,
        commitment: Commitment::Finalized,
        event_log_path: "./test.jsonl".to_string(),
        metrics_addr: "0.0.0.0:9108".to_string(),
    }
}

#[test]
fn test_commitment_as_str() {
    assert_eq!(Commitment::Processed.as_str(), "processed");
    assert_eq!(Commitment::Confirmed.as_str(), "confirmed");
    assert_eq!(Commitment::Finalized.as_str(), "finalized");
}

#[test]
fn test_mode_as_str() {
    assert_eq!(Mode::Logs.as_str(), "logs");
    assert_eq!(Mode::Account.as_str(), "account");
}

#[test]
fn test_parse_accounts() {
    let config = test_config(Some("addr1,addr2,addr3".to_string()));
    let parsed = config.parse_accounts().unwrap();
    assert_eq!(parsed.len(), 3);
    assert_eq!(parsed[0], "addr1");
    assert_eq!(parsed[1], "addr2");
    assert_eq!(parsed[2], "addr3");
}

#[test]
fn test_parse_accounts_empty() {
    let config = test_config(None);
    let parsed = config.parse_accounts().unwrap();
    assert!(parsed.is_empty());
}

#[test]
fn test_parse_accounts_trims_and_drops_empty_entries() {
    let config = test_config(Some("  a1 , ,a2,,  ,a3  ".to_string()));
    let parsed = config.parse_accounts().unwrap();
    assert_eq!(parsed, vec!["a1", "a2", "a3"]);
}

#[test]
fn test_calculate_backoff() {
    assert_eq!(calculate_backoff(0, 30), 1);
    assert_eq!(calculate_backoff(1, 30), 2);
    assert_eq!(calculate_backoff(2, 30), 4);
    assert_eq!(calculate_backoff(3, 30), 8);
    assert_eq!(calculate_backoff(4, 30), 16);
    assert_eq!(calculate_backoff(5, 30), 30);

    assert_eq!(calculate_backoff(10, 30), 30);
    assert_eq!(calculate_backoff(100, 30), 30);

    assert_eq!(calculate_backoff(3, 10), 8);
    assert_eq!(calculate_backoff(4, 10), 10);
}

#[test]
fn test_log_event_serialization() {
    let event = LogEvent::new(
        "2024-01-15T10:30:45Z".to_string(),
        "signature123".to_string(),
        12345,
        "program123".to_string(),
        vec!["Log message 1".to_string(), "Log message 2".to_string()],
    );

    let json = to_json_text(&event.to_json());
    let value = parse_json_text(&json).unwrap();
    let deserialized = LogEvent::from_json(&value).unwrap();

    assert_eq!(deserialized.signature, "signature123");
    assert_eq!(deserialized.slot, 12345);
    assert_eq!(deserialized.logs.len(), 2);
}

#[test]
fn test_account_event_serialization() {
    let event = AccountEvent::new(
        "2024-01-15T10:30:45Z".to_string(),
        "pubkey123".to_string(),
        12345,
        1000000,
        "base64data".to_string(),
    );

    let json = to_json_text(&event.to_json());
    let value = parse_json_text(&json).unwrap();
    let deserialized = AccountEvent::from_json(&value).unwrap();

    assert_eq!(deserialized.pubkey, "pubkey123");
    assert_eq!(deserialized.lamports, 1000000);
    assert_eq!(deserialized.data, "base64data");
}

#[test]
fn test_log_event_round_trip_all_fields() {
    let event = LogEvent::new(
        "2024-01-15T10:30:45Z".to_string(),
        "sig with \"quotes\" and \\slashes\\".to_string(),
        u64::MAX,
        "p1".to_string(),
        vec!["line\none".to_string(), "".to_string(), "tab\there".to_string()],
    );
    let json = to_json_text(&event.to_json());
    let back = LogEvent::from_json(&parse_json_text(&json).unwrap()).unwrap();
    assert_eq!(back.timestamp, event.timestamp);
    assert_eq!(back.signature, event.signature);
    assert_eq!(back.slot, event.slot);
    assert_eq!(back.program_id, event.program_id);
    assert_eq!(back.logs, event.logs);
}

#[test]
fn test_record_line_matches_serde_reading() {
    let event = LogEvent::new(
        "2024-01-15T10:30:45Z".to_string(),
        "sig".to_string(),
        7,
        "prog".to_string(),
        vec!["a".to_string(), "b".to_string()],
    );
    let line = record_line(&event.to_json());
    assert!(line.ends_with('\n'));
    let value: serde_json::Value = serde_json::from_str(line.trim_end()).unwrap();
    assert_eq!(value["timestamp"].as_str().unwrap(), "2024-01-15T10:30:45Z");
    assert_eq!(value["signature"].as_str().unwrap(), "sig");
    assert_eq!(value["slot"].as_u64().unwrap(), 7);
    assert_eq!(value["program_id"].as_str().unwrap(), "prog");
    assert_eq!(value["logs"][0].as_str().unwrap(), "a");
    assert_eq!(value["logs"][1].as_str().unwrap(), "b");
}

#[test]
fn test_metrics_increment() {
    let mut metrics = Metrics::new();

    metrics.inc_events();
    assert_eq!(metrics.events_total, 1);

    metrics.inc_errors_by(5);
    assert_eq!(metrics.errors_total, 5);

    metrics.set_connected(true);
    assert!(metrics.ws_connected);
}

#[test]
fn test_stub_notifier() {
    let notifier = StubNotifier;
    notifier.notify("test message").unwrap();
}

#[test]
fn test_program_id_from_program_log_line() {
    let logs = vec!["Program log: 7xyzAbCdEf".to_string()];
    assert_eq!(extract_program_id(&logs), "7xyzAbCdEf");
}

#[test]
fn test_program_id_unknown_without_program_prefix() {
    let logs = vec!["some unrelated line".to_string()];
    assert_eq!(extract_program_id(&logs), "unknown");
    let empty: Vec<String> = Vec::new();
    assert_eq!(extract_program_id(&empty), "unknown");
    let short = vec!["Program only2".to_string()];
    assert_eq!(extract_program_id(&short), "unknown");
}

#[test]
fn test_classify_ack_envelope() {
    let c = classify_frame(Mode::Logs, "{\"jsonrpc\":\"2.0\",\"id\":1,\"result\":23784}");
    assert!(matches!(c, Classified::Ack));
}

#[test]
fn test_classify_rpc_error_envelope() {
    let c = classify_frame(
        Mode::Logs,
        "{\"jsonrpc\":\"2.0\",\"id\":1,\"error\":{\"code\":-32602,\"message\":\"bad params\"}}",
    );
    match c {
        Classified::RpcFault { code, message } => {
            assert_eq!(code, -32602);
            assert_eq!(message, "bad params");
        }
        other => panic!("expected a fault, got {:?}", other),
    }
}

#[test]
fn test_classify_logs_notification() {
    let frame = "{\"result\":{\"context\":{\"slot\":42},\"value\":{\"err\":null,\
                 \"logs\":[\"Program log: p99\",\"done\"],\"signature\":\"s1\"}}}";
    let c = classify_frame(Mode::Logs, frame);
    match c {
        Classified::LogsNote { slot, signature, logs } => {
            assert_eq!(slot, 42);
            assert_eq!(signature, "s1");
            assert_eq!(logs, vec!["Program log: p99", "done"]);
        }
        other => panic!("expected a logs notification, got {:?}", other),
    }
}

#[test]
fn test_classify_account_notification() {
    let frame = "{\"result\":{\"context\":{\"slot\":9},\"value\":{\"account\":\
                 {\"lamports\":1000,\"data\":[\"aGk=\",\"dGhlcmU=\"]}}}}";
    let c = classify_frame(Mode::Account, frame);
    match c {
        Classified::AccountNote { slot, lamports, data } => {
            assert_eq!(slot, 9);
            assert_eq!(lamports, 1000);
            assert_eq!(data, "aGk=dGhlcmU=");
        }
        other => panic!("expected an account notification, got {:?}", other),
    }
}

#[test]
fn test_classify_unrecognized_frames() {
    assert!(matches!(classify_frame(Mode::Logs, "not json"), Classified::Unrecognized));
    assert!(matches!(classify_frame(Mode::Logs, "{\"x\":1}"), Classified::Unrecognized));
    // A logs notification in account mode is not recognized, and vice versa.
    let logs_frame = "{\"result\":{\"context\":{\"slot\":1},\"value\":{\"logs\":[],\"signature\":\"s\"}}}";
    assert!(matches!(classify_frame(Mode::Account, logs_frame), Classified::Unrecognized));
    // Numbers that exceed a 64-bit magnitude do not decode.
    assert!(matches!(
        classify_frame(Mode::Logs, "{\"jsonrpc\":\"2.0\",\"id\":99999999999999999999}"),
        Classified::Unrecognized
    ));
}

#[test]
fn test_json_parser_accepts_whitespace_and_escapes() {
    let v = parse_json_text("  { \"a\" : [ 1 , -2 , true , null , \"x\\n\\\"y\\\"\" ] }  ").unwrap();
    let text = to_json_text(&v);
    assert_eq!(text, "{\"a\":[1,-2,true,null,\"x\\n\\\"y\\\"\"]}");
    assert!(parse_json_text("{\"a\":1,}").is_none());
    assert!(parse_json_text("[1 2]").is_none());
    assert!(parse_json_text("1.5").is_none());
    assert!(parse_json_text("").is_none());
}

#[test]
fn test_subscribe_request_logs_mode() {
    let targets = Targets::Program("PID123".to_string());
    let reqs = subscribe_requests(&targets, Commitment::Finalized);
    assert_eq!(reqs.len(), 1);
    assert_eq!(
        reqs[0],
        "{\"jsonrpc\":\"2.0\",\"id\":1,\"method\":\"logsSubscribe\",\
         \"params\":{\"mentions\":[\"PID123\"],\"commitment\":\"finalized\"}}"
    );
}

#[test]
fn test_subscribe_requests_account_mode_ids_count_up() {
    let targets = Targets::Accounts(vec!["a1".to_string(), "a2".to_string()]);
    let reqs = subscribe_requests(&targets, Commitment::Confirmed);
    assert_eq!(reqs.len(), 2);
    assert_eq!(
        reqs[0],
        "{\"jsonrpc\":\"2.0\",\"id\":1,\"method\":\"accountSubscribe\",\
         \"params\":{\"account\":\"a1\",\"commitment\":\"confirmed\",\"encoding\":\"base64\"}}"
    );
    assert_eq!(
        reqs[1],
        "{\"jsonrpc\":\"2.0\",\"id\":2,\"method\":\"accountSubscribe\",\
         \"params\":{\"account\":\"a2\",\"commitment\":\"confirmed\",\"encoding\":\"base64\"}}"
    );
}

#[test]
fn test_session_emits_one_record_per_notification() {
    let mut metrics = Metrics::new();
    let mut session = Session::start(Mode::Logs, &mut metrics);
    session.on_connected(&mut metrics);
    session.begin_streaming();
    let mut sink: Vec<String> = Vec::new();

    let frame = "{\"result\":{\"context\":{\"slot\":42},\"value\":{\"err\":null,\
                 \"logs\":[\"Program log: p99\"],\"signature\":\"s1\"}}}";
    match session.on_frame(Frame::Text(frame.to_string()), &mut metrics) {
        StepAction::Emit(line) => {
            sink.push(line);
            session.after_append(true, &mut metrics);
        }
        other => panic!("expected a record, got {:?}", other),
    }
    assert_eq!(sink.len(), 1);
    assert_eq!(metrics.events_total, 1);
    assert_eq!(metrics.errors_total, 0);

    // The record reads back as the event the notification described.
    let value = parse_json_text(sink[0].trim_end()).unwrap();
    let event = LogEvent::from_json(&value).unwrap();
    assert_eq!(event.slot, 42);
    assert_eq!(event.signature, "s1");
    assert_eq!(event.program_id, "p99");
    assert_eq!(event.logs, vec!["Program log: p99"]);
}

#[test]
fn test_session_rpc_error_terminates_without_append() {
    let mut metrics = Metrics::new();
    let mut session = Session::start(Mode::Logs, &mut metrics);
    session.on_connected(&mut metrics);
    session.begin_streaming();

    let frame = "{\"jsonrpc\":\"2.0\",\"id\":1,\"error\":{\"code\":-32000,\"message\":\"boom\"}}";
    match session.on_frame(Frame::Text(frame.to_string()), &mut metrics) {
        StepAction::Fatal(SessionError::RpcFault { code, message }) => {
            assert_eq!(code, -32000);
            assert_eq!(message, "boom");
        }
        other => panic!("expected a fatal fault, got {:?}", other),
    }
    assert_eq!(session.state, SessionState::Terminated);
    assert_eq!(metrics.events_total, 0);
    assert_eq!(metrics.errors_total, 1);
}

#[test]
fn test_session_answers_ping_and_ignores_noise() {
    let mut metrics = Metrics::new();
    let mut session = Session::start(Mode::Logs, &mut metrics);
    session.on_connected(&mut metrics);
    session.begin_streaming();

    match session.on_frame(Frame::Ping(vec![1, 2, 3]), &mut metrics) {
        StepAction::SendPong(data) => assert_eq!(data, vec![1, 2, 3]),
        other => panic!("expected a pong, got {:?}", other),
    }
    assert!(matches!(session.on_frame(Frame::Pong, &mut metrics), StepAction::Proceed));
    assert!(matches!(session.on_frame(Frame::Binary, &mut metrics), StepAction::Proceed));
    assert!(matches!(session.on_frame(Frame::Other, &mut metrics), StepAction::Proceed));
    assert!(matches!(
        session.on_frame(Frame::Close, &mut metrics),
        StepAction::Fatal(SessionError::RemoteClosed)
    ));
    assert!(!metrics.ws_connected);
}

#[test]
fn test_sink_write_failure_counts_error_and_continues() {
    let mut metrics = Metrics::new();
    let mut session = Session::start(Mode::Logs, &mut metrics);
    session.on_connected(&mut metrics);
    session.begin_streaming();
    session.after_append(false, &mut metrics);
    assert_eq!(metrics.errors_total, 1);
    assert_eq!(metrics.events_total, 0);
    assert_eq!(session.state, SessionState::Streaming);
}

#[test]
fn test_three_records_form_three_lines() {
    let mut lines: Vec<String> = Vec::new();
    let mut text = String::new();
    for i in 0..3u64 {
        let event = LogEvent::new(
            "2024-01-15T10:30:45Z".to_string(),
            format!("sig{}", i),
            i,
            "p".to_string(),
            vec![format!("line{}", i)],
        );
        let line = record_line(&event.to_json());
        text.push_str(&line);
        lines.push(line);
    }
    let read_back: Vec<&str> = text.lines().collect();
    assert_eq!(read_back.len(), 3);
    for (i, l) in read_back.iter().enumerate() {
        assert_eq!(format!("{}\n", l), lines[i]);
        let event = LogEvent::from_json(&parse_json_text(l).unwrap()).unwrap();
        assert_eq!(event.signature, format!("sig{}", i));
        assert_eq!(event.slot, i as u64);
    }
}

#[test]
fn test_reconnect_cycle_gauge_and_backoff() {
    let mut metrics = Metrics::new();
    let mut supervisor = Supervisor::new();

    // A session connects, then the connection drops mid-stream.
    let mut session = Session::start(Mode::Logs, &mut metrics);
    session.on_connected(&mut metrics);
    session.begin_streaming();
    assert!(metrics.ws_connected);
    let err = session.on_read_error(&mut metrics);
    assert!(matches!(err, SessionError::Transport));
    assert_eq!(session.state, SessionState::Terminated);

    // The supervisor observes the failure: gauge down, delay as the policy says.
    let delay = supervisor.on_session_failure(&mut metrics);
    assert!(!metrics.ws_connected);
    assert_eq!(delay, calculate_backoff(0, 30));
    assert_eq!(delay, 1);

    // A new attempt resubscribes and raises the gauge again.
    let mut next = Session::start(Mode::Logs, &mut metrics);
    next.on_connected(&mut metrics);
    next.begin_streaming();
    assert!(metrics.ws_connected);

    // Later failures back off further, and the counter resets every ten.
    let mut sup = Supervisor::new();
    let mut delays: Vec<u64> = Vec::new();
    for _ in 0..12 {
        delays.push(sup.on_session_failure(&mut metrics));
    }
    assert_eq!(delays[..10], [1, 2, 4, 8, 16, 30, 30, 30, 30, 30]);
    // After ten attempts the counter starts over.
    assert_eq!(delays[10], 1);
    assert_eq!(delays[11], 2);
}

#[test]
fn test_account_mode_empty_targets_fails_before_connecting() {
    let mut config = test_config(Some(" , ,".to_string()));
    config.mode = Mode::Account;
    let r = Supervisor::prepare(&config);
    assert!(matches!(r, Err(ConfigError::NoAccountTargets)));

    config.accounts = None;
    assert!(matches!(Supervisor::prepare(&config), Err(ConfigError::MissingAccounts)));

    let logs_config = test_config(None);
    assert!(matches!(Supervisor::prepare(&logs_config), Err(ConfigError::MissingProgramId)));
}

#[test]
fn test_prepare_resolves_targets() {
    let mut config = test_config(None);
    config.program_id = Some("PID".to_string());
    match Supervisor::prepare(&config).unwrap() {
        Targets::Program(p) => assert_eq!(p, "PID"),
        other => panic!("expected a program target, got {:?}", other),
    }

    let mut config = test_config(Some("a1,a2".to_string()));
    config.mode = Mode::Account;
    match Supervisor::prepare(&config).unwrap() {
        Targets::Accounts(ax) => assert_eq!(ax, vec!["a1", "a2"]),
        other => panic!("expected account targets, got {:?}", other),
    }
}

#[test]
fn test_validate_modes() {
    let mut config = test_config(None);
    assert_eq!(config.validate(), Err(ConfigError::MissingProgramId));
    config.program_id = Some("p".to_string());
    assert_eq!(config.validate(), Ok(()));
    config.mode = Mode::Account;
    assert_eq!(config.validate(), Err(ConfigError::MissingAccounts));
    config.accounts = Some("a".to_string());
    assert_eq!(config.validate(), Ok(()));
}

#[test]
fn test_jsonl_writer_keeps_path() {
    let writer = JsonlWriter::new("./events.jsonl");
    assert_eq!(writer.file_path(), "./events.jsonl");
}

#[test]
fn test_serialized_value_survives_serde_round_trip() {
    // A value serialized here parses identically through another reader.
    let event = AccountEvent::new(
        "t".to_string(),
        "unknown".to_string(),
        3,
        42,
        "payload".to_string(),
    );
    let text = to_json_text(&event.to_json());
    let serde_value: serde_json::Value = serde_json::from_str(&text).unwrap();
    let re_serialized = serde_json::to_string(&serde_value).unwrap();
    let mine = parse_json_text(&re_serialized).unwrap();
    let back = AccountEvent::from_json(&mine).unwrap();
    assert_eq!(back.slot, 3);
    assert_eq!(back.lamports, 42);
    assert_eq!(back.data, "payload");
}

#[test]
fn test_stream_end_and_pong_failure_are_fatal() {
    let mut metrics = Metrics::new();
    let mut session = Session::start(Mode::Logs, &mut metrics);
    session.on_connected(&mut metrics);
    session.begin_streaming();
    assert!(matches!(session.on_stream_end(), SessionError::StreamEnded));
    assert_eq!(session.state, SessionState::Terminated);

    let mut other = Session::start(Mode::Logs, &mut metrics);
    other.on_connected(&mut metrics);
    other.begin_streaming();
    assert!(matches!(other.on_pong_failure(), SessionError::PongSendFailed));
    assert_eq!(other.state, SessionState::Terminated);
}
