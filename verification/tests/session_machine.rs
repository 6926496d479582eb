use hostmetrics::session::{
    classify_command, cpu_info_reply, next_state, Command, SessionEvent, SessionState,
};

#[test]
fn commands_are_classified_after_trimming() {
    assert_eq!(classify_command(b"get_metrics"), Command::GetMetrics);
    assert_eq!(classify_command(b"  get_metrics \n"), Command::GetMetrics);
    assert_eq!(classify_command(b"get_cpu_info"), Command::GetCpuInfo);
    assert_eq!(classify_command(b"\tget_cpu_info\r\n"), Command::GetCpuInfo);
}

#[test]
fn unknown_text_is_not_a_command() {
    assert_eq!(classify_command(b"ping"), Command::Unknown);
    assert_eq!(classify_command(b"get_metricsX"), Command::Unknown);
    assert_eq!(classify_command(b""), Command::Unknown);
    assert_eq!(classify_command(b"GET_METRICS"), Command::Unknown);
}

#[test]
fn unknown_command_leaves_session_open() {
    assert_eq!(classify_command(b"ping"), Command::Unknown);
    let after = next_state(SessionState::Open, SessionEvent::HandledNoReply);
    assert_eq!(after, SessionState::Open);
    assert_eq!(classify_command(b"get_metrics"), Command::GetMetrics);
}

#[test]
fn failed_identity_read_sends_no_frame_and_stays_open() {
    assert_eq!(cpu_info_reply(&None), None);
    let after = next_state(SessionState::Open, SessionEvent::HandledNoReply);
    assert_eq!(after, SessionState::Open);
}

#[test]
fn transport_failures_close_the_session() {
    assert_eq!(next_state(SessionState::Open, SessionEvent::ReceiveError), SessionState::Closed);
    assert_eq!(next_state(SessionState::Open, SessionEvent::SendFailed), SessionState::Closed);
    assert_eq!(next_state(SessionState::Closed, SessionEvent::ReplySent), SessionState::Closed);
}

#[test]
fn benign_events_keep_the_session_open() {
    assert_eq!(next_state(SessionState::Open, SessionEvent::NonText), SessionState::Open);
    assert_eq!(next_state(SessionState::Open, SessionEvent::ReplySent), SessionState::Open);
    assert_eq!(next_state(SessionState::Open, SessionEvent::HandledNoReply), SessionState::Open);
}

#[test]
fn successful_identity_read_draws_a_reply() {
    let ci = hostmetrics::cpu_identity::CpuIdentity::parse(
        b"processor : 0\nmodel name : X\ncpu MHz : 1.5\nbogomips : 2.0\n",
        b"Architecture: x\n",
    )
    .unwrap();
    let reply = cpu_info_reply(&Some(ci)).unwrap();
    assert!(String::from_utf8(reply).unwrap().starts_with("{\"cpu_count\":1,"));
}
