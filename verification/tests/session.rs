//! The session state machine, driven through whole scenarios.

use ttyd_rust::pty::PtySize;
use ttyd_rust::session::Config;
use ttyd_rust::session::AppState;
use ttyd_rust::session::Session;
use ttyd_rust::session::SessionAction;
use ttyd_rust::session::SessionEvent;
use ttyd_rust::session::SessionState;

fn frame(s: &str) -> Vec<u8> {
    s.as_bytes().to_vec()
}

fn plain_config() -> Config {
    Config::default()
}

fn started_session(config: Config) -> Session {
    let mut session = Session::new(config);
    let frames = session.startup_with_hostname(Some(String::from("host")));
    assert_eq!(frames.len(), 2);
    session
}

/// A session that accepted an `Init` asking for the given size and saw the
/// spawn succeed.
fn active_session(config: Config, init: &str) -> Session {
    let mut session = started_session(config);
    let actions = session.step(SessionEvent::Frame(frame(init)));
    assert_eq!(actions.len(), 1);
    assert!(matches!(actions[0], SessionAction::SpawnPty(_)));
    let actions = session.step(SessionEvent::SpawnOk(4242));
    assert!(actions.is_empty());
    assert_eq!(session.state(), SessionState::Active);
    session
}

#[test]
fn default_config_is_writable_bash() {
    let c = Config::default();
    assert_eq!(c.port, 7681);
    assert_eq!(c.interface, "0.0.0.0");
    assert_eq!(c.command, vec![String::from("bash")]);
    assert!(c.cwd.is_none());
    assert!(c.credential.is_none());
    assert!(c.writable);
    assert!(!c.check_origin);
    assert_eq!(c.max_clients, 0);
    assert!(!c.once);
}

#[test]
fn app_state_keeps_its_config() {
    let state = AppState::new(Config::default());
    assert_eq!(state.config.port, 7681);
}

#[test]
fn startup_announces_title_and_preferences() {
    let mut config = plain_config();
    config.command = vec![String::from("htop"), String::from("-d"), String::from("10")];
    let mut session = Session::new(config);
    let frames = session.startup_with_hostname(Some(String::from("box")));
    let mut title = vec![b'1'];
    title.extend_from_slice(b"htop -d 10 (box)");
    assert_eq!(frames[0], title);
    assert_eq!(frames[1], vec![b'2', b'{', b'}']);
    assert_eq!(session.state(), SessionState::AwaitingInit);
}

#[test]
fn startup_without_hostname_says_localhost() {
    let mut session = Session::new(plain_config());
    let frames = session.startup_with_hostname(None);
    let mut title = vec![b'1'];
    title.extend_from_slice(b"bash (localhost)");
    assert_eq!(frames[0], title);
}

#[test]
fn init_with_zero_size_spawns_the_default() {
    let mut session = started_session(plain_config());
    let actions = session.step(SessionEvent::Frame(frame("{\"columns\":0,\"rows\":0}")));
    assert_eq!(
        actions,
        vec![SessionAction::SpawnPty(PtySize { cols: 80, rows: 24 })]
    );
}

#[test]
fn init_with_explicit_size_spawns_it() {
    let mut session = started_session(plain_config());
    let actions = session.step(SessionEvent::Frame(frame("{\"columns\":132,\"rows\":50}")));
    assert_eq!(
        actions,
        vec![SessionAction::SpawnPty(PtySize { cols: 132, rows: 50 })]
    );
}

#[test]
fn wrong_token_closes_without_spawn() {
    let mut config = plain_config();
    config.credential = Some(String::from("sesame"));
    let mut session = started_session(config);
    let actions = session.step(SessionEvent::Frame(frame(
        "{\"columns\":80,\"rows\":24,\"AuthToken\":\"wrong\"}",
    )));
    assert!(actions.is_empty());
    assert_eq!(session.state(), SessionState::Closing);
    let actions = session.finish();
    assert!(actions.is_empty());
}

#[test]
fn missing_token_closes_without_spawn() {
    let mut config = plain_config();
    config.credential = Some(String::from("sesame"));
    let mut session = started_session(config);
    let actions = session.step(SessionEvent::Frame(frame("{\"columns\":80,\"rows\":24}")));
    assert!(actions.is_empty());
    assert_eq!(session.state(), SessionState::Closing);
}

#[test]
fn matching_token_spawns() {
    let mut config = plain_config();
    config.credential = Some(String::from("sesame"));
    let mut session = started_session(config);
    let actions = session.step(SessionEvent::Frame(frame(
        "{\"columns\":80,\"rows\":24,\"AuthToken\":\"sesame\"}",
    )));
    assert_eq!(
        actions,
        vec![SessionAction::SpawnPty(PtySize { cols: 80, rows: 24 })]
    );
    assert_eq!(session.state(), SessionState::Spawning);
}

#[test]
fn input_is_written_verbatim_and_in_order() {
    let mut session = active_session(plain_config(), "{}");
    let a1 = session.step(SessionEvent::Frame(frame("0ls -l\r")));
    assert_eq!(a1, vec![SessionAction::WritePty(frame("ls -l\r"))]);
    let a2 = session.step(SessionEvent::Frame(frame("0echo hi\r")));
    assert_eq!(a2, vec![SessionAction::WritePty(frame("echo hi\r"))]);
}

#[test]
fn input_is_ignored_when_not_writable() {
    let mut config = plain_config();
    config.writable = false;
    let mut session = active_session(config, "{}");
    let actions = session.step(SessionEvent::Frame(frame("0rm -rf\r")));
    assert!(actions.is_empty());
}

#[test]
fn input_before_init_is_ignored() {
    let mut session = started_session(plain_config());
    let actions = session.step(SessionEvent::Frame(frame("0hello")));
    assert!(actions.is_empty());
    assert_eq!(session.state(), SessionState::AwaitingInit);
}

#[test]
fn output_flows_while_active() {
    let mut session = active_session(plain_config(), "{}");
    let actions = session.step(SessionEvent::PtyOutput(frame("hello")));
    let mut expected = vec![b'0'];
    expected.extend_from_slice(b"hello");
    assert_eq!(actions, vec![SessionAction::SendFrame(expected)]);
}

#[test]
fn pause_withholds_and_resume_repays_in_order() {
    let mut session = active_session(plain_config(), "{}");
    assert!(session.step(SessionEvent::Frame(frame("2"))).is_empty());
    assert_eq!(session.state(), SessionState::Paused);
    assert!(session.step(SessionEvent::PtyOutput(frame("one"))).is_empty());
    assert!(session.step(SessionEvent::PtyOutput(frame("two"))).is_empty());
    let actions = session.step(SessionEvent::Frame(frame("3")));
    let mut f1 = vec![b'0'];
    f1.extend_from_slice(b"one");
    let mut f2 = vec![b'0'];
    f2.extend_from_slice(b"two");
    assert_eq!(
        actions,
        vec![SessionAction::SendFrame(f1), SessionAction::SendFrame(f2)]
    );
    assert_eq!(session.state(), SessionState::Active);
    let actions = session.step(SessionEvent::PtyOutput(frame("3")));
    assert_eq!(actions.len(), 1);
}

#[test]
fn resumed_session_holds_nothing_twice() {
    let mut session = active_session(plain_config(), "{}");
    session.step(SessionEvent::Frame(frame("2")));
    session.step(SessionEvent::PtyOutput(frame("x")));
    let first = session.step(SessionEvent::Frame(frame("3")));
    assert_eq!(first.len(), 1);
    session.step(SessionEvent::Frame(frame("2")));
    let second = session.step(SessionEvent::Frame(frame("3")));
    assert!(second.is_empty());
}

#[test]
fn resizes_apply_in_order_and_none_is_lost() {
    let mut session = active_session(plain_config(), "{}");
    let a1 = session.step(SessionEvent::Frame(frame("1{\"columns\":100,\"rows\":30}")));
    let a2 = session.step(SessionEvent::Frame(frame("1{\"columns\":90,\"rows\":25}")));
    assert_eq!(
        a1,
        vec![SessionAction::ResizePty(PtySize { cols: 100, rows: 30 })]
    );
    assert_eq!(
        a2,
        vec![SessionAction::ResizePty(PtySize { cols: 90, rows: 25 })]
    );
}

#[test]
fn resize_before_init_is_ignored() {
    let mut session = started_session(plain_config());
    let actions = session.step(SessionEvent::Frame(frame("1{\"columns\":90,\"rows\":25}")));
    assert!(actions.is_empty());
}

#[test]
fn mouse_click_becomes_a_report_written_to_the_terminal() {
    let mut session = active_session(plain_config(), "{}");
    let actions = session.step(SessionEvent::Frame(frame(
        "4{\"x\":5,\"y\":10,\"button\":0,\"pressed\":true}",
    )));
    assert_eq!(
        actions,
        vec![SessionAction::WritePty(vec![0x1b, 0x4d, 0x20, 37, 42])]
    );
}

#[test]
fn mouse_drag_becomes_a_report_written_to_the_terminal() {
    let mut session = active_session(plain_config(), "{}");
    let actions = session.step(SessionEvent::Frame(frame(
        "5{\"x\":5,\"y\":10,\"button\":0,\"start_x\":1,\"start_y\":1}",
    )));
    assert_eq!(
        actions,
        vec![SessionAction::WritePty(vec![0x1b, 0x4d, 0x60, 37, 42])]
    );
}

#[test]
fn malformed_frame_is_dropped_and_the_session_goes_on() {
    let mut session = active_session(plain_config(), "{}");
    let actions = session.step(SessionEvent::Frame(frame("1{\"columns\":}")));
    assert!(actions.is_empty());
    assert_eq!(session.state(), SessionState::Active);
    let actions = session.step(SessionEvent::Frame(frame("0still here")));
    assert_eq!(actions.len(), 1);
}

#[test]
fn second_init_is_ignored() {
    let mut session = active_session(plain_config(), "{}");
    let actions = session.step(SessionEvent::Frame(frame("{\"columns\":10,\"rows\":10}")));
    assert!(actions.is_empty());
    assert_eq!(session.state(), SessionState::Active);
}

#[test]
fn finishing_without_init_kills_nothing() {
    let mut session = started_session(plain_config());
    session.step(SessionEvent::Frame(frame("0junk")));
    session.step(SessionEvent::Frame(frame("nonsense")));
    session.step(SessionEvent::PeerClosed);
    let actions = session.finish();
    assert!(actions.is_empty());
    assert_eq!(session.state(), SessionState::Closed);
}

#[test]
fn finishing_a_spawned_session_kills_exactly_once() {
    let mut session = active_session(plain_config(), "{}");
    let actions = session.finish();
    assert_eq!(actions, vec![SessionAction::KillPty]);
    let actions = session.finish();
    assert!(actions.is_empty());
}

#[test]
fn spawn_failure_closes_the_session() {
    let mut session = started_session(plain_config());
    session.step(SessionEvent::Frame(frame("{}")));
    let actions = session.step(SessionEvent::SpawnFailed);
    assert!(actions.is_empty());
    assert_eq!(session.state(), SessionState::Closing);
}

#[test]
fn process_exit_closes_the_session() {
    let mut session = active_session(plain_config(), "{}");
    let actions = session.step(SessionEvent::PtyExited);
    assert!(actions.is_empty());
    assert_eq!(session.state(), SessionState::Closing);
}

#[test]
fn peer_closing_closes_the_session() {
    let mut session = active_session(plain_config(), "{}");
    session.step(SessionEvent::PeerClosed);
    assert_eq!(session.state(), SessionState::Closing);
    let actions = session.finish();
    assert_eq!(actions, vec![SessionAction::KillPty]);
}

#[test]
fn spawned_pid_is_remembered_for_display() {
    let session = active_session(plain_config(), "{}");
    assert_eq!(session.pid(), Some(4242));
}

#[test]
fn pause_before_init_is_ignored() {
    let mut session = started_session(plain_config());
    let actions = session.step(SessionEvent::Frame(frame("2")));
    assert!(actions.is_empty());
    assert_eq!(session.state(), SessionState::AwaitingInit);
}
