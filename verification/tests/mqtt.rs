use mqtt_hostname_online::cli::Cli;
use mqtt_hostname_online::live::{on_loop, LiveSnapshot, LoadAverage};
use mqtt_hostname_online::publication::{Publication, Qos};
use mqtt_hostname_online::mqtt::{
    connect, Action, ConfigError, Credentials, Event, SessionState, BACKOFF_SECS, KEEP_ALIVE_SECS,
};

fn publication(topic: &str, payload: &str, retain: bool) -> Publication {
    Publication {
        topic: topic.to_string(),
        payload: payload.to_string(),
        qos: Qos::AtLeastOnce,
        retain,
    }
}

#[test]
fn verify() {
    let cli = Cli::default();
    assert_eq!(cli.broker, "localhost");
    assert_eq!(cli.port, 1883);
    assert_eq!(cli.username, None);
    assert_eq!(cli.password, None);
    assert!(cli.connect("box1", true).is_ok());
    let lone_user = Cli { username: Some("u".to_string()), ..Cli::default() };
    assert_eq!(lone_user.connect("box1", true).err(), Some(ConfigError::MissingPassword));
    let lone_password = Cli { password: Some("p".to_string()), ..Cli::default() };
    assert_eq!(lone_password.connect("box1", true).err(), Some(ConfigError::MissingUsername));
}

#[test]
fn connect_keeps_what_it_is_given() {
    let session = connect("broker.example", 8883, Some("me"), Some("secret"), "box1", false).unwrap();
    let config = session.config();
    assert_eq!(config.broker, "broker.example");
    assert_eq!(config.port, 8883);
    assert_eq!(
        config.credentials,
        Some(Credentials { username: "me".to_string(), password: "secret".to_string() })
    );
    assert_eq!(config.host, "box1");
    assert!(!config.retain);
    assert_eq!(config.client_id(), "mqtt-hostname-online-box1");
    assert_eq!(session.state(), SessionState::Connecting);
    assert!(!session.is_live());
}

#[test]
fn connect_without_credentials_is_anonymous() {
    let session = connect("localhost", 1883, None, None, "box1", true).unwrap();
    assert_eq!(session.config().credentials, None);
}

#[test]
fn connect_turns_down_half_a_pair() {
    assert_eq!(
        connect("localhost", 1883, None, Some("secret"), "box1", true).err(),
        Some(ConfigError::MissingUsername)
    );
    assert_eq!(
        connect("localhost", 1883, Some("me"), None, "box1", true).err(),
        Some(ConfigError::MissingPassword)
    );
}

#[test]
fn last_will_is_offline_on_status() {
    let session = connect("localhost", 1883, None, None, "box1", true).unwrap();
    assert_eq!(session.last_will(), publication("box1/status", "offline", true));
    assert_eq!(session.config().last_will(), publication("box1/status", "offline", true));
    let unretained = connect("localhost", 1883, None, None, "box2", false).unwrap();
    assert_eq!(unretained.last_will(), publication("box2/status", "offline", false));
}

#[test]
fn last_will_stays_through_every_event() {
    let mut session = connect("localhost", 1883, None, None, "box1", true).unwrap();
    let will = session.last_will();
    for event in [
        Event::Other,
        Event::ConnAck,
        Event::PingResponse,
        Event::TransportError,
        Event::ConnAck,
        Event::OutgoingDisconnect,
        Event::ConnAck,
    ] {
        session.on_event(event);
        assert_eq!(session.last_will(), will);
    }
}

#[test]
fn presence_is_online_on_status() {
    let session = connect("localhost", 1883, None, None, "box1", true).unwrap();
    assert_eq!(session.presence(), publication("box1/status", "online", true));
}

#[test]
fn waiting_session_discards_until_acknowledged() {
    let mut session = connect("localhost", 1883, None, None, "box1", true).unwrap();
    assert_eq!(session.on_event(Event::Other), Action::Discard);
    assert_eq!(session.on_event(Event::PingResponse), Action::Discard);
    assert_eq!(session.on_event(Event::OutgoingDisconnect), Action::Discard);
    assert_eq!(session.state(), SessionState::Connecting);
    assert_eq!(session.on_event(Event::ConnAck), Action::AnnouncePresence);
    assert_eq!(session.state(), SessionState::Live);
    assert!(session.is_live());
}

#[test]
fn transport_error_before_first_acknowledgment_is_fatal() {
    let mut session = connect("localhost", 1883, None, None, "box1", true).unwrap();
    assert_eq!(session.on_event(Event::TransportError), Action::Abort);
    assert_eq!(session.state(), SessionState::Terminated);
    assert_eq!(session.on_event(Event::ConnAck), Action::Discard);
    assert_eq!(session.state(), SessionState::Terminated);
}

#[test]
fn live_session_backs_off_on_transport_errors() {
    let mut session = connect("localhost", 1883, None, None, "box1", true).unwrap();
    session.on_event(Event::ConnAck);
    assert_eq!(session.on_event(Event::TransportError), Action::Backoff);
    assert_eq!(session.state(), SessionState::Reconnecting);
    assert_eq!(session.on_event(Event::TransportError), Action::Backoff);
    assert_eq!(session.on_event(Event::Other), Action::Discard);
    assert_eq!(session.state(), SessionState::Reconnecting);
    assert_eq!(session.on_event(Event::ConnAck), Action::AnnouncePresence);
    assert_eq!(session.state(), SessionState::Live);
    assert_eq!(BACKOFF_SECS, 1);
    assert_eq!(KEEP_ALIVE_SECS, 60);
}

#[test]
fn live_session_ignores_other_events() {
    let mut session = connect("localhost", 1883, None, None, "box1", true).unwrap();
    session.on_event(Event::ConnAck);
    assert_eq!(session.on_event(Event::PingResponse), Action::Discard);
    assert_eq!(session.on_event(Event::Other), Action::Discard);
    assert_eq!(session.state(), SessionState::Live);
}

#[test]
fn outgoing_disconnect_ends_the_session() {
    let mut session = connect("localhost", 1883, None, None, "box1", true).unwrap();
    session.on_event(Event::ConnAck);
    assert_eq!(session.on_event(Event::OutgoingDisconnect), Action::Stop);
    assert_eq!(session.state(), SessionState::Terminated);
    assert_eq!(session.on_event(Event::ConnAck), Action::Discard);
    assert_eq!(session.on_event(Event::TransportError), Action::Discard);
    assert_eq!(session.state(), SessionState::Terminated);
    let mut failing = connect("localhost", 1883, None, None, "box1", true).unwrap();
    failing.on_event(Event::ConnAck);
    failing.on_event(Event::TransportError);
    assert_eq!(failing.on_event(Event::OutgoingDisconnect), Action::Stop);
}

#[test]
fn presence_is_announced_once_per_acknowledgment() {
    let mut session = connect("localhost", 1883, None, None, "box1", true).unwrap();
    let events = [
        Event::Other,
        Event::ConnAck,
        Event::PingResponse,
        Event::TransportError,
        Event::TransportError,
        Event::ConnAck,
        Event::ConnAck,
        Event::Other,
        Event::TransportError,
        Event::ConnAck,
    ];
    let mut announced = 0;
    let mut acknowledged = 0;
    for event in events {
        if event == Event::ConnAck {
            acknowledged += 1;
        }
        if session.on_event(event) == Action::AnnouncePresence {
            announced += 1;
            assert_eq!(event, Event::ConnAck);
            assert!(session.is_live());
        }
    }
    assert_eq!(announced, 4);
    assert_eq!(announced, acknowledged);
}

#[test]
fn end_to_end_presence_scenario() {
    let cli = Cli { broker: "localhost".to_string(), port: 1883, username: None, password: None };
    let mut session = cli.connect("box1", true).unwrap();
    let snapshot = LiveSnapshot {
        uptime_secs: 300,
        load: LoadAverage { one: "0".to_string(), five: "0".to_string(), fifteen: "0".to_string() },
        components: Vec::new(),
        batteries: Vec::new(),
    };

    assert_eq!(session.on_event(Event::ConnAck), Action::AnnouncePresence);
    assert_eq!(session.presence(), publication("box1/status", "online", true));
    let tick = on_loop(session.config(), &snapshot);

    assert_eq!(session.on_event(Event::TransportError), Action::Backoff);
    assert_eq!(on_loop(session.config(), &snapshot), tick);
    assert_eq!(session.on_event(Event::ConnAck), Action::AnnouncePresence);
    assert_eq!(session.presence(), publication("box1/status", "online", true));
    assert!(session.is_live());

    assert_eq!(on_loop(session.config(), &snapshot), tick);
    assert!(tick.iter().all(|p| p.topic != "box1/status"));
}
