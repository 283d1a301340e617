//! The broker session: its configuration, its last will and presence marker, and the
//! decisions of its connection lifecycle. The caller owns the transport: it reads the
//! protocol events, hands each one to [`Session::on_event`] and carries out the action
//! that comes back.

use vstd::prelude::*;
use crate::publication::{Publication, PublicationView, Qos, reading};
use crate::text::slice_text;
use crate::topic::name;

verus! {

/// Seconds between keep-alive pings of a session.
pub const KEEP_ALIVE_SECS: u64 = 60;

/// Seconds to wait after a transport error before reading the next event.
pub const BACKOFF_SECS: u64 = 1;

/// A user name and the password that goes with it.
#[derive(Clone, Debug, PartialEq, Eq)]
pub struct Credentials {
    pub username: String,
    pub password: String,
}

/// Why a configuration was turned down.
#[derive(Clone, Copy, Debug, PartialEq, Eq, Structural)]
pub enum ConfigError {
    /// A password came without a user name.
    MissingUsername,
    /// A user name came without a password.
    MissingPassword,
}

/// Everything a session is opened with. It does not change afterwards.
#[derive(Clone, Debug, PartialEq, Eq)]
pub struct SessionConfig {
    pub broker: String,
    pub port: u16,
    pub credentials: Option<Credentials>,
    pub host: String,
    pub retain: bool,
}

/// Where a session stands.
#[derive(Clone, Copy, Debug, PartialEq, Eq, Structural)]
pub enum SessionState {
    /// Opened, the broker's first acknowledgment still to come.
    Connecting,
    /// Acknowledged by the broker.
    Live,
    /// The transport failed after an acknowledgment; the next one is awaited.
    Reconnecting,
    /// Ended, for good.
    Terminated,
}

/// What the transport reports.
#[derive(Clone, Copy, Debug, PartialEq, Eq, Structural)]
pub enum Event {
    /// The broker acknowledged the connection.
    ConnAck,
    /// The broker answered a ping.
    PingResponse,
    /// This side is sending a disconnect.
    OutgoingDisconnect,
    /// Any other protocol event.
    Other,
    /// Reading from the transport failed.
    TransportError,
}

/// What the caller is to do after an event.
#[derive(Clone, Copy, Debug, PartialEq, Eq, Structural)]
pub enum Action {
    /// Nothing; read the next event.
    Discard,
    /// Publish the presence marker, then read the next event.
    AnnouncePresence,
    /// Wait [`BACKOFF_SECS`], then read the next event.
    Backoff,
    /// Stop reading: the session has ended as intended.
    Stop,
    /// Give up: the session never came to life.
    Abort,
}

/// The client identifier of the session for `host`.
pub open spec fn client_id_of(host: Seq<char>) -> Seq<char> {
    "mqtt-hostname-online-"@ + host
}

/// The message that the broker issues when the session of `config` drops uncleanly.
pub open spec fn last_will_of(config: SessionConfig) -> PublicationView {
    reading(config.host@, "status"@, "offline"@, config.retain)
}

/// The presence marker of the session of `config`.
pub open spec fn presence_of(config: SessionConfig) -> PublicationView {
    reading(config.host@, "status"@, "online"@, config.retain)
}

/// The credentials that a user name and a password make, if they come as a pair.
pub open spec fn paired(username: Option<Seq<char>>, password: Option<Seq<char>>) -> Result<
    Option<(Seq<char>, Seq<char>)>,
    ConfigError,
> {
    match (username, password) {
        (Some(u), Some(p)) => Ok(Some((u, p))),
        (None, None) => Ok(None),
        (None, Some(_)) => Err(ConfigError::MissingUsername),
        (Some(_), None) => Err(ConfigError::MissingPassword),
    }
}

/// The state after `event` arrives in `state`, and what the caller is to do.
pub open spec fn step(state: SessionState, event: Event) -> (SessionState, Action) {
    match state {
        SessionState::Terminated => (SessionState::Terminated, Action::Discard),
        SessionState::Connecting => match event {
            Event::ConnAck => (SessionState::Live, Action::AnnouncePresence),
            Event::TransportError => (SessionState::Terminated, Action::Abort),
            _ => (SessionState::Connecting, Action::Discard),
        },
        _ => match event {
            Event::ConnAck => (SessionState::Live, Action::AnnouncePresence),
            Event::OutgoingDisconnect => (SessionState::Terminated, Action::Stop),
            Event::TransportError => (SessionState::Reconnecting, Action::Backoff),
            _ => (state, Action::Discard),
        },
    }
}

impl SessionConfig {
    /// What the credentials hold, as contracts speak of them.
    pub open spec fn credentials_view(self) -> Option<(Seq<char>, Seq<char>)> {
        match self.credentials {
            Some(c) => Some((c.username@, c.password@)),
            None => None,
        }
    }

    /// The client identifier, made from the host identifier.
    pub fn client_id(&self) -> (id: String)
        ensures
            id@ == client_id_of(self.host@),
    {
        let mut id = "mqtt-hostname-online-".to_owned();
        id.append(self.host.as_str());
        id
    }

    /// The message that the broker issues when the session drops uncleanly.
    pub fn last_will(&self) -> (will: Publication)
        ensures
            will@ == last_will_of(*self),
    {
        Publication {
            topic: name(self.host.as_str(), "status"),
            payload: "offline".to_owned(),
            qos: Qos::AtLeastOnce,
            retain: self.retain,
        }
    }

    /// The presence marker, published whenever the broker acknowledges the session.
    pub fn presence(&self) -> (marker: Publication)
        ensures
            marker@ == presence_of(*self),
    {
        Publication {
            topic: name(self.host.as_str(), "status"),
            payload: "online".to_owned(),
            qos: Qos::AtLeastOnce,
            retain: self.retain,
        }
    }
}

/// One logical connection to the broker.
#[derive(Debug)]
pub struct Session {
    config: SessionConfig,
    state: SessionState,
}

/// A session as contracts speak of it.
pub struct SessionView {
    pub config: SessionConfig,
    pub state: SessionState,
}

impl View for Session {
    type V = SessionView;

    closed spec fn view(&self) -> SessionView {
        SessionView { config: self.config, state: self.state }
    }
}

/// Opens a session for `hostname` at the broker `broker:port`: nothing is sent yet, the
/// session waits for the broker's first acknowledgment. A user name without a password,
/// or a password without a user name, is turned down.
pub fn connect(
    broker: &str,
    port: u16,
    username: Option<&str>,
    password: Option<&str>,
    hostname: &str,
    retain: bool,
) -> (opened: Result<Session, ConfigError>)
    ensures
        match opened {
            Ok(session) => {
                &&& paired(slice_text(username), slice_text(password)) == Ok::<_, ConfigError>(
                    session@.config.credentials_view(),
                )
                &&& session@.state == SessionState::Connecting
                &&& session@.config.broker@ == broker@
                &&& session@.config.port == port
                &&& session@.config.host@ == hostname@
                &&& session@.config.retain == retain
            },
            Err(e) => paired(slice_text(username), slice_text(password)) == Err::<
                Option<(Seq<char>, Seq<char>)>,
                _,
            >(e),
        },
{
    let credentials = match (username, password) {
        (Some(u), Some(p)) => Some(Credentials { username: u.to_owned(), password: p.to_owned() }),
        (None, None) => None,
        (None, Some(_)) => {
            return Err(ConfigError::MissingUsername);
        },
        (Some(_), None) => {
            return Err(ConfigError::MissingPassword);
        },
    };
    let config = SessionConfig {
        broker: broker.to_owned(),
        port,
        credentials,
        host: hostname.to_owned(),
        retain,
    };
    Ok(Session { config, state: SessionState::Connecting })
}

impl Session {
    /// What the session was opened with.
    pub fn config(&self) -> (config: &SessionConfig)
        ensures
            *config == self@.config,
    {
        &self.config
    }

    /// Where the session stands.
    pub fn state(&self) -> (state: SessionState)
        ensures
            state == self@.state,
    {
        self.state
    }

    /// Whether the broker has acknowledged the session and it has not failed since.
    pub fn is_live(&self) -> (live: bool)
        ensures
            live == (self@.state == SessionState::Live),
    {
        match self.state {
            SessionState::Live => true,
            _ => false,
        }
    }

    /// The session's one last will: `offline` on `<host>/status`.
    pub fn last_will(&self) -> (will: Publication)
        ensures
            will@ == last_will_of(self@.config),
    {
        self.config.last_will()
    }

    /// The session's presence marker: `online` on `<host>/status`.
    pub fn presence(&self) -> (marker: Publication)
        ensures
            marker@ == presence_of(self@.config),
    {
        self.config.presence()
    }

    /// Takes in one event of the transport and says what to do. The configuration, and
    /// with it the last will, stays as it is.
    pub fn on_event(&mut self, event: Event) -> (action: Action)
        ensures
            (final(self)@.state, action) == step(old(self)@.state, event),
            final(self)@.config == old(self)@.config,
    {
        let (next, action) = match self.state {
            SessionState::Terminated => (SessionState::Terminated, Action::Discard),
            SessionState::Connecting => match event {
                Event::ConnAck => (SessionState::Live, Action::AnnouncePresence),
                Event::TransportError => (SessionState::Terminated, Action::Abort),
                _ => (SessionState::Connecting, Action::Discard),
            },
            current => match event {
                Event::ConnAck => (SessionState::Live, Action::AnnouncePresence),
                Event::OutgoingDisconnect => (SessionState::Terminated, Action::Stop),
                Event::TransportError => (SessionState::Reconnecting, Action::Backoff),
                _ => (current, Action::Discard),
            },
        };
        self.state = next;
        action
    }
}

/// The state after `events` have arrived one by one in `state`, and the action that
/// answered each.
pub open spec fn run(state: SessionState, events: Seq<Event>) -> (SessionState, Seq<Action>)
    decreases events.len(),
{
    if events.len() == 0 {
        (state, Seq::empty())
    } else {
        let (reached, actions) = run(state, events.drop_last());
        let (next, action) = step(reached, events.last());
        (next, actions.push(action))
    }
}

/// How many of `events` are acknowledgments of the broker.
pub open spec fn acknowledgments(events: Seq<Event>) -> nat
    decreases events.len(),
{
    if events.len() == 0 {
        0
    } else {
        acknowledgments(events.drop_last()) + if events.last() == Event::ConnAck {
            1nat
        } else {
            0nat
        }
    }
}

/// How many of `actions` announce presence.
pub open spec fn announcements(actions: Seq<Action>) -> nat
    decreases actions.len(),
{
    if actions.len() == 0 {
        0
    } else {
        announcements(actions.drop_last()) + if actions.last() == Action::AnnouncePresence {
            1nat
        } else {
            0nat
        }
    }
}

/// The last will of a session is `offline` on `<host>/status`, delivered at least once,
/// and the presence marker is `online` on the same topic with the same delivery.
pub proof fn lemma_last_will(config: SessionConfig)
    ensures
        last_will_of(config).topic == config.host@ + seq!['/', 's', 't', 'a', 't', 'u', 's'],
        last_will_of(config).payload == seq!['o', 'f', 'f', 'l', 'i', 'n', 'e'],
        last_will_of(config).qos == Qos::AtLeastOnce,
        presence_of(config).topic == last_will_of(config).topic,
        presence_of(config).payload == seq!['o', 'n', 'l', 'i', 'n', 'e'],
        presence_of(config).qos == last_will_of(config).qos,
        presence_of(config).retain == last_will_of(config).retain,
{
    reveal_strlit("status");
    reveal_strlit("offline");
    reveal_strlit("online");
    assert("status"@ =~= seq!['s', 't', 'a', 't', 'u', 's']);
    assert("offline"@ =~= seq!['o', 'f', 'f', 'l', 'i', 'n', 'e']);
    assert("online"@ =~= seq!['o', 'n', 'l', 'i', 'n', 'e']);
    assert(config.host@ + seq!['/'] + seq!['s', 't', 'a', 't', 'u', 's'] =~= config.host@
        + seq!['/', 's', 't', 'a', 't', 'u', 's']);
}

/// Presence is announced on an acknowledgment that reaches a session which has not
/// ended, and on nothing else; the announcement is what brings a session to life.
pub proof fn lemma_step_presence(state: SessionState, event: Event)
    ensures
        step(state, event).1 == Action::AnnouncePresence <==> (event == Event::ConnAck && state
            != SessionState::Terminated),
        step(state, event).1 == Action::AnnouncePresence ==> step(state, event).0
            == SessionState::Live,
        state != SessionState::Live && step(state, event).0 == SessionState::Live ==> step(
            state,
            event,
        ).1 == Action::AnnouncePresence,
        state == SessionState::Terminated ==> step(state, event) == (
            SessionState::Terminated,
            Action::Discard,
        ),
{
}

/// Whatever arrives, each event gets one action, and presence is announced only in
/// answer to an acknowledgment.
pub proof fn lemma_run_presence(state: SessionState, events: Seq<Event>)
    ensures
        run(state, events).1.len() == events.len(),
        forall|i: int|
            0 <= i < events.len() && #[trigger] run(state, events).1[i] == Action::AnnouncePresence
                ==> events[i] == Event::ConnAck,
        announcements(run(state, events).1) <= acknowledgments(events),
    decreases events.len(),
{
    if events.len() > 0 {
        let front = events.drop_last();
        lemma_run_presence(state, front);
        let (reached, actions) = run(state, front);
        lemma_step_presence(reached, events.last());
        let all = run(state, events).1;
        assert(all.drop_last() == actions);
        assert forall|i: int|
            0 <= i < events.len() && #[trigger] all[i] == Action::AnnouncePresence implies events[i]
            == Event::ConnAck by {
            if i < front.len() {
                assert(all[i] == actions[i]);
                assert(events[i] == front[i]);
            }
        }
    }
}

/// A session that has come to life, and is not told to disconnect, never ends, however
/// often the transport fails; and it announces presence exactly once for each
/// acknowledgment of the broker.
pub proof fn lemma_presence_once_per_acknowledgment(state: SessionState, events: Seq<Event>)
    requires
        state == SessionState::Live || state == SessionState::Reconnecting,
        forall|i: int| 0 <= i < events.len() ==> events[i] != Event::OutgoingDisconnect,
    ensures
        run(state, events).0 == SessionState::Live || run(state, events).0
            == SessionState::Reconnecting,
        announcements(run(state, events).1) == acknowledgments(events),
    decreases events.len(),
{
    if events.len() > 0 {
        let front = events.drop_last();
        assert forall|i: int| 0 <= i < front.len() implies front[i]
            != Event::OutgoingDisconnect by {
            assert(front[i] == events[i]);
        }
        lemma_presence_once_per_acknowledgment(state, front);
        let (reached, actions) = run(state, front);
        assert(events.last() == events[events.len() - 1]);
        assert(run(state, events).1.drop_last() == actions);
    }
}

/// A session that waits for its first acknowledgment comes to life with the first one,
/// announcing presence, unless the transport fails before.
pub proof fn lemma_first_acknowledgment(events: Seq<Event>)
    requires
        events.len() > 0,
        events.last() == Event::ConnAck,
        forall|i: int| 0 <= i < events.len() - 1 ==> events[i] != Event::ConnAck && events[i]
            != Event::TransportError,
    ensures
        run(SessionState::Connecting, events).0 == SessionState::Live,
        run(SessionState::Connecting, events).1.last() == Action::AnnouncePresence,
        announcements(run(SessionState::Connecting, events).1) == 1,
{
    let front = events.drop_last();
    lemma_waiting(front);
    let (reached, actions) = run(SessionState::Connecting, front);
    assert(run(SessionState::Connecting, events).1.drop_last() == actions);
}

/// While neither an acknowledgment nor a transport error arrives, a session that waits
/// for its first acknowledgment keeps waiting and discards what it gets.
pub proof fn lemma_waiting(events: Seq<Event>)
    requires
        forall|i: int| 0 <= i < events.len() ==> events[i] != Event::ConnAck && events[i]
            != Event::TransportError,
    ensures
        run(SessionState::Connecting, events).0 == SessionState::Connecting,
        announcements(run(SessionState::Connecting, events).1) == 0,
    decreases events.len(),
{
    if events.len() > 0 {
        let front = events.drop_last();
        assert forall|i: int| 0 <= i < front.len() implies front[i] != Event::ConnAck && front[i]
            != Event::TransportError by {
            assert(front[i] == events[i]);
        }
        lemma_waiting(front);
        let (reached, actions) = run(SessionState::Connecting, front);
        assert(events.last() == events[events.len() - 1]);
        assert(run(SessionState::Connecting, events).1.drop_last() == actions);
    }
}

} // verus!
