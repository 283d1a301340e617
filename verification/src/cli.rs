//! The configuration surface: where the broker is and how to sign in.

use vstd::prelude::*;
use crate::mqtt::{connect, paired, ConfigError, Session, SessionState};
use crate::text::string_text;

verus! {

/// Where the broker is and how to sign in.
#[derive(Clone, Debug, PartialEq, Eq)]
pub struct Cli {
    /// Host on which the broker runs.
    pub broker: String,
    /// Port on which the broker listens.
    pub port: u16,
    /// User name; anonymous access without one.
    pub username: Option<String>,
    /// Password; it comes with a user name or not at all.
    pub password: Option<String>,
}

impl Default for Cli {
    /// The broker on this machine at port 1883, without credentials.
    fn default() -> (cli: Cli)
        ensures
            cli.broker@ == "localhost"@,
            cli.port == 1883,
            cli.username is None,
            cli.password is None,
    {
        Cli { broker: "localhost".to_owned(), port: 1883, username: None, password: None }
    }
}

impl Cli {
    /// Opens a session for `hostname` with this configuration; a user name without a
    /// password, or a password without a user name, is turned down.
    pub fn connect(&self, hostname: &str, retain: bool) -> (opened: Result<Session, ConfigError>)
        ensures
            match opened {
                Ok(session) => {
                    &&& paired(string_text(self.username), string_text(self.password)) == Ok::<
                        _,
                        ConfigError,
                    >(session@.config.credentials_view())
                    &&& session@.state == SessionState::Connecting
                    &&& session@.config.broker@ == self.broker@
                    &&& session@.config.port == self.port
                    &&& session@.config.host@ == hostname@
                    &&& session@.config.retain == retain
                },
                Err(e) => paired(string_text(self.username), string_text(self.password)) == Err::<
                    Option<(Seq<char>, Seq<char>)>,
                    _,
                >(e),
            },
    {
        let username = match &self.username {
            Some(u) => Some(u.as_str()),
            None => None,
        };
        let password = match &self.password {
            Some(p) => Some(p.as_str()),
            None => None,
        };
        connect(self.broker.as_str(), self.port, username, password, hostname, retain)
    }
}

} // verus!
