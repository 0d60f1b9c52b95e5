//! The configuration of a proxy.

use std::path::PathBuf;

use vstd::prelude::*;
use vstd::string::StrSliceExecFns;

use crate::local_server::LocalServerConfig;
use crate::plugin::{Pipeline, ProxyPlugin};
use crate::session::SessionOpts;
use crate::text;
use crate::upstream::UpstreamConfig;
use crate::views;
use crate::views::group_views;

verus! {

broadcast use group_views;

/// Configuration for a reflection proxy.
pub struct ProxyBuilder {
    bind: String,
    target_host: String,
    target_port: u16,
    email: String,
    auth_cache: Option<PathBuf>,
    plugins: Vec<Box<dyn ProxyPlugin>>,
    whitelist: Vec<String>,
    max_clients: Option<usize>,
    max_pending_handshakes: Option<usize>,
    always_first_control: bool,
}

/// What a [`ProxyBuilder`] holds.
#[verifier::ext_equal]
pub struct BuilderView {
    pub bind: Seq<char>,
    pub target_host: Seq<char>,
    pub target_port: u16,
    pub email: Seq<char>,
    pub auth_cache: Option<PathBuf>,
    pub plugins: Seq<Box<dyn ProxyPlugin>>,
    pub whitelist: Seq<Seq<char>>,
    pub max_clients: Option<usize>,
    pub max_pending_handshakes: Option<usize>,
    pub always_first_control: bool,
}

impl View for ProxyBuilder {
    type V = BuilderView;

    closed spec fn view(&self) -> BuilderView {
        BuilderView {
            bind: self.bind@,
            target_host: self.target_host@,
            target_port: self.target_port,
            email: self.email@,
            auth_cache: self.auth_cache,
            plugins: self.plugins@,
            whitelist: views::views(self.whitelist@),
            max_clients: self.max_clients,
            max_pending_handshakes: self.max_pending_handshakes,
            always_first_control: self.always_first_control,
        }
    }
}

/// What a proxy is started with.
pub struct ProxyConfig {
    pub local: LocalServerConfig,
    pub upstream: UpstreamConfig,
    pub pipeline: Pipeline,
    pub whitelist: Vec<String>,
    pub opts: SessionOpts,
    pub max_pending_handshakes: Option<usize>,
}

/// Why a configuration is not complete.
#[derive(Clone, Copy, Debug, PartialEq, Eq, Structural)]
pub enum ConfigError {
    /// No account email was set.
    EmailRequired,
}

/// The target after it was set to a text: a host and a port, where the text
/// ends in a colon and a port number, else a host alone.
pub open spec fn targeted(b: BuilderView, host: Seq<char>) -> BuilderView {
    match text::split_last(host, ':') {
        Some((name, port)) => match text::port_number(port) {
            Some(port) => BuilderView { target_host: name, target_port: port, ..b },
            None => BuilderView { target_host: host, ..b },
        },
        None => BuilderView { target_host: host, ..b },
    }
}

/// A name is on the list, whatever its case.
pub open spec fn listed(whitelist: Seq<Seq<char>>, username: Seq<char>) -> bool {
    exists|i: int|
        0 <= i < whitelist.len() && text::same_text(#[trigger] whitelist[i], username)
}

/// A user may connect. With an empty list anyone may.
pub open spec fn admitted(whitelist: Seq<Seq<char>>, username: Seq<char>) -> bool {
    whitelist.len() == 0 || listed(whitelist, username)
}

impl Default for ProxyBuilder {
    fn default() -> (r: ProxyBuilder)
        ensures
            r@ == (BuilderView {
                bind: "127.0.0.1:25566"@,
                target_host: "localhost"@,
                target_port: 25565,
                email: Seq::empty(),
                auth_cache: None,
                plugins: Seq::empty(),
                whitelist: Seq::empty(),
                max_clients: None,
                max_pending_handshakes: None,
                always_first_control: false,
            }),
    {
        proof {
            reveal_strlit("");
            assert(""@ =~= Seq::<char>::empty());
        }
        ProxyBuilder {
            bind: "127.0.0.1:25566".to_owned(),
            target_host: "localhost".to_owned(),
            target_port: 25565,
            email: "".to_owned(),
            auth_cache: None,
            plugins: Vec::new(),
            whitelist: Vec::new(),
            max_clients: None,
            max_pending_handshakes: None,
            always_first_control: false,
        }
    }
}

impl ProxyBuilder {
    /// Local address the proxy listens on; port 0 picks a free port.
    pub fn bind(self, addr: &str) -> (r: ProxyBuilder)
        ensures
            r@ == (BuilderView { bind: addr@, ..self@ }),
    {
        ProxyBuilder { bind: addr.to_owned(), ..self }
    }

    /// The real server, as a host or as `host:port`.
    pub fn target(self, host: &str) -> (r: ProxyBuilder)
        ensures
            r@ == targeted(self@, host@),
    {
        if let Some((name, port)) = text::rsplit_once(host, ':') {
            if let Some(target_port) = text::parse_port(port) {
                return ProxyBuilder { target_host: name.to_owned(), target_port, ..self };
            }
        }
        ProxyBuilder { target_host: host.to_owned(), ..self }
    }

    /// Microsoft account email.
    pub fn email(self, email: &str) -> (r: ProxyBuilder)
        ensures
            r@ == (BuilderView { email: email@, ..self@ }),
    {
        ProxyBuilder { email: email.to_owned(), ..self }
    }

    /// Keeps login tokens here instead of in the usual place.
    pub fn auth_cache(self, path: PathBuf) -> (r: ProxyBuilder)
        ensures
            r@ == (BuilderView { auth_cache: Some(path), ..self@ }),
    {
        ProxyBuilder { auth_cache: Some(path), ..self }
    }

    /// Adds a plugin behind the others.
    pub fn plugin(self, p: Box<dyn ProxyPlugin>) -> (r: ProxyBuilder)
        ensures
            r@ == (BuilderView { plugins: self@.plugins.push(p), ..self@ }),
    {
        let mut plugins: Vec<Box<dyn ProxyPlugin>> = self.plugins;
        plugins.push(p);
        ProxyBuilder { plugins, ..self }
    }

    /// Lets only these users connect, whatever the case of their names. An
    /// empty list lets everyone.
    pub fn whitelist(self, names: &[&str]) -> (r: ProxyBuilder)
        ensures
            r@ == (BuilderView {
                whitelist: Seq::new(names@.len(), |i: int| names@[i]@),
                ..self@
            }),
    {
        let mut whitelist: Vec<String> = Vec::new();
        let ghost all = Seq::new(names@.len(), |i: int| names@[i]@);
        let mut i: usize = 0;
        while i < names.len()
            invariant
                i <= names.len(),
                all == Seq::new(names@.len(), |i: int| names@[i]@),
                views::views(whitelist@) == all.take(i as int),
            decreases names.len() - i,
        {
            whitelist.push(names[i].to_owned());
            proof {
                assert(all.take(i + 1) =~= all.take(i as int).push(all[i as int]));
            }
            i = i + 1;
        }
        proof {
            assert(all.take(i as int) =~= all);
        }
        ProxyBuilder { whitelist, ..self }
    }

    /// Caps simultaneous clients, controller and viewers together.
    pub fn max_clients(self, max: usize) -> (r: ProxyBuilder)
        ensures
            r@ == (BuilderView { max_clients: Some(max), ..self@ }),
    {
        ProxyBuilder { max_clients: Some(max), ..self }
    }

    /// Caps connections that have not logged in yet.
    pub fn max_pending_handshakes(self, max: usize) -> (r: ProxyBuilder)
        ensures
            r@ == (BuilderView { max_pending_handshakes: Some(max), ..self@ }),
    {
        ProxyBuilder { max_pending_handshakes: Some(max), ..self }
    }

    /// When the controller is gone or gives up control, hands it to the oldest
    /// connected viewer.
    pub fn always_first_control(self, on: bool) -> (r: ProxyBuilder)
        ensures
            r@ == (BuilderView { always_first_control: on, ..self@ }),
    {
        ProxyBuilder { always_first_control: on, ..self }
    }

    /// What the proxy is to be started with. Only the email has no default.
    pub fn into_config(self) -> (r: Result<ProxyConfig, ConfigError>)
        ensures
            match r {
                Ok(c) => {
                    &&& self@.email.len() > 0
                    &&& c.local.bind@ == self@.bind
                    &&& c.upstream.host@ == self@.target_host
                    &&& c.upstream.port == self@.target_port
                    &&& c.upstream.email@ == self@.email
                    &&& c.upstream.auth_cache == self@.auth_cache
                    &&& c.pipeline.plugins@ == self@.plugins
                    &&& views::views(c.whitelist@) == self@.whitelist
                    &&& c.opts.max_clients == self@.max_clients
                    &&& c.opts.always_first_control == self@.always_first_control
                    &&& c.max_pending_handshakes == self@.max_pending_handshakes
                },
                Err(e) => self@.email.len() == 0 && e == ConfigError::EmailRequired,
            },
    {
        if self.email.as_str().unicode_len() == 0 {
            return Err(ConfigError::EmailRequired);
        }
        Ok(
            ProxyConfig {
                local: LocalServerConfig { bind: self.bind },
                upstream: UpstreamConfig {
                    host: self.target_host,
                    port: self.target_port,
                    email: self.email,
                    auth_cache: self.auth_cache,
                },
                pipeline: Pipeline { plugins: self.plugins },
                whitelist: self.whitelist,
                opts: SessionOpts {
                    max_clients: self.max_clients,
                    always_first_control: self.always_first_control,
                },
                max_pending_handshakes: self.max_pending_handshakes,
            },
        )
    }
}

/// Whether a user may connect.
pub fn admits(whitelist: &Vec<String>, username: &str) -> (r: bool)
    ensures
        r == admitted(views::views(whitelist@), username@),
{
    if whitelist.len() == 0 {
        return true;
    }
    let ghost names = views::views(whitelist@);
    let mut i: usize = 0;
    while i < whitelist.len()
        invariant
            i <= whitelist.len(),
            names == views::views(whitelist@),
            forall|j: int| 0 <= j < i ==> !text::same_text(#[trigger] names[j], username@),
        decreases whitelist.len() - i,
    {
        if text::same(whitelist[i].as_str(), username) {
            proof {
                assert(text::same_text(names[i as int], username@));
            }
            return true;
        }
        i = i + 1;
    }
    false
}

/// Whether a name is on the list does not hang on its case.
pub proof fn admission_ignores_case(whitelist: Seq<Seq<char>>, a: Seq<char>, b: Seq<char>)
    requires
        text::same_text(a, b),
    ensures
        admitted(whitelist, a) == admitted(whitelist, b),
{
    if listed(whitelist, a) {
        let i = choose|i: int|
            0 <= i < whitelist.len() && text::same_text(#[trigger] whitelist[i], a);
        assert(text::same_text(whitelist[i], b));
    }
    if listed(whitelist, b) {
        let i = choose|i: int|
            0 <= i < whitelist.len() && text::same_text(#[trigger] whitelist[i], b);
        assert(text::same_text(whitelist[i], a));
    }
}

/// A target that names no port leaves the port as it was set before.
pub proof fn target_without_port_keeps_the_port(b: BuilderView, host: Seq<char>)
    requires
        text::split_last(host, ':') is None,
    ensures
        targeted(b, host).target_host == host,
        targeted(b, host).target_port == b.target_port,
{
}

} // verus!
