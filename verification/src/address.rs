//! Connect and bind addresses and their textual grammar.
//!
//! A connect target is `host:port`, `tcp://host:port` or `unix:///path`; a
//! bind target additionally accepts a bare `port`, which binds `127.0.0.1`.
//! TCP ports are decimal numbers up to 65535.

use vstd::prelude::*;

use crate::error::Error;
use crate::text::{
    all_digits, decimal, digits_value, lemma_decimal_digits, lemma_last_index_after,
    lemma_last_index_bounds, head_to, is_digit, last_index, last_index_of,
    lemma_digits_value_monotone, push_decimal, starts_with, strip_prefix, tail_from,
};

verus! {

/// A client-side address for connecting to a running server.
#[derive(Debug, Clone, PartialEq, Eq)]
pub enum ConnectAddress {
    /// A TCP endpoint, rendered `tcp://host:port`.
    Tcp(String),
    /// A Unix-domain socket path.
    Unix(String),
}

/// A server-side address to bind a listener to. TCP port `0` requests an
/// OS-assigned port.
#[derive(Debug, Clone, PartialEq, Eq)]
pub enum BindAddress {
    /// A TCP host/port to bind.
    Tcp {
        /// Host or interface to bind (e.g. `127.0.0.1`, `0.0.0.0`).
        host: String,
        /// Port to bind; `0` requests an OS-assigned port.
        port: u16,
    },
    /// A Unix-domain socket path to bind.
    Unix {
        /// Filesystem path for the socket.
        path: String,
    },
}

/// The abstract value of a [`ConnectAddress`].
pub ghost enum ConnectTarget {
    Tcp(Seq<char>),
    Unix(Seq<char>),
}

/// The abstract value of a [`BindAddress`].
pub ghost enum BindTarget {
    Tcp(Seq<char>, u16),
    Unix(Seq<char>),
}

impl View for ConnectAddress {
    type V = ConnectTarget;

    open spec fn view(&self) -> ConnectTarget {
        match self {
            ConnectAddress::Tcp(value) => ConnectTarget::Tcp(value@),
            ConnectAddress::Unix(path) => ConnectTarget::Unix(path@),
        }
    }
}

impl View for BindAddress {
    type V = BindTarget;

    open spec fn view(&self) -> BindTarget {
        match self {
            BindAddress::Tcp { host, port } => BindTarget::Tcp(host@, *port),
            BindAddress::Unix { path } => BindTarget::Unix(path@),
        }
    }
}

/// The scheme prefix of a Unix-socket target.
pub open spec fn unix_scheme() -> Seq<char> {
    "unix://"@
}

/// The scheme prefix of a TCP target.
pub open spec fn tcp_scheme() -> Seq<char> {
    "tcp://"@
}

/// The host a bare-port bind target binds.
pub open spec fn default_bind_host() -> Seq<char> {
    "127.0.0.1"@
}

/// A TCP port: one or more decimal digits whose value is at most 65535.
pub open spec fn spec_parse_port(s: Seq<char>) -> Option<u16> {
    if s.len() > 0 && all_digits(s) && digits_value(s) <= 65535 {
        Some(digits_value(s) as u16)
    } else {
        None
    }
}

/// `host:port`, split at the last colon; the host must be non-empty.
pub open spec fn spec_parse_host_port(s: Seq<char>) -> Option<(Seq<char>, u16)> {
    let k = last_index_of(s, ':');
    if k <= 0 {
        None
    } else {
        match spec_parse_port(s.skip(k + 1)) {
            Some(port) => Some((s.take(k), port)),
            None => None,
        }
    }
}

/// `s` without a leading `tcp://`, or `s` itself.
pub open spec fn without_tcp_scheme(s: Seq<char>) -> Seq<char> {
    match strip_prefix(s, tcp_scheme()) {
        Some(rest) => rest,
        None => s,
    }
}

/// The canonical rendering `tcp://host:port`.
pub open spec fn tcp_text(host: Seq<char>, port: u16) -> Seq<char> {
    tcp_scheme() + host + ":"@ + decimal(port as nat)
}

/// The canonical rendering `unix://path`.
pub open spec fn unix_text(path: Seq<char>) -> Seq<char> {
    unix_scheme() + path
}

/// What a connect target parses to, if it is one.
pub open spec fn spec_parse_connect(s: Seq<char>) -> Option<ConnectTarget> {
    match strip_prefix(s, unix_scheme()) {
        Some(path) => if path.len() > 0 {
            Some(ConnectTarget::Unix(path))
        } else {
            None
        },
        None => match spec_parse_host_port(without_tcp_scheme(s)) {
            Some((host, port)) => Some(ConnectTarget::Tcp(tcp_text(host, port))),
            None => None,
        },
    }
}

/// What a bind target parses to, if it is one.
pub open spec fn spec_parse_bind(s: Seq<char>) -> Option<BindTarget> {
    match strip_prefix(s, unix_scheme()) {
        Some(path) => if path.len() > 0 {
            Some(BindTarget::Unix(path))
        } else {
            None
        },
        None => {
            let rest = without_tcp_scheme(s);
            if last_index_of(rest, ':') < 0 {
                match spec_parse_port(rest) {
                    Some(port) => Some(BindTarget::Tcp(default_bind_host(), port)),
                    None => None,
                }
            } else {
                match spec_parse_host_port(rest) {
                    Some((host, port)) => Some(BindTarget::Tcp(host, port)),
                    None => None,
                }
            }
        },
    }
}

/// The rendering of a connect target.
pub open spec fn connect_text(target: ConnectTarget) -> Seq<char> {
    match target {
        ConnectTarget::Tcp(value) => value,
        ConnectTarget::Unix(path) => unix_text(path),
    }
}

/// The rendering of a bind target.
pub open spec fn bind_text(target: BindTarget) -> Seq<char> {
    match target {
        BindTarget::Tcp(host, port) => tcp_text(host, port),
        BindTarget::Unix(path) => unix_text(path),
    }
}

/// The message of the error an unrecognized connect target gets.
pub open spec fn connect_error_text(value: Seq<char>) -> Seq<char> {
    "expected host:port, tcp://host:port or unix:///path, got "@ + value
}

/// The message of the error an unrecognized bind target gets.
pub open spec fn bind_error_text(value: Seq<char>) -> Seq<char> {
    "expected port, host:port, tcp://host:port or unix:///path, got "@ + value
}

proof fn lemma_tcp_text_parts(host: Seq<char>, port: u16)
    requires
        host.len() > 0,
    ensures
        strip_prefix(tcp_text(host, port), unix_scheme()) is None,
        without_tcp_scheme(tcp_text(host, port)) == host + ":"@ + decimal(port as nat),
        last_index_of(host + ":"@ + decimal(port as nat), ':') == host.len(),
        spec_parse_host_port(host + ":"@ + decimal(port as nat)) == Some((host, port)),
{
    reveal_strlit("tcp://");
    reveal_strlit("unix://");
    reveal_strlit(":");
    let text = tcp_text(host, port);
    let rest = host + ":"@ + decimal(port as nat);
    assert(text =~= tcp_scheme() + rest);
    assert(text[0] == 't');
    assert(unix_scheme()[0] == 'u');
    if unix_scheme().len() <= text.len() && text.take(unix_scheme().len() as int) == unix_scheme() {
        assert(text.take(unix_scheme().len() as int)[0] == text[0]);
    }
    assert(text.take(tcp_scheme().len() as int) =~= tcp_scheme());
    assert(text.skip(tcp_scheme().len() as int) =~= rest);
    lemma_decimal_digits(port as nat);
    let digits = decimal(port as nat);
    assert(forall|i: int| 0 <= i < digits.len() ==> digits[i] != ':') by {
        assert forall|i: int| 0 <= i < digits.len() implies digits[i] != ':' by {
            assert(is_digit(digits[i]));
        }
    }
    assert(":"@ =~= seq![':']);
    assert(rest =~= host + seq![':'] + digits);
    lemma_last_index_after(host, ':', digits);
    assert(rest.skip(host.len() + 1int) =~= digits);
    assert(rest.take(host.len() as int) =~= host);
}

/// Reading back a rendered TCP bind address gives the address: for every
/// non-empty host and every port, `tcp://host:port` parses to that host and
/// port.
pub proof fn lemma_bind_tcp_roundtrip(host: Seq<char>, port: u16)
    requires
        host.len() > 0,
    ensures
        spec_parse_bind(bind_text(BindTarget::Tcp(host, port))) == Some(BindTarget::Tcp(host, port)),
{
    lemma_tcp_text_parts(host, port);
}

/// Reading back a rendered Unix-socket address gives the address, for every
/// non-empty path.
pub proof fn lemma_unix_roundtrip(path: Seq<char>)
    requires
        path.len() > 0,
    ensures
        spec_parse_bind(bind_text(BindTarget::Unix(path))) == Some(BindTarget::Unix(path)),
        spec_parse_connect(connect_text(ConnectTarget::Unix(path))) == Some(
            ConnectTarget::Unix(path),
        ),
{
    let text = unix_text(path);
    assert(text.take(unix_scheme().len() as int) =~= unix_scheme());
    assert(text.skip(unix_scheme().len() as int) =~= path);
}

/// Every connect address the parser produces renders to a string that parses
/// back to the same address.
pub proof fn lemma_connect_roundtrip(value: Seq<char>)
    requires
        spec_parse_connect(value) is Some,
    ensures
        spec_parse_connect(connect_text(spec_parse_connect(value)->Some_0)) == spec_parse_connect(
            value,
        ),
{
    match spec_parse_connect(value)->Some_0 {
        ConnectTarget::Unix(path) => {
            lemma_unix_roundtrip(path);
        },
        ConnectTarget::Tcp(_) => {
            lemma_last_index_bounds(without_tcp_scheme(value), ':');
            let (host, port) = spec_parse_host_port(without_tcp_scheme(value))->Some_0;
            lemma_tcp_text_parts(host, port);
        },
    }
}

fn parse_port(s: &str) -> (port: Option<u16>)
    ensures
        port == spec_parse_port(s@),
{
    let n = s.unicode_len();
    if n == 0 {
        return None;
    }
    let mut value: u64 = 0;
    let mut i: usize = 0;
    while i < n
        invariant
            n == s@.len(),
            n > 0,
            i <= n,
            all_digits(s@.take(i as int)),
            value == digits_value(s@.take(i as int)),
            value <= 65535,
        decreases n - i,
    {
        let c = s.get_char(i);
        if c < '0' || c > '9' {
            assert(!is_digit(s@[i as int]));
            return None;
        }
        let d: u64 = (c as u64) - ('0' as u64);
        let ghost prefix = s@.take(i as int + 1);
        assert(prefix.drop_last() =~= s@.take(i as int));
        assert(prefix.last() == c);
        value = value * 10 + d;
        i = i + 1;
        assert(all_digits(s@.take(i as int))) by {
            assert forall|j: int| 0 <= j < i implies is_digit(#[trigger] s@.take(i as int)[j]) by {
                if j < i - 1 {
                    assert(s@.take(i as int)[j] == s@.take(i - 1)[j]);
                }
            }
        }
        if value > 65535 {
            proof {
                if all_digits(s@) {
                    lemma_digits_value_monotone(s@, i as int);
                }
            }
            return None;
        }
    }
    assert(s@.take(n as int) =~= s@);
    Some(value as u16)
}

fn parse_host_port(s: &str) -> (parsed: Option<(String, u16)>)
    ensures
        match parsed {
            Some((host, port)) => spec_parse_host_port(s@) == Some((host@, port)),
            None => spec_parse_host_port(s@) is None,
        },
{
    let n = s.unicode_len();
    match last_index(s, ':') {
        None => None,
        Some(k) => {
            if k == 0 {
                return None;
            }
            let port_text = tail_from(s, k + 1);
            match parse_port(port_text.as_str()) {
                None => None,
                Some(port) => Some((head_to(s, k), port)),
            }
        },
    }
}

fn strip_tcp_scheme(value: &str) -> (rest: String)
    ensures
        rest@ == without_tcp_scheme(value@),
{
    if starts_with(value, "tcp://") {
        let scheme = "tcp://";
        tail_from(value, scheme.unicode_len())
    } else {
        String::from_str(value)
    }
}

impl ConnectAddress {
    /// Parse a connect target such as `host:port`, `tcp://host:port`, or
    /// `unix:///path/to.sock`. An unrecognized target is an
    /// [`Error::Address`].
    pub fn parse(value: &str) -> (parsed: Result<Self, Error>)
        ensures
            match parsed {
                Ok(address) => spec_parse_connect(value@) == Some(address@),
                Err(error) => spec_parse_connect(value@) is None && (error matches Error::Address(
                    message,
                ) && message@ == connect_error_text(value@)),
            },
    {
        if starts_with(value, "unix://") {
            let scheme = "unix://";
            let path = tail_from(value, scheme.unicode_len());
            if path.unicode_len() > 0 {
                return Ok(ConnectAddress::Unix(path));
            }
            return Err(Error::Address(
                String::from_str("expected host:port, tcp://host:port or unix:///path, got ").concat(
                    value,
                ),
            ));
        }
        let rest = strip_tcp_scheme(value);
        match parse_host_port(rest.as_str()) {
            Some((host, port)) => {
                let mut text = String::from_str("tcp://");
                text.append(host.as_str());
                text.append(":");
                push_decimal(&mut text, port as u64);
                Ok(ConnectAddress::Tcp(text))
            },
            None => Err(
                Error::Address(
                    String::from_str(
                        "expected host:port, tcp://host:port or unix:///path, got ",
                    ).concat(value),
                ),
            ),
        }
    }

    /// The address rendered as a connect string (`tcp://...` or `unix://...`).
    pub fn as_str(&self) -> (text: String)
        ensures
            text@ == connect_text(self@),
    {
        match self {
            ConnectAddress::Tcp(value) => value.clone(),
            ConnectAddress::Unix(path) => String::from_str("unix://").concat(path.as_str()),
        }
    }
}

impl BindAddress {
    /// Parse a bind target such as `port`, `host:port`, `tcp://host:port`, or
    /// `unix:///path/to.sock`. A bare port binds `127.0.0.1`. An unrecognized
    /// target is an [`Error::Address`].
    pub fn parse(value: &str) -> (parsed: Result<Self, Error>)
        ensures
            match parsed {
                Ok(address) => spec_parse_bind(value@) == Some(address@),
                Err(error) => spec_parse_bind(value@) is None && (error matches Error::Address(
                    message,
                ) && message@ == bind_error_text(value@)),
            },
    {
        if starts_with(value, "unix://") {
            let scheme = "unix://";
            let path = tail_from(value, scheme.unicode_len());
            if path.unicode_len() > 0 {
                return Ok(BindAddress::Unix { path });
            }
            return Err(Error::Address(
                String::from_str(
                    "expected port, host:port, tcp://host:port or unix:///path, got ",
                ).concat(value),
            ));
        }
        let rest = strip_tcp_scheme(value);
        let parsed = if last_index(rest.as_str(), ':').is_none() {
            match parse_port(rest.as_str()) {
                Some(port) => Some((String::from_str("127.0.0.1"), port)),
                None => None,
            }
        } else {
            parse_host_port(rest.as_str())
        };
        match parsed {
            Some((host, port)) => Ok(BindAddress::Tcp { host, port }),
            None => Err(
                Error::Address(
                    String::from_str(
                        "expected port, host:port, tcp://host:port or unix:///path, got ",
                    ).concat(value),
                ),
            ),
        }
    }

    /// The address rendered as a `tcp://host:port` or `unix://path` string.
    pub fn display_address(&self) -> (text: String)
        ensures
            text@ == bind_text(self@),
    {
        match self {
            BindAddress::Tcp { host, port } => {
                let mut text = String::from_str("tcp://");
                text.append(host.as_str());
                text.append(":");
                push_decimal(&mut text, *port as u64);
                text
            },
            BindAddress::Unix { path } => String::from_str("unix://").concat(path.as_str()),
        }
    }
}

/// What probing a Unix-socket path before a bind found.
#[derive(Debug, Clone, PartialEq, Eq)]
pub enum SocketProbe {
    /// Nothing is at the path, or something that is not a socket.
    NotASocket,
    /// A connect succeeded: a server is listening.
    Live,
    /// A connect was refused: nothing accepts on the socket.
    Refused,
    /// The path vanished between the look and the connect.
    Vanished,
    /// The connect failed otherwise, with this text.
    Unverifiable(String),
}

/// What a bind does with the path it probed.
#[derive(Debug, Clone, Copy, PartialEq, Eq, Structural)]
pub enum StaleSocketStep {
    /// Leave the path as it is and bind.
    Keep,
    /// Unlink the stale socket, then bind.
    Unlink,
}

/// The decision before binding a Unix socket at `path`: a refused probe
/// proves the socket stale, so it is unlinked; a live one is never stolen; a
/// probe that cannot tell fails safe; anything that is not a socket (or is
/// gone) is left for the bind to judge.
pub fn stale_socket_step(path: &str, probe: SocketProbe) -> (step: Result<StaleSocketStep, Error>)
    ensures
        match probe {
            SocketProbe::NotASocket | SocketProbe::Vanished => step == Ok::<StaleSocketStep, Error>(
                StaleSocketStep::Keep,
            ),
            SocketProbe::Refused => step == Ok::<StaleSocketStep, Error>(StaleSocketStep::Unlink),
            SocketProbe::Live => step matches Err(Error::Server(message)) && message@
                == "address already in use: a server is already listening on "@ + path@,
            SocketProbe::Unverifiable(reason) => step matches Err(Error::Server(message)) && message@
                == "cannot verify whether socket "@ + path@ + " is stale: "@ + reason@,
        },
{
    match probe {
        SocketProbe::NotASocket => Ok(StaleSocketStep::Keep),
        SocketProbe::Vanished => Ok(StaleSocketStep::Keep),
        SocketProbe::Refused => Ok(StaleSocketStep::Unlink),
        SocketProbe::Live => {
            let mut message = String::from_str("address already in use: a server is already listening on ");
            message.append(path);
            proof {
                reveal_strlit("address already in use: a server is already listening on ");
            }
            Err(Error::Server(message))
        },
        SocketProbe::Unverifiable(reason) => {
            let mut message = String::from_str("cannot verify whether socket ");
            message.append(path);
            message.append(" is stale: ");
            message.append(reason.as_str());
            proof {
                reveal_strlit("cannot verify whether socket ");
                reveal_strlit(" is stale: ");
            }
            Err(Error::Server(message))
        },
    }
}

/// The failure of unlinking the stale socket at `path`, with the reason.
pub fn unlink_failure(path: &str, reason: &str) -> (error: Error)
    ensures
        error matches Error::Server(message) && message@ == "failed to remove stale socket "@ + path@ + ": "@
            + reason@,
{
    let mut message = String::from_str("failed to remove stale socket ");
    message.append(path);
    message.append(": ");
    message.append(reason);
    proof {
        reveal_strlit("failed to remove stale socket ");
        reveal_strlit(": ");
    }
    Error::Server(message)
}

} // verus!
