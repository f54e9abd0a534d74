//! The command line and the environment: what is to be done, and where to listen.

use vstd::prelude::*;
use vstd::string::*;
use vstd::utf8::encode_utf8;

use crate::codec::utf8_bytes;
use crate::number::{
    decimal, decimal_text, law_decimal_reads_back, parse_decimal, read_decimal,
};
use crate::text::{concat2, has_prefix, owned, same_text, starts_with, strip_prefix};

verus! {

/// The arguments of the program.
pub struct Args {
    /// Where the configuration is.
    pub config: Option<String>,
    /// Where to keep a key for the mesh, which is made if there is none.
    pub generate_mesh_key: Option<String>,
}

/// What the program is to do.
pub enum Action {
    /// Serve, as the configuration says.
    Serve { config: Option<String> },
    /// Make a key for the mesh, or read it, and say its public key.
    GenerateMeshKey { path: String },
}

/// Why the arguments cannot be used.
#[derive(Debug, Clone, Copy, PartialEq, Eq, Structural)]
pub enum ArgsError {
    /// A key is to be kept at no path.
    EmptyKeyPath,
    /// A key is to be made, and a configuration is given.
    ConfigWithKey,
}

impl ArgsError {
    /// What the error says of itself.
    pub open spec fn text(self) -> Seq<char> {
        match self {
            ArgsError::EmptyKeyPath => "--generate-mesh-key needs a path"@,
            ArgsError::ConfigWithKey => "--generate-mesh-key cannot be used with --config"@,
        }
    }

    /// What the error says of itself.
    pub fn message(&self) -> (out: &'static str)
        ensures
            out@ == self.text(),
    {
        match self {
            ArgsError::EmptyKeyPath => "--generate-mesh-key needs a path",
            ArgsError::ConfigWithKey => "--generate-mesh-key cannot be used with --config",
        }
    }
}

impl Args {
    /// What the program is to do. A key is made by itself, at a path that is not
    /// empty.
    pub fn action(self) -> (out: Result<Action, ArgsError>)
        ensures
            match self.generate_mesh_key {
                None => out matches Ok(Action::Serve { config }) && config == self.config,
                Some(path) => if path@.len() == 0 {
                    out == Err::<Action, ArgsError>(ArgsError::EmptyKeyPath)
                } else if self.config is Some {
                    out == Err::<Action, ArgsError>(ArgsError::ConfigWithKey)
                } else {
                    out matches Ok(Action::GenerateMeshKey { path: p }) && p == path
                },
            },
    {
        match self.generate_mesh_key {
            None => Ok(Action::Serve { config: self.config }),
            Some(path) => if path.as_str().unicode_len() == 0 {
                Err(ArgsError::EmptyKeyPath)
            } else if self.config.is_some() {
                Err(ArgsError::ConfigWithKey)
            } else {
                Ok(Action::GenerateMeshKey { path })
            },
        }
    }
}

/// How many sockets `val` says that systemd passed.
pub open spec fn sockets_passed(val: Option<Seq<char>>) -> Option<nat> {
    match val {
        Some(s) => match read_decimal(s, u32::MAX as nat) {
            Ok(n) => if n >= 1 {
                Some(n)
            } else {
                None
            },
            Err(_) => None,
        },
        None => None,
    }
}

/// How many sockets systemd passed, where it did. `val` is `LISTEN_FDS`.
pub fn parse_listen_fds(val: Option<&str>) -> (out: Option<u32>)
    ensures
        match out {
            Some(n) => val matches Some(s) && sockets_passed(Some(s@)) == Some(n as nat),
            None => val matches Some(s) ==> sockets_passed(Some(s@)) is None,
        },
{
    match val {
        Some(s) => match parse_decimal(s, u32::MAX as u64) {
            Ok(n) => if n >= 1 {
                Some(n as u32)
            } else {
                None
            },
            Err(_) => None,
        },
        None => None,
    }
}

/// Whether the sockets that systemd passed are for this process: there are some,
/// and `LISTEN_PID` is this process and not one that left its environment behind.
pub fn inherits_socket(listen_fds: Option<&str>, listen_pid: Option<&str>, our_pid: u32) -> (yes:
    bool)
    ensures
        yes == ((listen_fds matches Some(fds) && sockets_passed(Some(fds@)) is Some) && (
        listen_pid matches Some(pid) && pid@ == decimal(our_pid as nat))),
{
    if parse_listen_fds(listen_fds).is_none() {
        return false;
    }
    match listen_pid {
        Some(pid) => same_text(pid, decimal_text(our_pid as u64).as_str()),
        None => false,
    }
}

/// The socket that systemd is told through.
pub enum NotifyAddress {
    /// One with a path.
    Path(String),
    /// One without, by its name, which begins with a zero byte.
    Abstract(Vec<u8>),
}

/// The socket that `NOTIFY_SOCKET` names: an `@` stands for the zero byte.
pub fn notify_address(path: &str) -> (out: NotifyAddress)
    ensures
        match out {
            NotifyAddress::Path(p) => !has_prefix(path@, "@"@) && p@ == path@,
            NotifyAddress::Abstract(name) => has_prefix(path@, "@"@) && name@ == seq![0u8]
                + encode_utf8(path@.skip(1)),
        },
{
    proof {
        reveal_strlit("@");
    }
    match strip_prefix(path, "@") {
        Some(name) => {
            let mut bytes: Vec<u8> = Vec::new();
            bytes.push(0);
            let rest: Vec<u8> = utf8_bytes(name.as_str());
            bytes.extend_from_slice(rest.as_slice());
            assert(bytes@ =~= seq![0u8] + rest@);
            NotifyAddress::Abstract(bytes)
        },
        None => NotifyAddress::Path(owned(path)),
    }
}

/// The address to listen at: a port alone is one of every interface.
pub fn normalize_listen(listen: &str) -> (out: String)
    ensures
        out@ == if has_prefix(listen@, ":"@) {
            "0.0.0.0"@ + listen@
        } else {
            listen@
        },
{
    if starts_with(listen, ":") {
        concat2("0.0.0.0", listen)
    } else {
        owned(listen)
    }
}

/// An address to listen at stays the same.
pub proof fn law_listen_normalizes_once(listen: Seq<char>)
    ensures
        has_prefix(listen, ":"@) ==> !has_prefix("0.0.0.0"@ + listen, ":"@),
{
    reveal_strlit(":");
    reveal_strlit("0.0.0.0");
    assert(("0.0.0.0"@ + listen).take(1)[0] == '0');
}

/// Sockets were passed where the variable is a number above zero, in decimal, and
/// then as many as it says; a zero and what is no number say that none were.
pub proof fn law_passed_sockets_are_counted(n: nat)
    ensures
        1 <= n <= u32::MAX ==> sockets_passed(Some(decimal(n))) == Some(n),
        sockets_passed(Some(decimal(0))) is None,
        sockets_passed(Some(seq![])) is None,
        sockets_passed(None) is None,
{
    law_decimal_reads_back(0, u32::MAX as nat);
    if n <= u32::MAX {
        law_decimal_reads_back(n, u32::MAX as nat);
    }
}

} // verus!
