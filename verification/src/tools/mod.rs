//! What the library decides for the features of an editor.
use crate::clients::crates::{parse_local_manifest, read_lines};
use crate::clients::Clients;
use crate::version::Version;
use vstd::prelude::*;

pub mod cargo;
pub mod gomod;
pub mod packages;
pub mod pyproject;

verus! {

/// A crate that a manifest points to by a path: its version, if it has a valid one, and the
/// names of its features.
#[derive(Debug, Clone)]
pub struct LocalCrate {
    pub version: Option<Version>,
    pub features: Vec<String>,
}

impl LocalCrate {
    /// Reads the version and the features of a crate from the lines of its manifest.
    pub fn parse_local_manifest(lines: &Vec<String>) -> (r: LocalCrate)
        ensures
            ({
                let m = read_lines(
                    Seq::new(lines@.len(), |i: int| lines@[i]@),
                    lines@.len() as int,
                );
                &&& match r.version {
                    Some(v) => m.version == Some(v@),
                    None => m.version is None,
                }
                &&& Seq::new(r.features@.len(), |i: int| r.features@[i]@) == m.features
            }),
    {
        let read = parse_local_manifest(lines);
        LocalCrate { version: read.version, features: read.features }
    }
}

/// What serves the features of an editor for `go.mod`.
pub struct GoMod<I, S, M, N> {
    pub clients: Clients<I, S, M, N>,
}

impl<I, S, M, N> GoMod<I, S, M, N> {
    /// What serves `go.mod` through `clients`.
    pub fn new(clients: Clients<I, S, M, N>) -> (r: Self)
        ensures
            r.clients == clients,
    {
        GoMod { clients }
    }
}

/// What serves the features of an editor for `pyproject.toml`.
pub struct PyProject<I, S, M, N> {
    pub clients: Clients<I, S, M, N>,
}

impl<I, S, M, N> PyProject<I, S, M, N> {
    /// What serves `pyproject.toml` through `clients`.
    pub fn new(clients: Clients<I, S, M, N>) -> (r: Self)
        ensures
            r.clients == clients,
    {
        PyProject { clients }
    }
}

/// How the server is to talk to the editor.
#[derive(Debug, Clone, Copy, PartialEq, Eq)]
pub enum TransportChoice {
    /// Over the socket at this port.
    Socket(u16),
    /// Over standard input and output.
    Stdio,
    /// As the server does where nothing is asked for.
    Unspecified,
}

/// The arguments of the command that serves.
#[derive(Debug, Clone)]
pub struct ServeCommand {
    pub socket: Option<u16>,
    pub stdio: bool,
    pub github_token: Option<String>,
}

impl ServeCommand {
    /// How the server is to talk to the editor: over the socket where a port is given, else
    /// over standard input and output where that is asked for.
    pub fn transport(&self) -> (r: TransportChoice)
        ensures
            r == match self.socket {
                Some(port) => TransportChoice::Socket(port),
                None => if self.stdio {
                    TransportChoice::Stdio
                } else {
                    TransportChoice::Unspecified
                },
            },
    {
        match self.socket {
            Some(port) => TransportChoice::Socket(port),
            None => if self.stdio {
                TransportChoice::Stdio
            } else {
                TransportChoice::Unspecified
            },
        }
    }
}

} // verus!
