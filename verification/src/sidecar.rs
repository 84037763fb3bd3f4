//! How the subscription proxy is run: the bundled sidecar program, or a Node
//! script, and the command line each is started with.
use vstd::prelude::*;

use crate::text::{decimal, owned, push_decimal};

verus! {

broadcast use vstd::string::group_string_axioms;

/// Reads `std::path::MAIN_SEPARATOR`, the build platform's path separator
/// (a backslash exactly on Windows). Nothing is stated of its value.
#[verifier::external_body]
fn main_separator() -> (c: char) {
    std::path::MAIN_SEPARATOR
}

/// The sidecar's file name on a platform with path separator `separator`: with
/// `.exe` on Windows (separator backslash).
pub open spec fn sidecar_name(separator: char) -> Seq<char> {
    if separator == '\\' {
        "proxy-server.exe"@
    } else {
        "proxy-server"@
    }
}

/// The sidecar's file name for the path separator `separator`.
pub fn sidecar_filename_for(separator: char) -> (s: String)
    ensures
        s@ == sidecar_name(separator),
{
    if separator == '\\' {
        owned("proxy-server.exe")
    } else {
        owned("proxy-server")
    }
}

/// The sidecar's file name on this platform.
pub fn sidecar_filename() -> (s: String)
    ensures
        s@ == "proxy-server.exe"@ || s@ == "proxy-server"@,
{
    sidecar_filename_for(main_separator())
}

/// How the proxy is run.
#[derive(Debug)]
pub enum ProxyRunner {
    /// The bundled sidecar program, by path.
    Sidecar(String),
    /// A Node interpreter running a script.
    NodeScript { node: String, script: String },
}

impl ProxyRunner {
    /// A short name of the way the proxy runs, for the status display.
    pub fn label(&self) -> (s: &'static str)
        ensures
            s@ == match self {
                ProxyRunner::Sidecar(_) => "sidecar"@,
                ProxyRunner::NodeScript { .. } => "node"@,
            },
    {
        match self {
            ProxyRunner::Sidecar(_) => "sidecar",
            ProxyRunner::NodeScript { .. } => "node",
        }
    }
}

/// The runner to use: the sidecar when one was found, else `node` running
/// `script_path`.
pub fn choose_runner(sidecar: Option<String>, node: String, script_path: &str) -> (r: ProxyRunner)
    ensures
        match sidecar {
            Some(p) => r matches ProxyRunner::Sidecar(q) && q@ == p@,
            None => r matches ProxyRunner::NodeScript { node: n, script: s } && n@ == node@ && s@
                == script_path@,
        },
{
    match sidecar {
        Some(p) => ProxyRunner::Sidecar(p),
        None => ProxyRunner::NodeScript { node, script: owned(script_path) },
    }
}

/// The program and arguments that start the proxy on `port` for subscription
/// `url`: the sidecar takes the port and the url, Node takes the script first.
pub fn proxy_command(runner: &ProxyRunner, port: u16, url: &str) -> (r: (String, Vec<String>))
    ensures
        match runner {
            ProxyRunner::Sidecar(bin) => r.0@ == bin@ && r.1@.len() == 2 && r.1@[0]@ == decimal(
                port as nat,
            ) && r.1@[1]@ == url@,
            ProxyRunner::NodeScript { node, script } => r.0@ == node@ && r.1@.len() == 3
                && r.1@[0]@ == script@ && r.1@[1]@ == decimal(port as nat) && r.1@[2]@ == url@,
        },
{
    let mut port_text = String::new();
    push_decimal(&mut port_text, port as u64);
    assert(port_text@ =~= decimal(port as nat));
    match runner {
        ProxyRunner::Sidecar(bin) => {
            let mut args: Vec<String> = Vec::new();
            args.push(port_text);
            args.push(owned(url));
            (bin.clone(), args)
        },
        ProxyRunner::NodeScript { node, script } => {
            let mut args: Vec<String> = Vec::new();
            args.push(script.clone());
            args.push(port_text);
            args.push(owned(url));
            (node.clone(), args)
        },
    }
}

} // verus!
