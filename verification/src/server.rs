//! The `serve` and `mcp` commands: their options and the address they listen on.

use vstd::prelude::*;
use crate::text::{decimal, owned, push_str, push_usize, str_eq, views};

verus! {

/// `serve`: an HTTP API for queries.
#[derive(Debug)]
pub struct ServeCommand {
    /// Host address to bind (`127.0.0.1` by default).
    pub host: String,
    /// TCP port to bind (8080 by default).
    pub port: u16,
    /// Local index root directory; queries `{index_dir}/{lang}`.
    pub index_dir: Option<String>,
}

/// `mcp`: the glossary tools over stdio or streamable HTTP.
#[derive(Debug)]
pub struct McpCommand {
    /// Use streamable HTTP instead of stdio.
    pub http: bool,
    /// HTTP bind address (`127.0.0.1` by default).
    pub host: String,
    /// HTTP port (8081 by default).
    pub port: u16,
    /// Local index root directory; queries `{index_dir}/{lang}`.
    pub index_dir: Option<String>,
}

/// `{host}:{port}`.
pub open spec fn bind_address_view(host: Seq<char>, port: u16) -> Seq<char> {
    host + ":"@ + decimal(port as nat)
}

/// The address a server binds: `{host}:{port}`.
pub fn bind_address(host: &str, port: u16) -> (r: String)
    ensures
        r@ == bind_address_view(host@, port),
{
    let mut r = owned(host);
    push_str(&mut r, ":");
    push_usize(&mut r, port as usize);
    r
}

/// How the MCP HTTP server treats the host it binds.
#[derive(Debug, Clone, Copy, PartialEq, Eq, Structural)]
pub enum HostKind {
    /// `127.0.0.1`, `localhost` or `::1`.
    Loopback,
    /// `0.0.0.0` or `::`.
    Wildcard,
    /// Any other host.
    Other,
}

/// The kind of `host`.
pub open spec fn host_kind_of(host: Seq<char>) -> HostKind {
    if host == "127.0.0.1"@ || host == "localhost"@ || host == "::1"@ {
        HostKind::Loopback
    } else if host == "0.0.0.0"@ || host == "::"@ {
        HostKind::Wildcard
    } else {
        HostKind::Other
    }
}

/// Classifies the host the MCP HTTP server binds.
pub fn host_kind(host: &str) -> (r: HostKind)
    ensures
        r == host_kind_of(host@),
{
    if str_eq(host, "127.0.0.1") || str_eq(host, "localhost") || str_eq(host, "::1") {
        HostKind::Loopback
    } else if str_eq(host, "0.0.0.0") || str_eq(host, "::") {
        HostKind::Wildcard
    } else {
        HostKind::Other
    }
}

/// The warning printed before binding the MCP HTTP server to `host`, if any.
pub fn mcp_bind_warning(host: &str) -> (r: Option<String>)
    ensures
        match host_kind_of(host@) {
            HostKind::Loopback => r is None,
            HostKind::Wildcard => r matches Some(w) && w@ == "warning: binding to "@ + host@
                + "; clients must send a loopback Host header (127.0.0.1, localhost, or ::1)"@,
            HostKind::Other => r matches Some(w) && w@ == "warning: MCP HTTP is intended for loopback use; binding to "@
                + host@ + " may reject clients unless the Host header matches allowed_hosts"@,
        },
{
    match host_kind(host) {
        HostKind::Loopback => None,
        HostKind::Wildcard => {
            let mut w = owned("warning: binding to ");
            push_str(&mut w, host);
            push_str(&mut w, "; clients must send a loopback Host header (127.0.0.1, localhost, or ::1)");
            Some(w)
        },
        HostKind::Other => {
            let mut w = owned("warning: MCP HTTP is intended for loopback use; binding to ");
            push_str(&mut w, host);
            push_str(&mut w, " may reject clients unless the Host header matches allowed_hosts");
            Some(w)
        },
    }
}

/// The hosts the MCP HTTP server accepts in the Host header when bound to `host`: the default
/// (`None`) for loopback and wildcard binds, else the loopback names, the host, and
/// `{host}:{port}`.
pub fn mcp_allowed_hosts(host: &str, port: u16) -> (r: Option<Vec<String>>)
    ensures
        host_kind_of(host@) != HostKind::Other ==> r is None,
        host_kind_of(host@) == HostKind::Other ==> (r matches Some(v) && views(v@) == seq![
            "localhost"@,
            "127.0.0.1"@,
            "::1"@,
            host@,
            bind_address_view(host@, port),
        ]),
{
    match host_kind(host) {
        HostKind::Other => {
            let mut v: Vec<String> = Vec::new();
            v.push(owned("localhost"));
            v.push(owned("127.0.0.1"));
            v.push(owned("::1"));
            v.push(owned(host));
            v.push(bind_address(host, port));
            assert(views(v@) =~= seq!["localhost"@, "127.0.0.1"@, "::1"@, host@, bind_address_view(host@, port)]);
            Some(v)
        },
        _ => None,
    }
}


/// Which hosts are which: `127.0.0.1`, `localhost` and `::1` are loopback, `0.0.0.0` and `::`
/// are wildcard binds, every other host is neither. The bind address is the host, a colon and
/// the port in decimal.
pub proof fn lemma_host_rules(host: Seq<char>, port: u16)
    ensures
        host == "127.0.0.1"@ || host == "localhost"@ || host == "::1"@ ==> host_kind_of(host) == HostKind::Loopback,
        host == "0.0.0.0"@ || host == "::"@ ==> host_kind_of(host) == HostKind::Wildcard,
        host != "127.0.0.1"@ && host != "localhost"@ && host != "::1"@ && host != "0.0.0.0"@ && host != "::"@
            ==> host_kind_of(host) == HostKind::Other,
        bind_address_view(host, port) == host + seq![':'] + decimal(port as nat),
{
    reveal_strlit("127.0.0.1");
    reveal_strlit("localhost");
    reveal_strlit("::1");
    reveal_strlit("0.0.0.0");
    reveal_strlit("::");
    reveal_strlit(":");
    assert(":"@ =~= seq![':']);
    assert("0.0.0.0"@ != "127.0.0.1"@ && "0.0.0.0"@ != "localhost"@ && "0.0.0.0"@ != "::1"@) by {
        assert("0.0.0.0"@[0] != "127.0.0.1"@[0]);
        assert("0.0.0.0"@[0] != "localhost"@[0]);
        assert("0.0.0.0"@[0] != "::1"@[0]);
    }
    assert("::"@ != "127.0.0.1"@ && "::"@ != "localhost"@ && "::"@ != "::1"@) by {
        assert("::"@[0] != "127.0.0.1"@[0]);
        assert("::"@[0] != "localhost"@[0]);
        assert("::"@.len() != "::1"@.len());
    }
}

} // verus!
