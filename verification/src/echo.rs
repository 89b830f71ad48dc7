//! The diagnostic endpoint: who is answering, and to whom.

use vstd::prelude::*;
use crate::helpers::rocket::{ApiVersion, RequestSocketAddr};

verus! {

/// The host name of this machine, by `hostname::get`; `None` where the
/// system does not give it. Trusted, and nothing is claimed of the name:
/// it is whatever the system says at the moment of the call.
#[verifier::external_body]
fn host_name() -> (name: Option<String>) {
    match hostname::get() {
        Ok(name) => Some(name.to_string_lossy().to_string()),
        Err(_) => None,
    }
}

/// The time now in the time zone of this machine, as chrono writes it:
/// `chrono::Local::now`, then its `to_string`. Trusted, and nothing is
/// claimed of the text: it is whatever the clock says at the moment of the
/// call. Chrono takes the clock to stand at 1970 or later.
#[verifier::external_body]
fn local_time() -> (text: String) {
    chrono::Local::now().to_string()
}

/// The host as the answer names it: `unknown` where the name could not be
/// had.
pub open spec fn host_text(host: Option<Seq<char>>) -> Seq<char> {
    match host {
        Some(name) => name,
        None => "unknown"@,
    }
}

/// The answer of the diagnostic endpoint for a time and a host name that
/// were read before: the program and its version, the time as given, the
/// host, and the address of the client.
pub fn echo_from(
    version: &str,
    app_name: &str,
    current_time: String,
    host: Option<String>,
    socket_addr: RequestSocketAddr,
) -> (answer: ApiVersion)
    ensures
        answer.version@ == version@,
        answer.app_name@ == app_name@,
        answer.current_time@ == current_time@,
        answer.current_host@ == host_text(
            match host {
                Some(name) => Some(name@),
                None => None,
            },
        ),
        answer.client_ip@ == socket_addr.socket_addr@,
{
    let current_host = match host {
        Some(name) => name,
        None => "unknown".to_owned(),
    };
    ApiVersion {
        version: version.to_owned(),
        app_name: app_name.to_owned(),
        current_time,
        current_host,
        client_ip: socket_addr.socket_addr,
    }
}

/// The answer of the diagnostic endpoint: the program and its version, the
/// time and the name of this host as the system tells them now, and the
/// address of the client.
pub fn echo(version: &str, app_name: &str, socket_addr: RequestSocketAddr) -> (answer: ApiVersion)
    ensures
        answer.version@ == version@,
        answer.app_name@ == app_name@,
        answer.client_ip@ == socket_addr.socket_addr@,
{
    echo_from(version, app_name, local_time(), host_name(), socket_addr)
}

} // verus!
