//! The values that cross the HTTP boundary: structured errors, the answer of
//! the diagnostic endpoint, the client's address and the CORS headers.

use vstd::prelude::*;
use crate::error::{ErrorKind, lemma_categories_distinct};

verus! {

/// A failure as the client is told of it: a text for people and the
/// category of the failure.
#[derive(Debug)]
pub struct ApiError {
    pub message: String,
    pub error: String,
}

impl ApiError {
    /// Whether this error tells of a failure of kind `kind`, in the words
    /// fixed for that kind.
    pub open spec fn reports(&self, kind: ErrorKind) -> bool {
        &&& self.error@ == kind.category_spec()
        &&& self.message@ == kind.message_spec()
    }

    /// The HTTP status for an error of category `category`: that of the
    /// kind which the category names, and 500 for any other text.
    pub open spec fn status_of(category: Seq<char>) -> u16 {
        if category == ErrorKind::InvalidName.category_spec() {
            400
        } else if category == ErrorKind::NameConflict.category_spec() {
            409
        } else if category == ErrorKind::PayloadTooLarge.category_spec() {
            413
        } else if category == ErrorKind::NotFound.category_spec() {
            404
        } else {
            500
        }
    }

    /// The error that tells of a failure of kind `kind`.
    pub fn new(kind: ErrorKind) -> (e: ApiError)
        ensures
            e.reports(kind),
    {
        ApiError { message: kind.message().to_owned(), error: kind.category().to_owned() }
    }

    /// The kind of failure that this error tells of, where its category
    /// names one.
    pub fn kind(&self) -> (kind: Option<ErrorKind>)
        ensures
            match kind {
                Some(k) => self.error@ == k.category_spec(),
                None => forall|k: ErrorKind| self.error@ != #[trigger] k.category_spec(),
            },
    {
        ErrorKind::from_category(self.error.as_str())
    }

    /// The HTTP status under which this error is sent.
    pub fn status(&self) -> (code: u16)
        ensures
            code == Self::status_of(self.error@),
            forall|k: ErrorKind| self.error@ == #[trigger] k.category_spec() ==> code == k.status_spec(),
    {
        proof {
            assert forall|k: ErrorKind| self.error@ == #[trigger] k.category_spec() implies Self::status_of(
                self.error@,
            ) == k.status_spec() by {
                lemma_status_of_category(k);
            }
        }
        match self.kind() {
            Some(k) => {
                proof {
                    lemma_status_of_category(k);
                }
                k.status()
            },
            None => 500,
        }
    }
}

/// The status of a kind's category is the status of the kind.
pub proof fn lemma_status_of_category(kind: ErrorKind)
    ensures
        ApiError::status_of(kind.category_spec()) == kind.status_spec(),
{
    if kind != ErrorKind::InvalidName {
        lemma_categories_distinct(kind, ErrorKind::InvalidName);
    }
    if kind != ErrorKind::NameConflict {
        lemma_categories_distinct(kind, ErrorKind::NameConflict);
    }
    if kind != ErrorKind::PayloadTooLarge {
        lemma_categories_distinct(kind, ErrorKind::PayloadTooLarge);
    }
    if kind != ErrorKind::NotFound {
        lemma_categories_distinct(kind, ErrorKind::NotFound);
    }
}

/// The answer of the diagnostic endpoint.
#[derive(Debug)]
pub struct ApiVersion {
    pub version: String,
    pub app_name: String,
    pub current_time: String,
    pub current_host: String,
    pub client_ip: String,
}

/// The address from which a request came.
#[derive(Debug)]
pub struct RequestSocketAddr {
    pub socket_addr: String,
}

/// The address of a client: what a proxy forwarded, else where the
/// connection came from, else the broadcast address as a stand-in.
pub open spec fn client_address(forwarded: Option<Seq<char>>, remote: Option<Seq<char>>) -> Seq<char> {
    match forwarded {
        Some(address) => address,
        None => match remote {
            Some(address) => address,
            None => "255.255.255.255"@,
        },
    }
}

/// The view of an optional string slice.
pub open spec fn str_view(text: Option<&str>) -> Option<Seq<char>> {
    match text {
        Some(t) => Some(t@),
        None => None,
    }
}

impl RequestSocketAddr {
    /// The address of the client of a request, from the value of its
    /// `X-Forwarded-For` header and the address of its connection.
    pub fn from_request(forwarded: Option<&str>, remote: Option<&str>) -> (addr: RequestSocketAddr)
        ensures
            addr.socket_addr@ == client_address(str_view(forwarded), str_view(remote)),
    {
        if let Some(address) = forwarded {
            return RequestSocketAddr { socket_addr: address.to_owned() };
        }
        if let Some(address) = remote {
            return RequestSocketAddr { socket_addr: address.to_owned() };
        }
        RequestSocketAddr { socket_addr: "255.255.255.255".to_owned() }
    }
}

/// One response header.
#[derive(Clone, Copy, Debug)]
pub struct Header {
    pub name: &'static str,
    pub value: &'static str,
}

/// The headers that open the store to pages of any origin.
pub open spec fn cors_headers() -> Seq<(Seq<char>, Seq<char>)> {
    seq![
        ("Access-Control-Allow-Origin"@, "*"@),
        ("Access-Control-Allow-Methods"@, "POST, GET, PATCH, OPTIONS"@),
        ("Access-Control-Allow-Headers"@, "*"@),
        ("Access-Control-Allow-Credentials"@, "true"@),
    ]
}

/// At which point of the server's work a fairing is called.
#[derive(Clone, Copy, Debug, PartialEq, Eq, Structural)]
pub enum FairingKind {
    /// While the server is being set up.
    Ignite,
    /// Once the server has started.
    Liftoff,
    /// For every request, before it is routed.
    Request,
    /// For every response, before it is sent.
    Response,
    /// When the server shuts down.
    Shutdown,
}

/// What a fairing says of itself: its name, and when it is to be called.
#[derive(Clone, Copy, Debug)]
pub struct FairingInfo {
    pub name: &'static str,
    pub kind: FairingKind,
}

/// Adds the CORS headers to every response.
#[derive(Clone, Copy, Debug)]
pub struct CORS;

impl CORS {
    /// What this fairing says of itself: it acts on responses, and on
    /// nothing else.
    pub fn info(&self) -> (info: FairingInfo)
        ensures
            info.name@ == "Add CORS headers to responses"@,
            info.kind == FairingKind::Response,
    {
        FairingInfo { name: "Add CORS headers to responses", kind: FairingKind::Response }
    }

    /// The headers to set on a response, in this order.
    pub fn on_response(&self) -> (headers: Vec<Header>)
        ensures
            headers@.map_values(|h: Header| (h.name@, h.value@)) == cors_headers(),
    {
        let mut headers: Vec<Header> = Vec::new();
        headers.push(Header { name: "Access-Control-Allow-Origin", value: "*" });
        headers.push(
            Header { name: "Access-Control-Allow-Methods", value: "POST, GET, PATCH, OPTIONS" },
        );
        headers.push(Header { name: "Access-Control-Allow-Headers", value: "*" });
        headers.push(Header { name: "Access-Control-Allow-Credentials", value: "true" });
        proof {
            assert(headers@.map_values(|h: Header| (h.name@, h.value@)) =~= cors_headers());
        }
        headers
    }
}

} // verus!
