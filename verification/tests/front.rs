use artifact_store::assets::{index, main_css, main_js, ContentKind};
use artifact_store::echo::{echo, echo_from};
use artifact_store::error::{str_eq, ErrorKind};
use artifact_store::helpers::rocket::{ApiError, FairingKind, RequestSocketAddr, CORS};
use artifact_store::Args;

const KINDS: [ErrorKind; 5] = [
    ErrorKind::InvalidName,
    ErrorKind::NameConflict,
    ErrorKind::PayloadTooLarge,
    ErrorKind::NotFound,
    ErrorKind::StorageIo,
];

#[test]
fn default_settings() {
    let args = Args::default();
    assert_eq!(args.address, "0.0.0.0");
    assert_eq!(args.port, 8000);
    assert_eq!(args.max_file_size, 1_073_741_824);
    assert_eq!(args.max_file_size, 1u64 << 30);
    assert_eq!(args.folder, "uploads");
    assert!(args.overwrite);
}

#[test]
fn each_kind_has_its_status() {
    assert_eq!(ErrorKind::InvalidName.status(), 400);
    assert_eq!(ErrorKind::NameConflict.status(), 409);
    assert_eq!(ErrorKind::PayloadTooLarge.status(), 413);
    assert_eq!(ErrorKind::NotFound.status(), 404);
    assert_eq!(ErrorKind::StorageIo.status(), 500);
}

#[test]
fn each_kind_has_its_category() {
    assert_eq!(ErrorKind::InvalidName.category(), "InvalidNameError");
    assert_eq!(ErrorKind::NameConflict.category(), "NameConflictError");
    assert_eq!(ErrorKind::PayloadTooLarge.category(), "PayloadTooLargeError");
    assert_eq!(ErrorKind::NotFound.category(), "NotFoundError");
    assert_eq!(ErrorKind::StorageIo.category(), "StorageIOError");
}

#[test]
fn a_category_names_its_kind_again() {
    for kind in KINDS {
        assert_eq!(ErrorKind::from_category(kind.category()), Some(kind));
        for other in KINDS {
            assert_eq!(kind.category() == other.category(), kind == other);
        }
    }
    assert_eq!(ErrorKind::from_category(""), None);
    assert_eq!(ErrorKind::from_category("invalidnameerror"), None);
    assert_eq!(ErrorKind::from_category("Error uploading file"), None);
}

#[test]
fn an_error_carries_message_category_and_status() {
    for kind in KINDS {
        let e = ApiError::new(kind);
        assert_eq!(e.error, kind.category());
        assert_eq!(e.message, kind.message());
        assert!(!e.message.is_empty());
        assert_eq!(e.kind(), Some(kind));
        assert_eq!(e.status(), kind.status());
    }
}

#[test]
fn an_error_of_unknown_category_is_a_server_error() {
    let e = ApiError { message: "boom".to_string(), error: "Error reading folder".to_string() };
    assert_eq!(e.kind(), None);
    assert_eq!(e.status(), 500);
}

#[test]
fn strings_are_compared_by_their_characters() {
    assert!(str_eq("", ""));
    assert!(str_eq("abc", "abc"));
    assert!(!str_eq("abc", "abd"));
    assert!(!str_eq("abc", "ab"));
    assert!(!str_eq("ab", "abc"));
    assert!(str_eq("\u{e9}", "\u{e9}"));
    assert!(!str_eq("\u{e9}", "e\u{301}"));
}

#[test]
fn a_forwarded_address_wins() {
    let addr = RequestSocketAddr::from_request(Some("203.0.113.7"), Some("10.0.0.1:4711"));
    assert_eq!(addr.socket_addr, "203.0.113.7");
    let addr = RequestSocketAddr::from_request(Some(""), Some("10.0.0.1:4711"));
    assert_eq!(addr.socket_addr, "");
}

#[test]
fn the_connection_address_is_next() {
    let addr = RequestSocketAddr::from_request(None, Some("10.0.0.1:4711"));
    assert_eq!(addr.socket_addr, "10.0.0.1:4711");
}

#[test]
fn an_unknown_client_gets_the_stand_in_address() {
    let addr = RequestSocketAddr::from_request(None, None);
    assert_eq!(addr.socket_addr, "255.255.255.255");
}

#[test]
fn cors_headers_are_four_in_order() {
    let headers = CORS.on_response();
    let pairs: Vec<(&str, &str)> = headers.iter().map(|h| (h.name, h.value)).collect();
    assert_eq!(
        pairs,
        vec![
            ("Access-Control-Allow-Origin", "*"),
            ("Access-Control-Allow-Methods", "POST, GET, PATCH, OPTIONS"),
            ("Access-Control-Allow-Headers", "*"),
            ("Access-Control-Allow-Credentials", "true"),
        ]
    );
}

#[test]
fn the_cors_fairing_acts_on_responses_only() {
    let info = CORS.info();
    assert_eq!(info.name, "Add CORS headers to responses");
    assert_eq!(info.kind, FairingKind::Response);
    assert_ne!(info.kind, FairingKind::Request);
}

#[test]
fn echo_names_program_time_host_and_client() {
    let client = RequestSocketAddr { socket_addr: "198.51.100.9".to_string() };
    let answer = echo_from(
        "1.2.3",
        "store",
        "2024-01-01 00:00:00 +00:00".to_string(),
        Some("box".to_string()),
        client,
    );
    assert_eq!(answer.version, "1.2.3");
    assert_eq!(answer.app_name, "store");
    assert_eq!(answer.current_time, "2024-01-01 00:00:00 +00:00");
    assert_eq!(answer.current_host, "box");
    assert_eq!(answer.client_ip, "198.51.100.9");
}

#[test]
fn echo_without_a_host_name_says_unknown() {
    let client = RequestSocketAddr::from_request(None, None);
    let answer = echo_from("0.1.0", "store", "now".to_string(), None, client);
    assert_eq!(answer.current_host, "unknown");
    assert_eq!(answer.client_ip, "255.255.255.255");
}

#[test]
fn echo_reads_clock_and_host_name_itself() {
    let client = RequestSocketAddr { socket_addr: "198.51.100.9".to_string() };
    let answer = echo("1.2.3", "store", client);
    assert_eq!(answer.version, "1.2.3");
    assert_eq!(answer.app_name, "store");
    assert_eq!(answer.client_ip, "198.51.100.9");
    assert!(!answer.current_time.is_empty());
    assert!(answer.current_time.starts_with("20"));
    let again = echo("1.2.3", "store", RequestSocketAddr::from_request(None, None));
    assert_eq!(answer.current_host, again.current_host);
    assert!(again.current_time >= answer.current_time);
}

#[test]
fn assets_are_served_as_their_kind() {
    let page = index("<html></html>");
    assert_eq!(page.kind, ContentKind::Html);
    assert_eq!(page.body, "<html></html>");
    let script = main_js("console.log(1)");
    assert_eq!(script.kind, ContentKind::JavaScript);
    assert_eq!(script.body, "console.log(1)");
    let sheet = main_css("body{}");
    assert_eq!(sheet.kind, ContentKind::Css);
    assert_eq!(sheet.body, "body{}");
}
