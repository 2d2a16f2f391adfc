use tunnel_proxy::client::Client;
use tunnel_proxy::utils::{error, ErrorKind};

#[test]
fn client_keeps_address() {
    let client = Client::new("127.0.0.1:5555");
    assert_eq!(client.address(), "127.0.0.1:5555");
}

#[test]
fn error_has_message() {
    let e = error("could not send");
    assert_eq!(e.kind, ErrorKind::Other);
    assert_eq!(e.message, "could not send");
}
