use daw_nexus::server::NUM_CHANNELS;

#[test]
fn server_keeps_certificate_and_key() {
    let server = daw_nexus::Server::new("cert".to_string(), "key".to_string());
    assert_eq!(server.cert_pem, "cert");
    assert_eq!(server.privkey_pem, "key");
}

#[test]
fn plain_server_has_sixteen_channels() {
    let _server = daw_nexus::server::Server::new();
    assert_eq!(NUM_CHANNELS, 16);
}
