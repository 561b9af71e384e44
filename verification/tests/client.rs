use canopy::client::Redacted;

#[test]
fn a_secret_never_shows_in_debug_output() {
    let secret = Redacted::from("hunter2".to_string());
    assert_eq!(secret.debug_text(), "<redacted>");
    assert!(!secret.debug_text().contains("hunter2"));
    assert_eq!(&*secret, "hunter2");
}
