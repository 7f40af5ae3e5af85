use zipchord::text_injector::TextInjector;

#[test]
fn default_socket() {
    let t = TextInjector::new();
    assert_eq!(t.socket_path(), "/tmp/.ydotool_socket");
}

#[test]
fn backspace_arguments() {
    let t = TextInjector::new();
    assert_eq!(t.backspace_args(0), None);
    assert_eq!(
        t.backspace_args(2),
        Some(vec![
            "key".to_string(),
            "14:1".to_string(),
            "14:0".to_string(),
            "14:1".to_string(),
            "14:0".to_string()
        ])
    );
}

#[test]
fn type_arguments() {
    let t = TextInjector::new();
    assert_eq!(t.type_args("hi there"), vec!["type", "--", "hi there"]);
}
