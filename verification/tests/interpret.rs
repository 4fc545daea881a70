use mathcli::interpret::InputHandler;

fn handler(silent: bool) -> InputHandler {
    InputHandler::new(2, silent, "1.5".to_string())
}

#[test]
fn test_trim_lines() {
    let handler = handler(false);
    let lines: Vec<String> = "\t\t1\n2\t\t\n   3   \n".lines().map(|s| s.to_string()).collect();
    for (k, v) in handler.clean_and_enumerate(&lines) {
        match k {
            0 => assert_eq!("1", v),
            1 => assert_eq!("2", v),
            2 => assert_eq!("3", v),
            _ => panic!(),
        }
    }
}

#[test]
fn test_successful_handle() {
    let handler = handler(false);
    assert_eq!(Ok(Some("3.0".to_string())), handler.handle(2, "3.0"));
}

#[test]
fn test_ignore_returns_identity() {
    let handler = handler(false);
    assert_eq!(Ok(Some("1.5".to_string())), handler.handle(0, "2.0"));
    assert_eq!(Ok(Some("1.5".to_string())), handler.handle(1, "2.0"));
    assert_eq!(Ok(Some("3.0".to_string())), handler.handle(2, "3.0"));
}

#[test]
fn test_exit_on_empty_line() {
    let handler = handler(false);
    assert_eq!(Ok(None), handler.handle(2, ""));
}

#[test]
fn test_exit_on_parse_error() {
    let handler = handler(false);
    let input_string = "notf32";
    let msg = format!("Failed to parse {} at line {}", &input_string, 3);
    assert_eq!(Err(msg), handler.handle(2, input_string));
}

#[test]
fn test_ignore_parse_error() {
    let handler = handler(true);
    let input_string = "notf32";
    assert_eq!(Ok(Some("1.5".to_string())), handler.handle(2, input_string));
}

#[test]
fn test_ignored_prefix_accepts_garbage_and_empty() {
    let handler = handler(false);
    assert_eq!(Ok(Some("1.5".to_string())), handler.handle(0, "notf32"));
    assert_eq!(Ok(Some("1.5".to_string())), handler.handle(1, ""));
}

#[test]
fn test_parse_input_stops_at_empty_line() {
    let handler = handler(false);
    let raw: Vec<String> = vec!["1".into(), "2".into(), "3".into(), "".into(), "4".into()];
    let cleaned = handler.clean_and_enumerate(&raw);
    let (values, failure) = handler.parse_input(&cleaned);
    // the first two lines are ignored and contribute the identity
    assert_eq!(vec!["1.5".to_string(), "1.5".to_string(), "3".to_string()], values);
    assert_eq!(None, failure);
}

#[test]
fn test_parse_input_reports_failure() {
    let handler = handler(false);
    let raw: Vec<String> = vec!["9".into(), "8".into(), "7".into(), "oops".into(), "6".into()];
    let cleaned = handler.clean_and_enumerate(&raw);
    let (values, failure) = handler.parse_input(&cleaned);
    assert_eq!(vec!["1.5".to_string(), "1.5".to_string(), "7".to_string()], values);
    assert_eq!(Some("Failed to parse oops at line 4".to_string()), failure);
}
