use quartz::command::arg::ArgumentTraverser;

#[test]
fn arguments_split_on_spaces() {
    let mut args = ArgumentTraverser::new("tp player 10 20");
    assert!(args.has_next());
    assert_eq!(args.next(), Some("tp"));
    assert_eq!(args.next(), Some("player"));
    assert_eq!(args.remaining_string(35), "player 10 20");
    assert_eq!(args.next(), Some("10"));
    assert_eq!(args.next(), Some("20"));
    assert!(!args.has_next());
    assert_eq!(args.next(), None);
}

#[test]
fn quotes_keep_spaces() {
    let mut args = ArgumentTraverser::new("say \"hello world\" 'a b' x");
    assert_eq!(args.next(), Some("say"));
    assert_eq!(args.next(), Some("\"hello world\""));
    assert_eq!(args.next(), Some("'a b'"));
    assert_eq!(args.next(), Some("x"));
    assert_eq!(args.next(), None);
}

#[test]
fn escaped_quotes_stay_inside() {
    let mut args = ArgumentTraverser::new("\"a\\\" b\" c");
    assert_eq!(args.next(), Some("\"a\\\" b\""));
    assert_eq!(args.next(), Some("c"));
}

#[test]
fn remaining_is_truncated() {
    let mut args = ArgumentTraverser::new("abcdef ghi");
    args.next();
    assert_eq!(args.remaining_string(3), "abc");
    assert_eq!(args.remaining_string(100), "abcdef ghi");
}

#[test]
fn double_space_gives_empty_argument() {
    let mut args = ArgumentTraverser::new("a  b");
    assert_eq!(args.next(), Some("a"));
    assert_eq!(args.next(), Some(""));
    assert_eq!(args.next(), Some("b"));
}
