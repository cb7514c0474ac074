use quartz::chat::cfmt::{from_cfmt, try_from_cfmt};
use quartz::chat::component::{ClickEvent, Color, Component, EventArgument, HoverEvent};
use quartz::config::Config;

fn read(text: &str) -> Component {
    from_cfmt(text).expect("expected a component")
}

fn error(text: &str) -> String {
    match try_from_cfmt(text) {
        Some(Err(e)) => e,
        _ => panic!("expected an error message"),
    }
}

#[test]
fn plain_text_is_one_component() {
    let c = read("Hello, world!");
    assert_eq!(c.text, "Hello, world!");
    assert!(c.color.is_none());
    assert!(c.extra.is_none());
    assert!(c.bold.is_none());
    let empty = read("");
    assert!(empty.is_empty());
}

#[test]
fn closing_parenthesis_outside_events_is_dropped() {
    assert_eq!(read("a)b").text, "ab");
}

#[test]
fn escapes_make_text() {
    assert_eq!(read("\\&a\\{").text, "&a{");
}

#[test]
fn color_applies_to_following_text() {
    let c = read("&(red)hi");
    assert_eq!(c.text, "hi");
    assert_eq!(c.color, Some(Color::Red));
}

#[test]
fn color_and_formats() {
    let c = read("&(gold,bold,!italic)x");
    assert_eq!(c.text, "x");
    assert_eq!(c.color, Some(Color::Gold));
    assert_eq!(c.bold, Some(true));
    assert_eq!(c.italic, Some(false));
}

#[test]
fn text_before_color_becomes_parent() {
    let c = read("a&(blue)b");
    assert_eq!(c.text, "a");
    let children = c.extra.expect("expected children");
    assert_eq!(children.len(), 1);
    assert_eq!(children[0].text, "b");
    assert_eq!(children[0].color, Some(Color::Blue));
}

#[test]
fn braces_make_children() {
    let c = read("a{b}c");
    assert_eq!(c.text, "a");
    let children = c.extra.expect("expected children");
    let texts: Vec<&str> = children.iter().map(|x| x.text.as_str()).collect();
    assert_eq!(texts, vec!["b", "c"]);
}

#[test]
fn click_event_sequence() {
    let c = read("$(click:open_url,http://x)hi");
    assert_eq!(c.text, "hi");
    let event = c.click_event.expect("expected a click event");
    assert_eq!(event.action, "open_url");
    match &event.value {
        EventArgument::Text(t) => assert_eq!(t, "http://x"),
        _ => panic!("expected text"),
    }
}

#[test]
fn change_page_event() {
    let c = read("$(click:change_page,12)p");
    let event = c.click_event.expect("expected a click event");
    assert_eq!(event.action, "page_change");
    assert!(matches!(event.value, EventArgument::Index(12)));
}

#[test]
fn hover_text_event() {
    let c = read("$(hover:show_text,&(red)tip)x");
    let event = c.hover_event.expect("expected a hover event");
    assert_eq!(event.action, "show_text");
    match &event.value {
        EventArgument::Component(tip) => {
            assert_eq!(tip.text, "tip");
            assert_eq!(tip.color, Some(Color::Red));
        },
        _ => panic!("expected a component"),
    }
    assert_eq!(c.text, "x");
}

#[test]
fn format_errors() {
    assert_eq!(error("&x"), "Expected open parenthesis after '&': \"&x...\"");
    assert_eq!(error("}"), "Unpaired curly bracket: \"}...\"");
    assert_eq!(error("{a"), "Unpaired curly bracket: \"{a...\"");
    assert_eq!(error("\\"), "Expected another character after the escape character at the end of the input string.");
    assert_eq!(error("&(red"), "Incomplete color sequence at the end of the input string.");
    assert_eq!(error("$(click:open_url,x"), "Incomplete event sequence at the end of the input string.");
    assert_eq!(error("$(bad:x)"), "Invalid event type, expected \"hover\" or \"click\" but found \"bad\"");
    assert_eq!(error("&(nope)"), "Invalid color or formatting code: \"nope\"");
    assert!(from_cfmt("&(red,)").is_err());
}

#[test]
fn component_builders() {
    let mut c = Component::new("root".to_string(), Some(Color::Green));
    assert!(!c.is_empty());
    let child = Component::copy_formatting("kid".to_string(), &c);
    assert_eq!(child.color, Some(Color::Green));
    c.add_child(child);
    assert_eq!(c.extra.as_ref().unwrap().len(), 1);
    c.set_click_event(ClickEvent::run_command("/help".to_string()));
    assert_eq!(c.click_event.as_ref().unwrap().action, "run_command");
    let s = ClickEvent::suggest_command("/tp".to_string());
    assert_eq!(s.action, "suggest_command");
    let u = ClickEvent::open_url("https://example.org".to_string());
    assert_eq!(u.action, "open_url");
    let p = ClickEvent::page_change(3);
    assert!(matches!(p.value, EventArgument::Index(3)));
    let h = HoverEvent::show_text("hint".to_string());
    assert_eq!(h.action, "show_text");
    let hc = HoverEvent::show_text_component(Component::new("t".to_string(), None));
    assert!(matches!(hc.value, EventArgument::Component(_)));
    assert!(Component::new(String::new(), None).is_empty());
}

#[test]
fn config_reads_motd() {
    let cfg = Config::new("127.0.0.1".to_string(), 20, 25565, "&(gold)Hi".to_string()).unwrap();
    assert_eq!(cfg.server_ip, "127.0.0.1");
    assert_eq!(cfg.max_players, 20);
    assert_eq!(cfg.port, 25565);
    assert_eq!(cfg.motd, "&(gold)Hi");
    assert_eq!(cfg.motd_component.text, "Hi");
    assert_eq!(cfg.motd_component.color, Some(Color::Gold));
    assert_eq!(
        Config::new("0.0.0.0".to_string(), 1, 2, "&x".to_string()).err().unwrap(),
        "Expected open parenthesis after '&': \"&x...\""
    );
}
