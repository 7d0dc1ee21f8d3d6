use basalytics::user_agent::UserAgent;
use user_agent_parser::UserAgentParser;

const REGEXES: &str = r#"
user_agent_parsers:
  - regex: '(Firefox)/(\d+)\.(\d+)'
  - regex: '(Namoroka|Shiretoko|Minefield)/(\d+)\.(\d+)'
    family_replacement: 'Firefox ($1)'
  - regex: '(Chrome)/(\d+)'

os_parsers:
  - regex: 'Win(?:dows)? ?(95|98|3.1|NT|ME|2000|XP|Vista|7|CE)'
    os_replacement: 'Windows'
    os_v1_replacement: '$1'
  - regex: '(Linux)'

device_parsers:
  - regex: '(iPhone)'
"#;

fn parser() -> UserAgentParser {
    UserAgentParser::from_str(REGEXES).unwrap()
}

fn names(user_agent: &UserAgent) -> Vec<(String, String)> {
    user_agent
        .properties()
        .items()
        .iter()
        .map(|property| match &property.value {
            basalytics::value::EventValue::String(value) => (property.name.clone(), value.clone()),
            _ => (property.name.clone(), "not a text".to_string()),
        })
        .collect()
}

#[test]
fn platform_and_browser_are_read_from_the_user_agent() {
    let parser = parser();
    let agent = UserAgent::new(&parser, "Mozilla/5.0 (X11; Linux x86_64; rv:10.0) Gecko/20100101 Firefox/10.0");
    assert_eq!(agent.platform.as_deref(), Some("Linux"));
    assert_eq!(agent.browser.as_deref(), Some("Firefox"));
    let agent = UserAgent::new(&parser, "Mozilla/5.0 (Windows NT 10.0) Chrome/114.0");
    assert_eq!(agent.platform.as_deref(), Some("Windows"));
    assert_eq!(agent.browser.as_deref(), Some("Chrome"));
    let agent = UserAgent::new(&parser, "Mozilla/5.0 (X11; Linux) Minefield/3.0");
    assert_eq!(agent.browser.as_deref(), Some("Firefox (Minefield)"));
}

#[test]
fn unknown_user_agent_is_named_other() {
    let parser = parser();
    let agent = UserAgent::new(&parser, "curl/8.0");
    assert_eq!(agent.platform.as_deref(), Some("Other"));
    assert_eq!(agent.browser.as_deref(), Some("Other"));
}

#[test]
fn properties_hold_what_is_known() {
    let both = UserAgent { platform: Some("Linux".to_string()), browser: Some("Firefox".to_string()) };
    assert_eq!(
        names(&both),
        vec![("platform".to_string(), "Linux".to_string()), ("browser".to_string(), "Firefox".to_string())]
    );
    let browser_only = UserAgent { platform: None, browser: Some("Chrome".to_string()) };
    assert_eq!(names(&browser_only), vec![("browser".to_string(), "Chrome".to_string())]);
    let platform_only = UserAgent { platform: Some("Windows".to_string()), browser: None };
    assert_eq!(names(&platform_only), vec![("platform".to_string(), "Windows".to_string())]);
    let neither = UserAgent { platform: None, browser: None };
    assert!(names(&neither).is_empty());
}

#[test]
fn pixel_event_carries_name_agent_and_session() {
    let parser = parser();
    let rows = basalytics::user_agent::tracking_pixel_rows(
        &parser,
        Some("Mozilla/5.0 (X11; Linux x86_64; rv:10.0) Gecko/20100101 Firefox/10.0"),
        "abc",
    );
    assert_eq!(
        format!("{:?}", rows),
        r#"[Property { name: "name", value: String("tracking-pixel") }, Property { name: "platform", value: String("Linux") }, Property { name: "browser", value: String("Firefox") }, Property { name: "session", value: String("abc") }]"#
    );
    let rows = basalytics::user_agent::tracking_pixel_rows(&parser, None, "abc");
    assert_eq!(
        format!("{:?}", rows),
        r#"[Property { name: "name", value: String("tracking-pixel") }, Property { name: "session", value: String("abc") }]"#
    );
}
