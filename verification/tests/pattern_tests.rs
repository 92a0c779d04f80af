use libruntime::pattern::{string_to_pattern, ParseError, PatternType, VolumePattern};

fn render(p: &VolumePattern) -> String {
    if p.read_only {
        format!("{}:{}:ro", p.host_path, p.container_path)
    } else {
        format!("{}:{}", p.host_path, p.container_path)
    }
}

#[test]
fn bind_mount_shorthand() {
    let p = string_to_pattern("/opt/era:/mnt/run/tmp").unwrap();
    assert_eq!(p.host_path, "/opt/era");
    assert_eq!(p.container_path, "/mnt/run/tmp");
    assert!(!p.read_only);
    assert_eq!(p.pattern_type, PatternType::BindMount);
}

#[test]
fn named_shorthand() {
    let p = string_to_pattern("data:/srv").unwrap();
    assert_eq!(p.host_path, "data");
    assert_eq!(p.container_path, "/srv");
    assert!(!p.read_only);
    assert_eq!(p.pattern_type, PatternType::Named);
}

#[test]
fn anonymous_shorthand_with_empty_host_side() {
    let p = string_to_pattern(":/cache").unwrap();
    assert_eq!(p.host_path, "");
    assert_eq!(p.container_path, "/cache");
    assert!(!p.read_only);
    assert_eq!(p.pattern_type, PatternType::Anonymous);
}

#[test]
fn single_field_is_a_container_path() {
    let p = string_to_pattern("/cache").unwrap();
    assert_eq!(p.host_path, "");
    assert_eq!(p.container_path, "/cache");
    assert!(!p.read_only);
    assert_eq!(p.pattern_type, PatternType::Anonymous);
}

#[test]
fn empty_shorthand_is_an_anonymous_volume_at_no_path() {
    let p = string_to_pattern("").unwrap();
    assert_eq!(p.host_path, "");
    assert_eq!(p.container_path, "");
    assert!(!p.read_only);
    assert_eq!(p.pattern_type, PatternType::Anonymous);
}

#[test]
fn one_slash_anywhere_makes_a_bind_mount() {
    for text in ["/data:/srv", "da/ta:/srv", "data/:/srv", "./data:/srv"] {
        let p = string_to_pattern(text).unwrap();
        assert_eq!(p.pattern_type, PatternType::BindMount, "{}", text);
    }
    let p = string_to_pattern("data:/srv").unwrap();
    assert_eq!(p.pattern_type, PatternType::Named);
}

#[test]
fn third_field_ro_is_read_only() {
    let p = string_to_pattern("logs:/var/log:ro").unwrap();
    assert_eq!(p.host_path, "logs");
    assert_eq!(p.container_path, "/var/log");
    assert!(p.read_only);
    assert_eq!(p.pattern_type, PatternType::Named);
}

#[test]
fn empty_third_field_is_read_write() {
    let p = string_to_pattern("logs:/var/log:").unwrap();
    assert_eq!(p.host_path, "logs");
    assert_eq!(p.container_path, "/var/log");
    assert!(!p.read_only);
}

#[test]
fn other_third_field_is_a_mode_error() {
    for text in ["a:/b:rw", "a:/b:RO", "a:/b:r", "a:/b:roo", "a:/b: ro", "a:/b:or"] {
        match string_to_pattern(text) {
            Err(e) => assert_eq!(e, ParseError::Mode, "{}", text),
            Ok(p) => panic!("{} parsed to {:?}", text, p),
        }
    }
}

#[test]
fn four_or_more_fields_are_a_syntax_error() {
    for text in ["a:b:ro:x", "a:b:c:d", ":::", "a:b:ro:", "a:b:c:d:e"] {
        match string_to_pattern(text) {
            Err(e) => assert_eq!(e, ParseError::Syntax, "{}", text),
            Ok(p) => panic!("{} parsed to {:?}", text, p),
        }
    }
}

#[test]
fn field_count_is_judged_before_the_mode() {
    assert_eq!(string_to_pattern("a:b:rw:x").unwrap_err(), ParseError::Syntax);
}

#[test]
fn parsing_a_rendered_pattern_gives_it_back() {
    let cases = [
        ("", "/cache", false, PatternType::Anonymous),
        ("", "/cache", true, PatternType::Anonymous),
        ("data", "/srv", false, PatternType::Named),
        ("data", "/srv", true, PatternType::Named),
        ("/opt/era", "/mnt/run/tmp", false, PatternType::BindMount),
        ("./rel/path", "/x", true, PatternType::BindMount),
        ("name", "", false, PatternType::Named),
    ];
    for (host, container, read_only, kind) in cases {
        let p = VolumePattern {
            host_path: host.to_string(),
            container_path: container.to_string(),
            read_only,
            pattern_type: kind,
        };
        let back = string_to_pattern(&render(&p)).unwrap();
        assert_eq!(back.host_path, p.host_path);
        assert_eq!(back.container_path, p.container_path);
        assert_eq!(back.read_only, p.read_only);
        assert_eq!(back.pattern_type, p.pattern_type);
    }
}

#[test]
fn non_ascii_text_is_cut_at_colons_only() {
    let p = string_to_pattern("données:/srv/é:ro").unwrap();
    assert_eq!(p.host_path, "données");
    assert_eq!(p.container_path, "/srv/é");
    assert!(p.read_only);
    assert_eq!(p.pattern_type, PatternType::Named);
}

#[test]
fn parse_error_messages() {
    assert_eq!(
        ParseError::Syntax.message(),
        "Invalid volumes mapping syntax: more than three fields"
    );
    assert_eq!(
        ParseError::Mode.message(),
        "Invalid volumes mapping syntax: the mode is neither empty nor ro"
    );
}
