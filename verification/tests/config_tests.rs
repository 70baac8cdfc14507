use rasen_bundler::config::parse_config;

fn pairs_of(text: &str) -> Vec<(String, String)> {
    parse_config(text).pairs
}

#[test]
fn extracts_simple_pairs() {
    let t = pairs_of("{\n  \"pkg\": \"lib/index.js\"\n}");
    assert_eq!(t, vec![("pkg".to_string(), "lib/index.js".to_string())]);
}

#[test]
fn extracts_single_quoted_and_scoped_names() {
    let t = pairs_of("modules: { '@rasenjs/gpui': 'packages/gpui/src/index.js' }");
    assert_eq!(
        t,
        vec![("@rasenjs/gpui".to_string(), "packages/gpui/src/index.js".to_string())]
    );
}

#[test]
fn key_characters_allow_dash_and_slash() {
    let t = pairs_of("'my-pkg/sub': 'x.js'");
    assert_eq!(t, vec![("my-pkg/sub".to_string(), "x.js".to_string())]);
}

#[test]
fn last_write_wins_on_duplicate_keys() {
    let t = pairs_of("'a': 'one.js', 'b': 'mid.js', 'a': 'two.js'");
    assert_eq!(
        t,
        vec![
            ("a".to_string(), "two.js".to_string()),
            ("b".to_string(), "mid.js".to_string())
        ]
    );
}

#[test]
fn no_config_no_pairs() {
    assert_eq!(pairs_of(""), Vec::<(String, String)>::new());
    assert_eq!(pairs_of("const x = 1;"), Vec::<(String, String)>::new());
}

#[test]
fn line_comment_hides_a_pair() {
    let t = pairs_of("// 'dead': 'x.js'\n'live': 'y.js'");
    assert_eq!(t, vec![("live".to_string(), "y.js".to_string())]);
}

#[test]
fn block_comment_hides_a_pair() {
    let t = pairs_of("/* 'dead': 'x.js' */ 'live': 'y.js'");
    assert_eq!(t, vec![("live".to_string(), "y.js".to_string())]);
}

#[test]
fn extraction_ignores_decorative_comments() {
    let with_comments = "// aliases for the runtime\nexport default {\n  modules: {\n    \"pkg\": \"lib/index.js\", /* entry point */\n    \"aux\": \"lib/aux.js\"\n  }\n}\n";
    let stripped = "\nexport default {\n  modules: {\n    \"pkg\": \"lib/index.js\", \n    \"aux\": \"lib/aux.js\"\n  }\n}\n";
    assert_eq!(pairs_of(with_comments), pairs_of(stripped));
}

#[test]
fn lookup_finds_configured_path() {
    let t = parse_config("'pkg': 'lib/index.js'");
    assert_eq!(
        t.lookup(&"pkg".to_string()).map(|s| s.as_str()),
        Some("lib/index.js")
    );
    assert!(t.lookup(&"other".to_string()).is_none());
}

#[test]
fn value_may_hold_dots_and_spaces() {
    let t = pairs_of("'p': './a b/c.js'");
    assert_eq!(t, vec![("p".to_string(), "./a b/c.js".to_string())]);
}
