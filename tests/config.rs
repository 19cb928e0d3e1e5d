use rema::document::{is_shallow, parse_document};
use rema::config::{BaseDirEntry, ConfigError, GlobalConfig, RemaConfig};
use rema::config::{expand_path, expand_variables};
use rema::errors::pretty_error;

#[test]
fn test_rema_config_full() {
    let config = r#"
                build = ["cmd1", "cmd2"]
                clean = ["clean pls"]
                autoclean = true
                autoupdate = true
            "#;

    let conf = RemaConfig::resolve("", Some(config)).unwrap();
    let expected = RemaConfig {
        path: String::new(),
        name: String::new(),
        build: vec!["cmd1".into(), "cmd2".into()],
        clean: vec!["clean pls".into()],
        autoupdate: true,
        autoclean: true,
    };
    assert_eq!(conf, expected);
}

#[test]
fn test_invalid_config_no_panic() {
    let config = r#"
            [dir.home]
            path = "~"
            "#;

    let conf = RemaConfig::resolve("", Some(config)).unwrap();
    let expected = RemaConfig {
        path: String::new(),
        name: String::new(),
        build: vec![],
        clean: vec![],
        autoclean: false,
        autoupdate: false,
    };
    assert_eq!(conf, expected);
}

#[test]
fn missing_settings_file_gives_defaults() {
    let conf = RemaConfig::resolve("/src/repoA", None).unwrap();
    assert_eq!(conf.path, "/src/repoA");
    assert_eq!(conf.name, "/src/repoA");
    assert!(conf.build.is_empty());
    assert!(conf.clean.is_empty());
    assert!(!conf.autoclean);
    assert!(!conf.autoupdate);
}

#[test]
fn name_and_partial_keys() {
    let conf = RemaConfig::resolve("/r", Some("name = \"dwm\"\nbuild = [\"make\"]\n")).unwrap();
    assert_eq!(conf.name, "dwm");
    assert_eq!(conf.path, "/r");
    assert_eq!(conf.build, vec!["make".to_string()]);
    assert!(conf.clean.is_empty());
    assert!(!conf.autoclean && !conf.autoupdate);
}

#[test]
fn malformed_settings_file_is_reported() {
    let r = RemaConfig::resolve("/r", Some("build = [\"make\""));
    assert!(matches!(r, Err(ConfigError::Toml(_))));
}

#[test]
fn wrong_kind_of_value_is_reported() {
    let r = RemaConfig::resolve("/r", Some("build = \"make\"\n"));
    assert_eq!(r, Err(ConfigError::Invalid("build".to_string())));
    let r = RemaConfig::resolve("/r", Some("clean = [1, 2]\n"));
    assert_eq!(r, Err(ConfigError::Invalid("clean".to_string())));
    let r = RemaConfig::resolve("/r", Some("autoclean = \"yes\"\n"));
    assert_eq!(r, Err(ConfigError::Invalid("autoclean".to_string())));
    let r = RemaConfig::resolve("/r", Some("autoupdate = 1\n"));
    assert_eq!(r, Err(ConfigError::Invalid("autoupdate".to_string())));
    let r = RemaConfig::resolve("/r", Some("name = true\n"));
    assert_eq!(r, Err(ConfigError::Invalid("name".to_string())));
}

#[test]
fn global_settings_inherit_flags() {
    let text = r#"
        autoclean = true
        [dir.src]
        path = "/home/me/src"
        ignore = ["old"]
        autoupdate = true
        [dir.suckless]
        path = "~/suckless"
        include = ["dwm", "st"]
        autoclean = false
    "#;
    let g = GlobalConfig::resolve(text, Some("/home/me"), &vec![]).unwrap();
    assert!(g.autoclean);
    assert!(!g.autoupdate);
    assert_eq!(g.base_dirs.len(), 2);
    let src = g.base_dirs.iter().find(|d| d.label == "src").unwrap();
    assert_eq!(src.path, "/home/me/src");
    assert_eq!(src.ignore, vec!["old".to_string()]);
    assert!(src.only.is_empty());
    assert!(src.autoclean);
    assert!(src.autoupdate);
    let sl = g.base_dirs.iter().find(|d| d.label == "suckless").unwrap();
    assert_eq!(sl.path, "/home/me/suckless");
    assert_eq!(sl.only, vec!["dwm".to_string(), "st".to_string()]);
    assert!(sl.ignore.is_empty());
    assert!(!sl.autoclean);
    assert!(!sl.autoupdate);
}

#[test]
fn global_settings_without_dirs() {
    let g = GlobalConfig::resolve("", None, &vec![]).unwrap();
    assert!(g.base_dirs.is_empty());
    assert!(!g.autoclean && !g.autoupdate);
}

#[test]
fn relative_base_dir_is_fatal() {
    let r = GlobalConfig::resolve("[dir.a]\npath = \"src\"\n", Some("/home/me"), &vec![]);
    assert_eq!(r, Err(ConfigError::BaseDirRelative("src".to_string())));
    let r = GlobalConfig::resolve("[dir.a]\npath = \"~/src\"\n", None, &vec![]);
    assert_eq!(r, Err(ConfigError::BaseDirRelative("~/src".to_string())));
}

#[test]
fn base_dir_errors() {
    let r = GlobalConfig::resolve("[dir.a]\nignore = []\n", None, &vec![]);
    assert_eq!(r, Err(ConfigError::MissingPath("a".to_string())));
    let r = GlobalConfig::resolve("[dir.a]\npath = 3\n", None, &vec![]);
    assert_eq!(r, Err(ConfigError::InvalidDir("a".to_string(), "path".to_string())));
    let r = GlobalConfig::resolve("[dir]\na = 1\n", None, &vec![]);
    assert_eq!(r, Err(ConfigError::InvalidDir("a".to_string(), String::new())));
    let r = GlobalConfig::resolve("dir = 1\n", None, &vec![]);
    assert_eq!(r, Err(ConfigError::Invalid("dir".to_string())));
    let r = GlobalConfig::resolve("autoupdate = \"x\"\n", None, &vec![]);
    assert_eq!(r, Err(ConfigError::Invalid("autoupdate".to_string())));
    let r = GlobalConfig::resolve("[dir.a]\npath = \"/x\"\nignore = \"y\"\n", None, &vec![]);
    assert_eq!(r, Err(ConfigError::InvalidDir("a".to_string(), "ignore".to_string())));
    let r = GlobalConfig::resolve("[dir", None, &vec![]);
    assert!(matches!(r, Err(ConfigError::Toml(_))));
}

#[test]
fn base_dir_entry_from_item_keeps_label() {
    let doc = rema::document::parse_document("path = \"/a\"\n").unwrap();
    let d = BaseDirEntry::from_item("lab", &doc, true, false, None, &vec![]).unwrap();
    assert_eq!(d.label, "lab");
    assert_eq!(d.path, "/a");
    assert!(d.autoclean);
    assert!(!d.autoupdate);
}

#[test]
fn home_expansion() {
    assert_eq!(expand_path("~", Some("/home/me")), "/home/me");
    assert_eq!(expand_path("~/src", Some("/home/me")), "/home/me/src");
    assert_eq!(expand_path("~src", Some("/home/me")), "~src");
    assert_eq!(expand_path("/abs", Some("/home/me")), "/abs");
    assert_eq!(expand_path("~/src", None), "~/src");
}

#[test]
fn error_messages() {
    assert_eq!(
        ConfigError::BaseDirRelative("src".into()).message(),
        "base_dir in src cannot be relative"
    );
    assert_eq!(
        ConfigError::BaseDirNotDir("/x".into()).message(),
        "base_dir must be a directory, found: /x"
    );
    assert_eq!(ConfigError::File("gone".into()).message(), "could not read config file: gone");
    assert_eq!(ConfigError::Toml("bad".into()).message(), "error in config file: bad");
    assert_eq!(ConfigError::Invalid("build".into()).message(), "wrong kind of value for key: build");
    assert_eq!(ConfigError::MissingPath("a".into()).message(), "no path given for dir.a");
    assert_eq!(
        ConfigError::InvalidDir("a".into(), "ignore".into()).message(),
        "wrong kind of value in dir.a: ignore"
    );
}

#[test]
fn pretty_error_joins_causes() {
    assert_eq!(pretty_error(&vec![]), "");
    assert_eq!(pretty_error(&vec!["outer".to_string()]), "outer");
    assert_eq!(
        pretty_error(&vec!["outer".to_string(), "middle".to_string(), "inner".to_string()]),
        "outer: middle: inner"
    );
}

#[test]
fn deep_nesting_is_refused_not_parsed() {
    let text = format!("build = {}", "[".repeat(20000));
    let r = RemaConfig::resolve("/r", Some(&text));
    assert_eq!(r, Err(ConfigError::Toml(rema::document::TOO_DEEP.to_string())));
    let r = GlobalConfig::resolve(&text, None, &vec![]);
    assert_eq!(r, Err(ConfigError::Toml(rema::document::TOO_DEEP.to_string())));
    let dotted = format!("{} = 1\n", vec!["a"; 100000].join("."));
    let r = RemaConfig::resolve("/r", Some(&dotted));
    assert_eq!(r, Err(ConfigError::Toml(rema::document::TOO_DEEP.to_string())));
    let header = format!("[{}]\n", vec!["a"; 100000].join("."));
    let r = GlobalConfig::resolve(&header, None, &vec![]);
    assert_eq!(r, Err(ConfigError::Toml(rema::document::TOO_DEEP.to_string())));
}

#[test]
fn nesting_up_to_the_bound_parses() {
    let arrays = format!("x = {}{}\n", "[".repeat(512), "]".repeat(512));
    assert!(is_shallow(&arrays));
    assert!(parse_document(&arrays).is_ok());
    let over = format!("x = {}{}\n", "[".repeat(513), "]".repeat(513));
    assert!(!is_shallow(&over));
    assert!(parse_document(&over).is_err());
    let dotted = format!("{} = 1\n", vec!["a"; 513].join("."));
    assert!(is_shallow(&dotted));
    assert!(parse_document(&dotted).is_ok());
    let header = format!("[{}]\nk = 1\n", vec!["a"; 512].join("."));
    assert!(is_shallow(&header));
    assert!(parse_document(&header).is_ok());
    let inline = format!("x = {}{}\n", "{ a = ".repeat(512), "}".repeat(512));
    assert!(is_shallow(&inline));
    let _ = parse_document(&inline);
}

#[test]
fn parser_message_is_kept() {
    let text = "build = [\"make\"";
    let m = match rema::document::parse_document(text) {
        Err(m) => m,
        Ok(_) => panic!("parsed"),
    };
    assert!(!m.is_empty());
    assert_ne!(m, rema::document::TOO_DEEP);
    assert_eq!(RemaConfig::resolve("/r", Some(text)), Err(ConfigError::Toml(m.clone())));
    assert_eq!(GlobalConfig::resolve(text, None, &vec![]), Err(ConfigError::Toml(m)));
}

fn vars(pairs: &[(&str, &str)]) -> Vec<(String, String)> {
    pairs.iter().map(|(k, v)| (k.to_string(), v.to_string())).collect()
}

#[test]
fn variable_expansion() {
    let v = vars(&[("SRC", "/home/me/src"), ("X", "x1"), ("X", "x2")]);
    assert_eq!(expand_variables("$SRC/dwm", &v), "/home/me/src/dwm");
    assert_eq!(expand_variables("/a/$X/$X", &v), "/a/x1/x1");
    assert_eq!(expand_variables("/a/$NOPE/b", &v), "/a/$NOPE/b");
    assert_eq!(expand_variables("/a/$", &v), "/a/$");
    assert_eq!(expand_variables("/a/${X}", &v), "/a/${X}");
    assert_eq!(expand_variables("/a/$X-y", &v), "/a/x1-y");
    assert_eq!(expand_variables("", &v), "");
}

#[test]
fn base_dir_paths_expand_variables() {
    let text = "[dir.a]\npath = \"$SRC/forks\"\n[dir.b]\npath = \"~/$SUB\"\n[dir.c]\npath = \"$REL/x\"\n";
    let r = GlobalConfig::resolve(text, Some("/home/me"), &vars(&[("SRC", "/srv"), ("SUB", "b")]));
    assert_eq!(r, Err(ConfigError::BaseDirRelative("$REL/x".to_string())));
    let r = GlobalConfig::resolve(
        text,
        Some("/home/me"),
        &vars(&[("SRC", "/srv"), ("SUB", "b"), ("REL", "/c")]),
    )
    .unwrap();
    let paths: Vec<&str> = r.base_dirs.iter().map(|d| d.path.as_str()).collect();
    assert_eq!(paths, vec!["/srv/forks", "/home/me/b", "/c/x"]);
}
