use orbit_rs::envcfg::{
    candidates, env_file, env_source, find_default, load, parse_file, parse_line, parse_value, set_if_absent,
    valid_key, Base, EnvFile, EnvLine, EnvSource,
};

fn assigns(line: &str) -> Option<(String, String)> {
    match parse_line(line) {
        EnvLine::Assign { key, value } => Some((key, value)),
        _ => None,
    }
}

fn pair(k: &str, v: &str) -> Option<(String, String)> {
    Some((k.to_string(), v.to_string()))
}

#[test]
fn which_file() {
    assert!(matches!(env_file(None), EnvFile::Search));
    assert!(matches!(env_file(Some("")), EnvFile::Skip));
    assert!(matches!(env_file(Some("none")), EnvFile::Skip));
    assert!(matches!(env_file(Some("/x.env")), EnvFile::Explicit(p) if p == "/x.env"));
}

#[test]
fn a_named_file_is_used_or_nothing_is() {
    let defaults = [true, true];
    for v in ["", "none"] {
        assert!(matches!(env_source(env_file(Some(v)), true, &defaults), EnvSource::Nothing));
    }
    assert!(matches!(env_source(env_file(Some("/x")), true, &defaults), EnvSource::Named(p) if p == "/x"));
    assert!(matches!(env_source(env_file(Some("/x")), false, &defaults), EnvSource::Missing(p) if p == "/x"));
}

#[test]
fn an_unset_variable_means_a_search() {
    assert!(matches!(env_source(env_file(None), true, &[false, true, true]), EnvSource::Default(1)));
    assert!(matches!(env_source(env_file(None), true, &[false]), EnvSource::NoDefault));
}

#[test]
fn only_a_file_that_is_read_sets_anything() {
    let n = |source: EnvSource, text: Option<&str>| load(&source, text, &[]).len();
    assert_eq!(n(EnvSource::Named("/x".to_string()), Some("A=1")), 1);
    assert_eq!(n(EnvSource::Default(3), Some("A=1")), 1);
    assert_eq!(n(EnvSource::Default(3), None), 0);
    assert_eq!(n(EnvSource::Nothing, Some("A=1")), 0);
    assert_eq!(n(EnvSource::Missing("/x".to_string()), Some("A=1")), 0);
    assert_eq!(n(EnvSource::NoDefault, Some("A=1")), 0);
}

#[test]
fn the_search_order() {
    let all: Vec<(Base, &str)> = candidates(true, true).iter().map(|c| (c.base, c.path)).collect();
    assert_eq!(
        all,
        vec![
            (Base::Root, "/data/orbit/config/orbit.env"),
            (Base::Root, "/data/orbit/config/orbit-rs.env"),
            (Base::WorkingDir, "config/orbit.env"),
            (Base::WorkingDir, "config/orbit-rs.env"),
            (Base::ExeDir, "config/orbit.env"),
            (Base::ExeDir, "config/orbit-rs.env"),
            (Base::AboveExeDir, "config/orbit.env"),
            (Base::AboveExeDir, "config/orbit-rs.env"),
            (Base::Root, "/etc/orbit-rs/orbit.env"),
            (Base::Root, "/etc/orbit-rs/orbit-rs.env"),
        ]
    );
    assert_eq!(candidates(false, false).len(), 6);
    assert_eq!(candidates(true, false).len(), 8);
}

#[test]
fn the_first_file_that_is_there() {
    assert_eq!(find_default(&[false, true, true]), Some(1));
    assert_eq!(find_default(&[false, false]), None);
    assert_eq!(find_default(&[]), None);
}

#[test]
fn keys() {
    for k in ["A", "_", "a9", "DJI_KMS_STANDBY", "_1"] {
        assert!(valid_key(k));
    }
    for k in ["", "9a", "a-b", "a b", "é", "a.b"] {
        assert!(!valid_key(k));
    }
}

#[test]
fn values() {
    assert_eq!(parse_value("  x y  "), "x y");
    assert_eq!(parse_value("\"a b \" "), "a b ");
    assert_eq!(parse_value("'a # b'"), "a # b");
    assert_eq!(parse_value("a # comment"), "a");
    assert_eq!(parse_value("a\t# comment"), "a");
    assert_eq!(parse_value("a#b"), "a#b");
    assert_eq!(parse_value("#a"), "#a");
    assert_eq!(parse_value("\"a' # b"), "\"a'");
    assert_eq!(parse_value("\""), "\"");
    assert_eq!(parse_value("\"\""), "");
    assert_eq!(parse_value(""), "");
    assert_eq!(parse_value("é # ü"), "é");
}

#[test]
fn lines_of_the_file() {
    assert_eq!(assigns("KEY=value"), pair("KEY", "value"));
    assert_eq!(assigns("  export KEY = value \r"), pair("KEY", "value"));
    assert_eq!(assigns("K=a=b"), pair("K", "a=b"));
    assert_eq!(assigns("K="), pair("K", ""));
    assert!(matches!(parse_line(""), EnvLine::Blank));
    assert!(matches!(parse_line("   \r"), EnvLine::Blank));
    assert!(matches!(parse_line("  # KEY=value"), EnvLine::Blank));
    assert!(matches!(parse_line("KEY value"), EnvLine::NoEquals));
    assert!(matches!(parse_line("9K=1"), EnvLine::BadKey(k) if k == "9K"));
    assert!(matches!(parse_line("=1"), EnvLine::BadKey(k) if k.is_empty()));
    assert!(matches!(parse_line("export\tK=1"), EnvLine::BadKey(k) if k == "export\tK"));
}

#[test]
fn a_file_is_read_line_by_line() {
    let lines = parse_file("A=1\r\n\n# c\nB\nC='x'");
    assert_eq!(lines.len(), 5);
    assert!(matches!(&lines[0], EnvLine::Assign { key, value } if key == "A" && value == "1"));
    assert!(matches!(lines[1], EnvLine::Blank));
    assert!(matches!(lines[2], EnvLine::Blank));
    assert!(matches!(lines[3], EnvLine::NoEquals));
    assert!(matches!(&lines[4], EnvLine::Assign { key, value } if key == "C" && value == "x"));
    assert_eq!(parse_file("A=1\n").len(), 1);
    assert!(parse_file("").is_empty());
}

#[test]
fn what_is_set() {
    assert!(set_if_absent(false, "K", "v"));
    assert!(!set_if_absent(true, "K", "v"));
    assert!(!set_if_absent(false, "K", "a\0b"));
    assert!(!set_if_absent(false, "K\0", "v"));
}

#[test]
fn the_environment_wins_and_so_does_the_first_line() {
    let text = "A=file\nB=1\nB=2\nC=x\0y\nC=3\n";
    let settings: Vec<(String, String)> = load(&EnvSource::Default(0), Some(text), &["A".to_string(), "HOME".to_string()])
        .into_iter()
        .map(|s| (s.key, s.value))
        .collect();
    assert_eq!(
        settings,
        vec![("B".to_string(), "1".to_string()), ("C".to_string(), "3".to_string())]
    );
    assert!(load(&EnvSource::Default(0), Some(""), &[]).is_empty());
}

#[test]
fn quotes_keep_what_they_hold() {
    for v in ["", " ", "a # b", "\t", "'", "x=\"y\""] {
        assert_eq!(parse_value(&format!("\"{}\"", v)), v);
    }
}

#[test]
fn a_quoted_assignment_says_just_that() {
    for v in ["", " a # b ", "x=y", "\"", "\t"] {
        assert_eq!(assigns(&format!("export_me='{}'", v)), pair("export_me", v));
    }
    assert_eq!(assigns("export K='v'"), pair("K", "v"));
}

#[test]
fn a_file_can_be_cut_after_any_line() {
    let shape = |text: &str| -> Vec<Option<(String, String)>> {
        parse_file(text)
            .into_iter()
            .map(|l| match l {
                EnvLine::Assign { key, value } => Some((key, value)),
                _ => None,
            })
            .collect()
    };
    let text = "A=1\n\n# x\nB='2'\nC\nD=3";
    for (i, _) in text.match_indices('\n') {
        let mut parts = shape(&text[..i + 1]);
        parts.extend(shape(&text[i + 1..]));
        assert_eq!(parts, shape(text));
    }
    assert_eq!(shape(text).len(), 6);
}
