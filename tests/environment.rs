use preload_supervisor::env::{lines, load_env_from_text, parse_env};
use preload_supervisor::envp::{Argv, Envp};

fn entries(e: &Envp) -> Vec<String> {
    e.as_ptr_vec().into_iter().flatten().map(|s| s.to_string()).collect()
}

#[test]
fn insert_appends_new_key() {
    let mut e = Envp::new();
    e.insert("A", "1");
    e.insert("B", "2");
    assert_eq!(entries(&e), vec!["A=1", "B=2"]);
}

#[test]
fn insert_replaces_existing_key_and_moves_it_last() {
    let mut e = Envp::from_entries(vec!["A=1".into(), "B=2".into(), "A=3".into()]);
    e.insert("A", "9");
    assert_eq!(entries(&e), vec!["B=2", "A=9"]);
}

#[test]
fn insert_removes_entry_without_equals_that_matches_key() {
    let mut e = Envp::from_entries(vec!["FLAG".into(), "FLAGS=x".into()]);
    e.insert("FLAG", "on");
    assert_eq!(entries(&e), vec!["FLAGS=x", "FLAG=on"]);
}

#[test]
fn get_value_finds_first_match() {
    let e = Envp::from_entries(vec!["PATH=/bin".into(), "X=a=b".into(), "PATH=/usr".into()]);
    assert_eq!(e.get_value("PATH"), Some("/bin".to_string()));
    assert_eq!(e.get_value("X"), Some("a=b".to_string()));
    assert_eq!(e.get_value("Y"), None);
}

#[test]
fn get_value_skips_entry_without_equals() {
    let e = Envp::from_entries(vec!["K".into(), "K=v".into()]);
    assert_eq!(e.get_value("K"), Some("v".to_string()));
}

#[test]
fn contains_prefix_checks_starts() {
    let e = Envp::from_entries(vec!["HOME=/root".into(), "_GUARD=1".into()]);
    assert!(e.contains_prefix("_GUARD="));
    assert!(!e.contains_prefix("GUARD"));
    assert!(e.contains_prefix(""));
    assert!(!Envp::new().contains_prefix(""));
}

#[test]
fn envp_vector_ends_with_terminator() {
    let e = Envp::from_entries(vec!["A=1".into()]);
    let v = e.as_ptr_vec();
    assert_eq!(v.len(), 2);
    assert_eq!(v[0], Some("A=1"));
    assert_eq!(v[1], None);
}

#[test]
fn argv_vector_ends_with_terminator() {
    let mut a = Argv::new();
    a.push(b"prog".to_vec());
    a.push(b"-x".to_vec());
    let v = a.as_ptr_vec();
    assert_eq!(v, vec![Some(&b"prog"[..]), Some(&b"-x"[..]), None]);
    assert_eq!(Argv::new().as_ptr_vec(), vec![None]);
}

#[test]
fn lines_match_std() {
    for text in ["", "a", "a\n", "a\nb", "a\r\nb\r\n", "\n", "\n\n", "x\n\ny", "r\r"] {
        let expected: Vec<String> = text.lines().map(|l| l.to_string()).collect();
        assert_eq!(lines(text), expected, "text {:?}", text);
    }
}

#[test]
fn parse_env_splits_at_first_equals() {
    let pairs = parse_env("FOO=bar\nnoequals\nURL=a=b\r\n=empty\n");
    assert_eq!(
        pairs,
        vec![
            ("FOO".to_string(), "bar".to_string()),
            ("URL".to_string(), "a=b".to_string()),
            ("".to_string(), "empty".to_string()),
        ]
    );
}

#[test]
fn load_env_from_text_merges_over_envp() {
    let mut e = Envp::from_entries(vec!["FOO=old".into(), "KEEP=1".into()]);
    load_env_from_text(&mut e, "FOO=new\nBAR=2");
    assert_eq!(entries(&e), vec!["KEEP=1", "FOO=new", "BAR=2"]);
}

#[test]
fn load_env_from_text_later_line_wins() {
    let mut e = Envp::new();
    load_env_from_text(&mut e, "A=1\nA=2\n");
    assert_eq!(e.get_value("A"), Some("2".to_string()));
    assert_eq!(entries(&e).len(), 1);
}
