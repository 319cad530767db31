use prmn::library::{dependency_names, keep_names, plan_fetch, split_lines, Fetch, Library};

fn strings(v: &[&str]) -> Vec<String> {
    v.iter().map(|s| s.to_string()).collect()
}

fn lib(name: &str, deps: &[&str]) -> Library {
    Library { name: name.to_string(), depends: strings(deps) }
}

fn describe(plan: &[Fetch]) -> Vec<String> {
    plan.iter()
        .map(|f| match f {
            Fetch::Copy(n) => format!("copy {}", n),
            Fetch::Missing(n) => format!("missing {}", n),
        })
        .collect()
}

#[test]
fn manifest_lines_are_trimmed_and_blank_ones_dropped() {
    let text = "bar\n\n  baz  \n\t\nqux\r\n".to_string();
    assert_eq!(dependency_names(&text), strings(&["bar", "baz", "qux"]));
    assert_eq!(dependency_names(&String::new()), Vec::<String>::new());
}

#[test]
fn lines_split_at_newlines() {
    assert_eq!(split_lines(&"a\nb\n".to_string()), strings(&["a", "b", ""]));
    assert_eq!(split_lines(&"".to_string()), strings(&[""]));
    assert_eq!(keep_names(&strings(&["a", "", "b"])), strings(&["a", "b"]));
}

#[test]
fn fetching_an_unknown_library_copies_nothing() {
    let libs = vec![lib("foo", &[])];
    let plan = plan_fetch(&libs, &vec![], &"nope".to_string());
    assert_eq!(describe(&plan), strings(&["missing nope"]));
}

#[test]
fn fetching_a_library_without_dependencies_copies_once() {
    let libs = vec![lib("foo", &[]), lib("bar", &[])];
    let plan = plan_fetch(&libs, &vec![], &"foo".to_string());
    assert_eq!(describe(&plan), strings(&["copy foo"]));
}

#[test]
fn mutual_dependencies_end() {
    let libs = vec![lib("a", &["b"]), lib("b", &["a"])];
    let plan = plan_fetch(&libs, &vec![], &"a".to_string());
    assert_eq!(describe(&plan), strings(&["copy a", "copy b"]));
}

#[test]
fn present_dependency_is_skipped() {
    let libs = vec![lib("foo", &["bar"]), lib("bar", &[])];
    let plan = plan_fetch(&libs, &strings(&["bar"]), &"foo".to_string());
    assert_eq!(describe(&plan), strings(&["copy foo"]));
}

#[test]
fn transitive_and_missing_dependencies() {
    let libs = vec![lib("app", &["net", "log", "ghost"]), lib("net", &["log"]), lib("log", &[])];
    let plan = plan_fetch(&libs, &vec![], &"app".to_string());
    let d = describe(&plan);
    assert_eq!(d[0], "copy app");
    assert_eq!(d.len(), 4);
    assert!(d.contains(&"copy net".to_string()));
    assert!(d.contains(&"copy log".to_string()));
    assert!(d.contains(&"missing ghost".to_string()));
}

#[test]
fn library_already_present_is_copied_again_when_asked_for() {
    let libs = vec![lib("foo", &[])];
    let plan = plan_fetch(&libs, &strings(&["foo"]), &"foo".to_string());
    assert_eq!(describe(&plan), strings(&["copy foo"]));
}
