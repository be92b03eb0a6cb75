use d26run::conf::{replace_all, Conf};
use d26run::conf_file::{classify, expand_vars, Applied, Blocks, Line};
use d26run::text::{string_of, to_chars};

fn replaced(hay: &str, needle: &str, with: &str) -> String {
    string_of(&replace_all(&to_chars(hay), &to_chars(needle), &to_chars(with)))
}

fn conf() -> Conf {
    let mut c = Conf::new();
    c.count = 7;
    c
}

#[test]
fn settings_start_empty() {
    let c = Conf::new();
    assert!(c.run.is_empty() && c.init.is_empty());
    assert!(!c.test && c.userdel && !c.userhomedel && !c.noconfcmd);
    assert!(c.name.is_none() && c.passwd.is_none() && c.group.is_none());
    assert!(c.groups.is_none() && c.home_dir.is_none() && c.immutable_home_at.is_none());
    assert!(c.count > 0);
}

#[test]
fn user_name_is_made_of_count_and_name() {
    let mut c = conf();
    assert_eq!(c.get_username(), "d26r7_");
    c.name = Some("web".to_owned());
    assert_eq!(c.get_username(), "d26r7_web");
    c.count = u64::MAX;
    assert_eq!(c.get_username(), "d26r18446744073709551615_web");
}

#[test]
fn every_occurrence_is_replaced() {
    for (hay, needle, with) in [
        ("a-b-c", "-", "+"),
        ("aaa", "aa", "b"),
        ("abc", "x", "y"),
        ("", "x", "y"),
        ("xx", "x", ""),
        ("[a][a]", "[a]", "[a][a]"),
        ("ééé", "é", "e"),
    ] {
        assert_eq!(replaced(hay, needle, with), hay.replace(needle, with), "{hay:?}");
    }
    assert_eq!(replaced("abc", "", "x"), "abc");
}

#[test]
fn placeholders_are_replaced() {
    let mut c = conf();
    c.name = Some("n".to_owned());
    c.group = Some("g[d26%count]".to_owned());
    c.home_dir = Some("/home/[d26%username]/[d26%group]".to_owned());
    assert_eq!(c.apply_to_string("c=[d26%count] u=[d26%username]"), "c=7 u=d26r7_n");
    assert_eq!(c.apply_to_string("[d26%group]"), "g7");
    assert_eq!(c.apply_to_string("[d26%home_dir]!"), "/home/d26r7_n/g7!");
    assert_eq!(c.apply_to_string("[d26%groups]"), "[d26%groups]");
    assert_eq!(c.apply_to_string("nothing"), "nothing");
}

#[test]
fn settings_that_stand_for_themselves_end_somewhere() {
    let mut c = conf();
    c.group = Some("<[d26%group]>".to_owned());
    assert_eq!(c.apply_to_string("[d26%group]"), "<<<<[d26%group]>>>>");
}

#[test]
fn placeholders_are_replaced_in_all_settings() {
    let mut c = conf();
    c.run = vec!["echo".to_owned(), "[d26%username]".to_owned()];
    c.init = vec![(true, vec!["mk".to_owned(), "[d26%home_dir]".to_owned()])];
    c.name = Some("n[d26%count]".to_owned());
    c.group = Some("g-[d26%username]".to_owned());
    c.groups = Some("[d26%group],x".to_owned());
    c.home_dir = Some("/h/[d26%groups]".to_owned());
    c.immutable_home_at = Some("[d26%home_dir]/i".to_owned());
    c.passwd = Some("[d26%count]".to_owned());
    c.apply_to_all_strings();
    assert_eq!(c.run, vec!["echo", "d26r7_n[d26%count]"]);
    assert_eq!(c.init, vec![(true, vec!["mk".to_owned(), "/h/g-d26r7_n[d26%count],x".to_owned()])]);
    assert_eq!(c.name.as_deref(), Some("n7"));
    assert_eq!(c.group.as_deref(), Some("g-d26r7_n7"));
    assert_eq!(c.groups.as_deref(), Some("g-d26r7_n7,x"));
    assert_eq!(c.home_dir.as_deref(), Some("/h/g-d26r7_n7,x"));
    assert_eq!(c.immutable_home_at.as_deref(), Some("/h/g-d26r7_n7,x/i"));
    assert_eq!(c.passwd.as_deref(), Some("[d26%count]"));
}

#[test]
fn lines_by_kind() {
    assert!(matches!(classify(""), Line::Skip));
    assert!(matches!(classify("# note"), Line::Skip));
    assert!(matches!(classify("#end"), Line::Skip));
    assert!(matches!(classify("lonely"), Line::Skip));
    assert!(matches!(classify("if"), Line::Skip));
    assert!(matches!(classify("end"), Line::End));
    assert!(matches!(classify("end of it"), Line::End));
    assert!(matches!(classify(" x = 1"), Line::Expression));
    assert!(matches!(classify(" "), Line::Expression));
    assert!(matches!(classify("if a == b"), Line::If(c) if c == "a == b"));
    assert!(matches!(classify("if "), Line::If(c) if c.is_empty()));
    assert!(matches!(classify("run echo hi"), Line::Statement(w, a) if w == "run" && a == "echo hi"));
    assert!(matches!(classify("ending soon"), Line::Statement(w, _) if w == "ending"));
}

#[test]
fn blocks_switch_lines_off() {
    let mut b = Blocks::new();
    assert!(b.last_run);
    assert!(!b.end());
    b.begin(true);
    assert!(b.last_run);
    b.begin(false);
    assert!(!b.last_run);
    b.begin(true);
    assert!(!b.last_run);
    assert!(b.end());
    assert!(!b.last_run);
    assert!(b.end());
    assert!(b.last_run);
    assert!(b.end());
    assert!(b.last_run);
    assert!(!b.end());
    b.begin(false);
    assert!(b.end());
    assert!(b.last_run);
}

#[test]
fn variables_are_put_into_statements() {
    let vars = vec![("x".to_owned(), "1".to_owned()), ("long name".to_owned(), "v]".to_owned())];
    assert_eq!(expand_vars("a [d26var:x] b", &vars), "a 1 b");
    assert_eq!(expand_vars("[d26var:x][d26var:long name]", &vars), "1v]");
    assert_eq!(expand_vars("plain\n\n", &vars), "plain");
    assert_eq!(expand_vars("a\nb\n", &vars), "a\nb");
    assert_eq!(expand_vars("[d26 x", &vars), "[d26 x");
    assert_eq!(expand_vars("[[d26var:x]", &vars), "[[d26var:x]");
    // what may still become a variable at the end is left out
    assert_eq!(expand_vars("tail [d26v", &vars), "tail ");
    assert_eq!(expand_vars("a [d26var:nope] b", &vars), "a ");
    assert_eq!(expand_vars("a [d26var:nope] [d26var:x]", &vars), "a ");
    assert_eq!(expand_vars("", &vars), "");
}

#[test]
fn statements_change_the_settings() {
    let mut c = conf();
    assert!(matches!(c.load("run", "echo".into()), Applied::Done));
    assert!(matches!(c.load("run", "hi".into()), Applied::Done));
    assert_eq!(c.run, vec!["echo", "hi"]);
    assert!(matches!(c.load("init+", "x".into()), Applied::NoInit));
    assert!(matches!(c.load("init!", "a".into()), Applied::Done));
    assert!(matches!(c.load("init_", "b".into()), Applied::Done));
    assert!(matches!(c.load("init+", "c".into()), Applied::Done));
    assert_eq!(c.init, vec![(true, vec!["a".to_owned()]), (false, vec!["b".to_owned(), "c".to_owned()])]);
    assert!(matches!(c.load("count", "12".into()), Applied::Done));
    assert_eq!(c.count, 12);
    assert!(matches!(c.load("count", "twelve".into()), Applied::BadCount(t) if t == "twelve"));
    assert!(matches!(c.load("count", "18446744073709551616".into()), Applied::BadCount(_)));
    assert_eq!(c.count, 12);
    assert!(matches!(c.load("config", "other.conf".into()), Applied::Load(f) if f == "other.conf"));
    assert!(matches!(c.load("frob", "x".into()), Applied::Unknown(w) if w == "frob"));
    for (soft, hard, get) in [
        ("name", "setname", (|c: &Conf| c.name.clone()) as fn(&Conf) -> Option<String>),
        ("passwd", "setpasswd", |c: &Conf| c.passwd.clone()),
        ("group", "setgroup", |c: &Conf| c.group.clone()),
        ("groups", "setgroups", |c: &Conf| c.groups.clone()),
        ("home", "sethome", |c: &Conf| c.home_dir.clone()),
        ("immuthome", "setimmuthome", |c: &Conf| c.immutable_home_at.clone()),
    ] {
        assert!(matches!(c.load(soft, "first".into()), Applied::Done));
        assert!(matches!(c.load(soft, "second".into()), Applied::Done));
        assert_eq!(get(&c).as_deref(), Some("first"));
        assert!(matches!(c.load(hard, "third".into()), Applied::Done));
        assert_eq!(get(&c).as_deref(), Some("third"));
    }
    assert!(matches!(c.load("addgroups", "more".into()), Applied::Done));
    assert_eq!(c.groups.as_deref(), Some("third,more"));
    c.groups = Some(String::new());
    c.load("addgroups", "only".into());
    assert_eq!(c.groups.as_deref(), Some("only"));
    c.groups = None;
    c.load("addgroups", "new".into());
    assert_eq!(c.groups.as_deref(), Some("new"));
    c.noconfcmd = true;
    c.load("run", "ignored".into());
    assert_eq!(c.run, vec!["echo", "hi"]);
}
