use d26run::config::{runcmd_from_file, runcmd_from_lines, split_lines, ConfigFromFileError};
use d26run::template::{RunCmdBuilder, VarValue};

fn lines(text: &str) -> Vec<String> {
    split_lines(text)
}

fn load(text: &str) -> (RunCmdBuilder, Result<(), ConfigFromFileError>) {
    let mut b = RunCmdBuilder::default();
    let (r, _) = runcmd_from_lines("t", &mut b, &lines(text), 0, &vec![], 0);
    (b, r)
}

#[test]
fn lines_are_split_like_text_lines() {
    assert_eq!(split_lines(""), Vec::<String>::new());
    assert_eq!(split_lines("a"), vec!["a"]);
    assert_eq!(split_lines("a\n"), vec!["a"]);
    assert_eq!(split_lines("a\n\nb"), vec!["a", "", "b"]);
    assert_eq!(split_lines("a\r\nb\r"), vec!["a", "b\r"]);
    assert_eq!(split_lines("\n"), vec![""]);
    for t in ["", "a", "a\n", "a\n\nb", "a\r\nb\r", "\n", "\r\n\r\n", "x\ry\n"] {
        let want: Vec<String> = t.lines().map(|l| l.to_owned()).collect();
        assert_eq!(split_lines(t), want);
    }
}

#[test]
fn simple_statements() {
    let (b, r) = load(
        "# comment\n// other comment\n\ncommand /bin/echo\narg hi\narg there you\nuid 1000\ngid 7\nallow self\nworking-dir /tmp\ng+gid 5\ng+group wheel\nenv+set A=b=c\nenv+inherit HOME\nenv+inherit TERM=xterm\n",
    );
    assert!(r.is_ok());
    assert_eq!(b.command.as_deref(), Some("/bin/echo"));
    assert_eq!(b.args, vec!["hi", "there you"]);
    assert_eq!(b.user, Some(Ok(1000)));
    assert_eq!(b.group, Some(Ok(7)));
    assert_eq!(b.allow.as_deref(), Some("self"));
    assert_eq!(b.working_dir.as_deref(), Some("/tmp"));
    assert_eq!(b.groups, vec![Ok(5), Err("wheel".to_owned())]);
    assert_eq!(
        b.env,
        vec![
            ("A".to_owned(), Ok("b=c".to_owned())),
            ("HOME".to_owned(), Err(None)),
            ("TERM".to_owned(), Err(Some("xterm".to_owned()))),
        ]
    );
}

#[test]
fn clear_statements_and_names() {
    let (b, r) = load("arg a\nargs-clear\narg b\ng+gid 1\ng-clear\nenv+set X=1\nenv-clear\nuser alice\ngroup staff\n");
    assert!(r.is_ok());
    assert_eq!(b.args, vec!["b"]);
    assert!(b.groups.is_empty());
    assert!(b.env.is_empty());
    assert_eq!(b.user, Some(Err("alice".to_owned())));
    assert_eq!(b.group, Some(Err("staff".to_owned())));
}

#[test]
fn variables() {
    let (b, r) = load(
        "var A set some text\nvar B from-cmd /bin/date\nvar C from-cmd-sh echo hi | tr a b\nvar D from-input d\nvar E from-input-or e fallback text\nvar F from-input-or-else f from-input-or g deep\nvar G con-id\nvar H bogus\nvar J from-input-or nodefault\nvar A set replaced\n",
    );
    assert!(r.is_ok());
    let names: Vec<&str> = b.vars.iter().map(|(n, _)| n.as_str()).collect();
    assert_eq!(names, vec!["A", "B", "C", "D", "E", "F", "G"]);
    assert!(matches!(&b.vars[0].1, VarValue::Val(v) if v == "replaced"));
    assert!(matches!(&b.vars[1].1, VarValue::OutputOf(p, a) if p == "/bin/date" && a.is_empty()));
    assert!(matches!(&b.vars[2].1, VarValue::OutputOf(p, a) if p == "sh" && a == &vec!["-c".to_owned(), "echo hi | tr a b".to_owned()]));
    assert!(matches!(&b.vars[3].1, VarValue::Input(n) if n == "d"));
    match &b.vars[4].1 {
        VarValue::InputOrDefault(n, d) => {
            assert_eq!(n, "e");
            assert!(matches!(&**d, VarValue::Val(v) if v == "fallback text"));
        }
        _ => panic!("wrong source"),
    }
    match &b.vars[5].1 {
        VarValue::InputOrDefault(n, d) => {
            assert_eq!(n, "f");
            match &**d {
                VarValue::InputOrDefault(n2, d2) => {
                    assert_eq!(n2, "g");
                    assert!(matches!(&**d2, VarValue::Val(v) if v == "deep"));
                }
                _ => panic!("wrong default"),
            }
        }
        _ => panic!("wrong source"),
    }
    assert!(matches!(&b.vars[6].1, VarValue::ConId));
}

#[test]
fn nested_blocks() {
    let (b, r) = load(
        "command main\ncmd-prep\ncommand first\ncmd-clean\ncommand inner\nend\narg x\nend\ncmd-clean\ncommand c1\nend\ncmd-prep\ncommand second\n",
    );
    assert!(r.is_ok());
    assert_eq!(b.command.as_deref(), Some("main"));
    assert_eq!(b.command_prep.len(), 2);
    assert_eq!(b.command_clean.len(), 1);
    assert_eq!(b.command_prep[0].command.as_deref(), Some("first"));
    assert_eq!(b.command_prep[0].args, vec!["x"]);
    assert_eq!(b.command_prep[0].command_clean[0].command.as_deref(), Some("inner"));
    assert_eq!(b.command_prep[1].command.as_deref(), Some("second"));
    assert_eq!(b.command_clean[0].command.as_deref(), Some("c1"));
}

#[test]
fn end_stops_loading_and_reports_next_line() {
    let mut b = RunCmdBuilder::default();
    let l = lines("arg a\nend\narg b\n");
    let (r, next) = runcmd_from_lines("t", &mut b, &l, 0, &vec![], 0);
    assert!(r.is_ok());
    assert_eq!(next, 2);
    assert_eq!(b.args, vec!["a"]);
}

#[test]
fn each_error_variant() {
    let (_, r) = load("frobnicate now\n");
    assert!(matches!(r, Err(ConfigFromFileError::UnknownStatement(v)) if v == "frobnicate"));
    let (_, r) = load("uid abc\n");
    assert!(matches!(r, Err(ConfigFromFileError::CouldNotParseId(v)) if v == "abc"));
    let (_, r) = load("gid +\n");
    assert!(matches!(r, Err(ConfigFromFileError::CouldNotParseId(v)) if v == "+"));
    let (_, r) = load("gid\n");
    assert!(matches!(r, Err(ConfigFromFileError::MissingArgument(v)) if v == "gid"));
    let (_, r) = load("var H\n");
    assert!(matches!(r, Err(ConfigFromFileError::MissingArgument(v)) if v == "var"));
    let (_, r) = load("g+gid 4294967296\n");
    assert!(matches!(r, Err(ConfigFromFileError::CouldNotParseId(v)) if v == "4294967296"));
    let (_, r) = load("env+set NOEQUALS\n");
    assert!(matches!(r, Err(ConfigFromFileError::EnvAddWrongSyntax(v)) if v == "NOEQUALS"));
    let (_, r) = load("config missing\n");
    assert!(matches!(r, Err(ConfigFromFileError::IncludeCycle(v)) if v == "missing"));
    let mut b = RunCmdBuilder::default();
    let r = runcmd_from_file("missing", &mut b, &vec![], 3);
    assert!(matches!(r, Err(ConfigFromFileError::IoError(v)) if v == "missing"));
    let dir = vec![("locked".to_owned(), None)];
    let r = runcmd_from_file("locked", &mut b, &dir, 3);
    assert!(matches!(r, Err(ConfigFromFileError::IoError(v)) if v == "locked"));
}

#[test]
fn ids_are_read_like_u32() {
    let (b, r) = load("uid +7\ngid 0042\ng+gid 4294967295\n");
    assert!(r.is_ok());
    assert_eq!(b.user, Some(Ok(7)));
    assert_eq!(b.group, Some(Ok(42)));
    assert_eq!(b.groups, vec![Ok(4294967295)]);
    for bad in ["-1", "+", "", " 1", "1 ", "1_0", "0x10", "١"] {
        let (_, r) = load(&format!("uid {bad}\n"));
        assert!(r.is_err(), "{bad:?}");
        assert_eq!(bad.parse::<u32>().is_err(), true);
    }
}

#[test]
fn error_keeps_what_was_built() {
    let (b, r) = load("arg a\nuid x\narg b\n");
    assert!(r.is_err());
    assert_eq!(b.args, vec!["a"]);
    let (b, r) = load("arg a\ncmd-prep\ncommand p\nbogus\nend\narg b\n");
    assert!(r.is_err());
    assert_eq!(b.args, vec!["a"]);
    assert!(b.command_prep.is_empty());
}

#[test]
fn includes() {
    let dir = vec![
        ("base".to_owned(), Some("uid 1\narg from-base\nend\narg never\n".to_owned())),
        ("main".to_owned(), Some("command x\nconfig base\narg from-main\n".to_owned())),
        ("loop".to_owned(), Some("arg l\nconfig loop\n".to_owned())),
    ];
    let mut b = RunCmdBuilder::default();
    assert!(runcmd_from_file("main", &mut b, &dir, dir.len()).is_ok());
    assert_eq!(b.command.as_deref(), Some("x"));
    assert_eq!(b.user, Some(Ok(1)));
    assert_eq!(b.args, vec!["from-base", "from-main"]);
    let mut c = RunCmdBuilder::default();
    let r = runcmd_from_file("loop", &mut c, &dir, dir.len());
    assert!(matches!(r, Err(ConfigFromFileError::IncludeCycle(v)) if v == "loop"));
    assert_eq!(c.args, vec!["l", "l", "l"]);
}

#[test]
fn written_template_loads_as_itself() {
    let text = "# a template\nvar A set some text\nvar B from-cmd /bin/date\nvar C from-cmd-sh echo hi | tr a b\nvar D from-input d\nvar E from-input-or e fallback text\nvar F from-input-or-else f from-input-or g deep\nvar G con-id\nvar H from-input-or-else h con-id\nvar A set replaced\nallow policy file\ncommand /bin/echo\narg one\narg two words\nuid 1000\ngroup staff\ng+gid 5\ng+group wheel\nenv+set A=b=c\nenv+inherit HOME\nenv+inherit TERM=xterm\nworking-dir /tmp\ncmd-prep\ncommand prep\ncmd-clean\ncommand inner\nend\nuser bob\nend\ncmd-clean\nend\ncmd-prep\narg only\nend\n";
    let (first, r) = load(text);
    assert!(r.is_ok());
    let lines = first.serialize();
    assert_eq!(
        lines,
        vec![
            "var A set replaced",
            "var B from-cmd /bin/date",
            "var C from-cmd-sh echo hi | tr a b",
            "var D from-input d",
            "var E from-input-or e fallback text",
            "var F from-input-or-else f from-input-or g deep",
            "var G con-id",
            "var H from-input-or-else h con-id",
            "allow policy file",
            "cmd-prep",
            "cmd-clean",
            "command inner",
            "end",
            "command prep",
            "user bob",
            "end",
            "cmd-prep",
            "arg only",
            "end",
            "cmd-clean",
            "end",
            "command /bin/echo",
            "arg one",
            "arg two words",
            "uid 1000",
            "group staff",
            "g+gid 5",
            "g+group wheel",
            "env+set A=b=c",
            "env+inherit HOME",
            "env+inherit TERM=xterm",
            "working-dir /tmp",
        ]
    );
    let mut second = RunCmdBuilder::default();
    let (r, next) = runcmd_from_lines("t", &mut second, &lines, 0, &vec![], 0);
    assert!(r.is_ok());
    assert_eq!(next, lines.len());
    assert_eq!(second.serialize(), lines);
    assert_eq!(format!("{first:?}"), format!("{second:?}"));
    assert!(RunCmdBuilder::default().serialize().is_empty());
}

#[test]
fn a_verb_without_its_text_is_an_error() {
    for verb in [
        "var", "allow", "command", "arg", "uid", "user", "gid", "group", "g+gid", "g+group", "env+set",
        "env+inherit", "working-dir", "config",
    ] {
        for line in [verb.to_owned(), format!("{verb} ")] {
            let mut b = RunCmdBuilder::default();
            let lines = vec!["arg kept".to_owned(), line.clone(), "arg lost".to_owned()];
            let (r, next) = runcmd_from_lines("t", &mut b, &lines, 0, &vec![], 3);
            assert!(
                matches!(&r, Err(ConfigFromFileError::MissingArgument(v)) if v == verb),
                "{line:?} gave {r:?}"
            );
            assert_eq!(next, 2);
            assert_eq!(b.args, vec!["kept"]);
            assert!(b.command.is_none() && b.allow.is_none() && b.working_dir.is_none());
            assert!(b.user.is_none() && b.group.is_none());
            assert!(b.vars.is_empty() && b.groups.is_empty() && b.env.is_empty());
        }
    }
    for verb in ["args-clear", "g-clear", "env-clear", "cmd-prep", "cmd-clean", "end"] {
        let (_, r) = load(verb);
        assert!(r.is_ok(), "{verb}");
    }
}

#[test]
fn a_lone_verb_leaves_the_template_as_it_was() {
    for text in ["command", "allow", "var"] {
        let mut b = RunCmdBuilder::default();
        let (r, _) = runcmd_from_lines("t", &mut b, &vec![text.to_owned()], 0, &vec![], 0);
        assert!(matches!(r, Err(ConfigFromFileError::MissingArgument(v)) if v == text));
        assert_eq!(format!("{b:?}"), format!("{:?}", RunCmdBuilder::default()));
    }
}

#[test]
fn a_variable_needs_a_name_and_a_mode() {
    for text in ["var", "var ", "var NAME", "var NAME "] {
        let (b, r) = load(&format!("arg before\n{text}\narg after\n"));
        assert!(
            matches!(&r, Err(ConfigFromFileError::MissingArgument(v)) if v == "var"),
            "{text:?} gave {r:?}"
        );
        assert!(b.vars.is_empty());
        assert_eq!(b.args, vec!["before"]);
    }
    // the text after the mode may be left out where the mode takes any text
    let (b, r) = load("var A set\nvar B from-input\nvar C con-id\nvar D from-input-or d \n");
    assert!(r.is_ok());
    assert_eq!(b.vars.len(), 4);
    assert!(matches!(&b.vars[0].1, VarValue::Val(v) if v.is_empty()));
    assert!(matches!(&b.vars[1].1, VarValue::Input(v) if v.is_empty()));
}

#[test]
fn a_variable_that_binds_nothing_is_passed_over() {
    for text in [
        "var X bogus",
        "var X bogus with more",
        "var X sets x",
        "var J from-input-or",
        "var J from-input-or nodefault",
        "var J from-input-or-else",
        "var J from-input-or-else nodefault",
        "var K from-input-or-else k wrong",
        "var K from-input-or-else k from-input-or-else l wrong again",
        "var K from-input-or-else k from-input-or nodefault",
    ] {
        let (b, r) = load(&format!("var A set 1\narg before\n{text}\narg after\nvar Z con-id\n"));
        assert!(r.is_ok(), "{text:?} gave {r:?}");
        let names: Vec<&str> = b.vars.iter().map(|(n, _)| n.as_str()).collect();
        assert_eq!(names, vec!["A", "Z"], "{text:?}");
        assert_eq!(b.args, vec!["before", "after"]);
    }
    // a line that binds nothing leaves an earlier binding of the name as it was
    let (b, r) = load("var A set kept\nvar A bogus\n");
    assert!(r.is_ok());
    assert!(matches!(&b.vars[..], [(n, VarValue::Val(v))] if n == "A" && v == "kept"));
}

#[test]
fn names_of_variables_hold_no_white_space() {
    for name in ["", "a\tb", "\u{a0}", "a\u{2003}", "\u{3000}b", "x\u{b}", "\u{85}"] {
        let (b, r) = load(&format!("arg before\nvar {name} set v\narg after\n"));
        assert!(r.is_ok(), "{name:?} gave {r:?}");
        assert!(b.vars.is_empty(), "{name:?}");
        assert_eq!(b.args, vec!["before", "after"]);
    }
    for name in ["a", "A_b-c", "ünï", "a=b", "$x", "\u{200b}"] {
        let (b, r) = load(&format!("var {name} set v\n"));
        assert!(r.is_ok(), "{name:?}");
        assert_eq!(b.vars[0].0, name);
    }
}

#[test]
fn no_variable_is_bound_twice() {
    let (b, r) = load("var A set 1\nvar B set 2\nvar A set 3\nvar C con-id\nvar B from-input b\n");
    assert!(r.is_ok());
    let names: Vec<&str> = b.vars.iter().map(|(n, _)| n.as_str()).collect();
    assert_eq!(names, vec!["A", "B", "C"]);
    assert!(matches!(&b.vars[0].1, VarValue::Val(v) if v == "3"));
    assert!(matches!(&b.vars[1].1, VarValue::Input(v) if v == "b"));
}

#[test]
fn the_error_is_that_of_the_first_bad_line() {
    let cases: [(&str, fn(&ConfigFromFileError) -> bool); 4] = [
        ("frobnicate x", |e| matches!(e, ConfigFromFileError::UnknownStatement(v) if v == "frobnicate")),
        ("gid twelve", |e| matches!(e, ConfigFromFileError::CouldNotParseId(v) if v == "twelve")),
        ("env+set NOTHING", |e| matches!(e, ConfigFromFileError::EnvAddWrongSyntax(v) if v == "NOTHING")),
        ("user", |e| matches!(e, ConfigFromFileError::MissingArgument(v) if v == "user")),
    ];
    for (bad, is_it) in cases {
        let text = format!("arg one\nvar X bogus\n# note\n{bad}\narg two\nuid nothing\n");
        let mut b = RunCmdBuilder::default();
        let (r, next) = runcmd_from_lines("t", &mut b, &lines(&text), 0, &vec![], 0);
        assert!(matches!(&r, Err(e) if is_it(e)), "{bad:?} gave {r:?}");
        assert_eq!(next, 4);
        assert_eq!(b.args, vec!["one"]);
    }
    // what follows the `end` of the top level is not read
    let (b, r) = load("arg one\nend\nfrobnicate\n");
    assert!(r.is_ok());
    assert_eq!(b.args, vec!["one"]);
    // without a bad line, loading succeeds
    let (_, r) = load("arg one\nvar X bogus\nvar \t set x\nuid 1\ncmd-prep\ngid 2\nend\nenv+set A=\n");
    assert!(r.is_ok());
}
