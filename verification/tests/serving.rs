use d26run::config::{init, runcmd_from_lines, split_lines, Config, ConfigFromFileError, FileReport, Loading};
use d26run::pump::{read_stream, Pump};
use d26run::reply::{Reply, RunMode};
use d26run::run::{HostLog, HostRequest, ToRunCmdError};
use d26run::server::{handle_con, Action, Connection, Phase};
use d26run::template::RunCmdBuilder;
use std::sync::Arc;

fn template(text: &str) -> RunCmdBuilder {
    let mut b = RunCmdBuilder::default();
    let (r, _) = runcmd_from_lines("t", &mut b, &split_lines(text), 0, &vec![], 0);
    assert!(r.is_ok());
    b
}

fn config(templates: &[(&str, &str)]) -> Arc<Config> {
    Arc::new(Config {
        run_cmds: templates.iter().map(|(n, t)| (n.to_string(), template(t))).collect(),
        open_cmds: vec![],
    })
}

fn said(actions: &[Action]) -> String {
    let mut out = String::new();
    for a in actions {
        match a {
            Action::Say(r) => out.push_str(&r.text()),
            Action::End => out.push('\0'),
            _ => {}
        }
    }
    out
}

fn connect(c: Arc<Config>, id: u128) -> Connection {
    let (con, actions) = handle_con(c, id);
    assert_eq!(said(&actions), format!("{id}\n"));
    con
}

const ECHOER: &str = "command /bin/echo\narg hi\nuid 1000\ngid 1000\nallow self\n";

/// Takes a connection through the challenge up to the reading of the token.
fn challenge(con: Connection, line: &str, policy: &str, token: &str) -> Connection {
    let (con, actions) = con.on_line(line);
    match &actions[..] {
        [Action::PrepareToken(p, t)] => {
            assert_eq!(p, policy);
            assert_eq!(t, token);
        }
        other => panic!("unexpected {other:?}"),
    }
    let (con, actions) = con.on_token_prepared(true);
    assert_eq!(said(&actions), format!("auth wait {token}\n"));
    assert!(matches!(&actions[..], [Action::Say(_), Action::AwaitAuth]));
    let (con, actions) = con.on_auth_line("auth done\n");
    assert!(matches!(&actions[..], [Action::ReadToken(t)] if t == token));
    con
}

#[test]
fn greeting_is_the_id() {
    let con = connect(config(&[]), 340282366920938463463374607431768211455);
    assert!(matches!(con.phase, Phase::Idle));
    assert_eq!(con.auth_id, 0);
}

#[test]
fn list_names_each_template_and_its_policy() {
    let con = connect(config(&[("alpha", "allow a\n"), ("beta", "command x\n")]), 0);
    let (con, actions) = con.on_line("list-configs\n");
    assert_eq!(said(&actions), "listing configs; count: 2\nalpha\na\nbeta\n\n");
    let (_, actions) = con.on_line("list-configs  whatever\n");
    assert_eq!(said(&actions), "listing configs; count: 2\nalpha\na\nbeta\n\n");
}

#[test]
fn reload_is_requested_and_confirmed() {
    let con = connect(config(&[]), 1);
    let (_, actions) = con.on_line("reload-configs\n");
    assert!(matches!(&actions[..], [Action::RequestReload, Action::Say(Reply::ReloadRequested)]));
    assert_eq!(said(&actions), "reload-configs requested\n");
}

#[test]
fn unknown_lines_are_ignored() {
    let con = connect(config(&[]), 1);
    let (con, actions) = con.on_line("frobnicate\n");
    assert!(actions.is_empty());
    let (con, actions) = con.on_line("\n");
    assert!(actions.is_empty());
    let (con, actions) = con.on_line("set-var novalue\n");
    assert!(actions.is_empty());
    assert!(con.vars.is_empty());
}

#[test]
fn set_var_binds_and_rebinds() {
    let con = connect(config(&[]), 1);
    let (con, a) = con.on_line("set-var A one two\n");
    assert!(a.is_empty());
    let (con, _) = con.on_line("set-var B b\n");
    let (con, _) = con.on_line("set-var A again\n");
    assert_eq!(
        con.vars,
        vec![("A".to_owned(), "again".to_owned()), ("B".to_owned(), "b".to_owned())]
    );
}

#[test]
fn run_of_unknown_template() {
    let con = connect(config(&[("a", ECHOER)]), 1);
    let (con, _) = con.on_line("set-var A b\n");
    let (con, actions) = con.on_line("run nope\n");
    assert_eq!(said(&actions), "run unknown\n");
    assert!(con.vars.is_empty());
    assert!(matches!(con.phase, Phase::Idle));
}

#[test]
fn run_without_policy_is_denied() {
    let con = connect(config(&[("beta", "command x\nuid 1\ngid 1\n")]), 1);
    let (con, _) = con.on_line("set-var A b\n");
    let (con, actions) = con.on_line("run beta\n");
    assert_eq!(said(&actions), "auth deny error_undefined_allow\n");
    assert!(con.vars.is_empty());
}

#[test]
fn run_options_that_are_not_understood() {
    let c = config(&[("a", ECHOER)]);
    let try_line = |line: &str| {
        let con = connect(c.clone(), 1);
        let (con, _) = con.on_line("set-var A b\n");
        let (con, actions) = con.on_line(line);
        assert!(con.vars.is_empty());
        assert!(matches!(con.phase, Phase::Idle));
        said(&actions)
    };
    assert_eq!(
        try_line("run mode=fast a\n"),
        "run error_arg_value_invalid mode fast // try detach, wait, forward-output or forward-output-input. wait is default.\n"
    );
    assert_eq!(try_line("run mode a\n"), "run error_arg_no_value mode\n");
    assert_eq!(try_line("run speed=9 a\n"), "run error_invalid_arg speed\n");
    assert_eq!(try_line("run mode=wait,x a\n"), "run error_invalid_arg x\n");
    assert_eq!(try_line("run  a\n"), "run error_invalid_arg \n");
    assert_eq!(try_line("run mode=detach, a\n"), "run error_invalid_arg \n");
}

#[test]
fn unauthorized_run_is_denied() {
    let con = connect(config(&[("alpha", "command /bin/true\nuid 1000\ngid 1000\nallow a\n")]), 7);
    let (con, _) = con.on_line("set-var A b\n");
    let con = challenge(con, "run alpha\n", "/etc/d26run/allow/a", "/tmp/d26run-auth-7-1");
    let (con, actions) = con.on_token(Ok(vec![]));
    assert_eq!(said(&actions), "auth deny failed\n");
    assert!(con.vars.is_empty());
    assert!(matches!(con.phase, Phase::Idle));
    // the next run gets a token of its own
    let con = challenge(con, "run alpha\n", "/etc/d26run/allow/a", "/tmp/d26run-auth-7-2");
    let (_, actions) = con.on_token(Err("Permission denied\n(os error 13)".to_owned()));
    assert_eq!(said(&actions), "auth deny error Permission denied\\n(os error 13)\n");
}

#[test]
fn copy_failure_and_unexpected_answer_end_the_run() {
    let con = connect(config(&[("a", ECHOER)]), 3);
    let (con, _) = con.on_line("set-var A b\n");
    let (con, _) = con.on_line("run a\n");
    let (con, actions) = con.on_token_prepared(false);
    assert_eq!(said(&actions), "auth fail could_not_copy_auth_file\n");
    assert!(con.vars.is_empty());
    let (con, _) = con.on_line("set-var A b\n");
    let (con, _) = con.on_line("run a\n");
    let (con, _) = con.on_token_prepared(true);
    let (con, actions) = con.on_auth_line("auth maybe\n");
    assert_eq!(said(&actions), "unexpected_response auth done\n");
    assert!(con.vars.is_empty());
    assert!(matches!(con.phase, Phase::Idle));
}

#[test]
fn authorized_run_with_output() {
    let con = connect(config(&[("echoer", ECHOER)]), 5);
    let con = challenge(
        con,
        "run mode=forward-output echoer\n",
        "/etc/d26run/allow/self",
        "/tmp/d26run-auth-5-1",
    );
    let (con, actions) = con.on_token(Ok(b"auth\n".to_vec()));
    assert_eq!(said(&actions), "auth accept\nrun start\n");
    match &actions[..] {
        [Action::Say(Reply::AuthAccept), Action::Say(Reply::RunStart), Action::Start(cmd, mode)] => {
            assert_eq!(cmd.command, "/bin/echo");
            assert_eq!(cmd.args, vec!["hi"]);
            assert_eq!((cmd.user, cmd.group), (1000, 1000));
            assert_eq!(*mode, RunMode::ForwardOutput);
        }
        other => panic!("unexpected {other:?}"),
    }
    assert!(matches!(con.phase, Phase::Running));
    // the child writes `hi\n` and ends
    let mut out = Pump::new(false);
    let mut stream = out.feed(&b"hi\n".to_vec(), true);
    assert_eq!(stream, vec![3, b'h', b'i', b'\n']);
    let (con, actions) = con.on_run_ended();
    assert!(matches!(&actions[..], [Action::End]));
    stream.push(0);
    assert_eq!(read_stream(&stream), Some((b"hi\n".to_vec(), vec![])));
    assert!(matches!(con.phase, Phase::Idle));
}

#[test]
fn missing_input_is_reported_to_the_client() {
    let con = connect(
        config(&[("t", "var X from-input X\ncommand /bin/echo\narg X\nuid 1\ngid 1\nallow p\n")]),
        2,
    );
    let con = challenge(con, "run t\n", "/etc/d26run/allow/p", "/tmp/d26run-auth-2-1");
    let (con, actions) = con.on_token(Ok(b"auth".to_vec()));
    assert_eq!(
        said(&actions),
        "auth accept\nrun error_invalid_config: 1\n1\nvar: missing input 'X'\n"
    );
    assert!(matches!(con.phase, Phase::Idle));
    assert!(con.vars.is_empty());
}

#[test]
fn input_reaches_the_invocation_and_is_forgotten_after_the_run() {
    let con = connect(
        config(&[("t", "var X from-input X\ncommand /bin/echo\narg X\nuid 1\ngid 1\nallow p\n")]),
        2,
    );
    let (con, _) = con.on_line("set-var X hello there\n");
    let con = challenge(con, "run mode=wait t\n", "/etc/d26run/allow/p", "/tmp/d26run-auth-2-1");
    let (con, actions) = con.on_token(Ok(b" auth".to_vec()));
    match &actions[..] {
        [_, _, Action::Start(cmd, RunMode::Wait)] => assert_eq!(cmd.args, vec!["hello there"]),
        other => panic!("unexpected {other:?}"),
    }
    assert_eq!(con.vars.len(), 1);
    let (con, _) = con.on_run_ended();
    assert!(con.vars.is_empty());
}

#[test]
fn detached_run_ends_at_once_and_the_connection_goes_on() {
    let con = connect(config(&[("long-sleeper", "command /bin/sleep\narg 60\nuid 1\ngid 1\nallow p\n")]), 9);
    let con = challenge(con, "run mode=detach long-sleeper\n", "/etc/d26run/allow/p", "/tmp/d26run-auth-9-1");
    let (con, actions) = con.on_token(Ok(b"auth\n".to_vec()));
    assert_eq!(said(&actions), "auth accept\nrun start\n");
    assert!(matches!(&actions[..], [_, _, Action::Start(_, RunMode::Detach)]));
    let (con, actions) = con.on_run_ended();
    assert_eq!(said(&actions), "\0");
    let (_, actions) = con.on_line("list-configs\n");
    assert_eq!(said(&actions), "listing configs; count: 1\nlong-sleeper\np\n");
}

#[test]
fn resolution_asks_the_host_and_goes_on_with_its_answers() {
    let con = connect(
        config(&[(
            "t",
            "var D from-cmd /bin/date\ncommand /bin/echo\narg D\nuid 1\ngid 1\nallow p\ncmd-prep\ncommand /bin/mkdir\narg /tmp/D\nend\n",
        )]),
        4,
    );
    let con = challenge(con, "run t\n", "/etc/d26run/allow/p", "/tmp/d26run-auth-4-1");
    let (con, actions) = con.on_token(Ok(b"auth\n".to_vec()));
    assert!(matches!(
        &actions[..],
        [Action::Say(Reply::AuthAccept), Action::Host(HostRequest::Capture(p, a))] if p == "/bin/date" && a.is_empty()
    ));
    let (con, actions) = con.on_captured(Some("now".to_owned()));
    match &actions[..] {
        [Action::Host(HostRequest::RunPrep(c))] => {
            assert_eq!(c.command, "/bin/mkdir");
            assert_eq!(c.args, vec!["/tmp/now"]);
        }
        other => panic!("unexpected {other:?}"),
    }
    let (con, actions) = con.on_prep_ran();
    match &actions[..] {
        [Action::Say(Reply::RunStart), Action::Start(c, RunMode::Wait)] => assert_eq!(c.args, vec!["now"]),
        other => panic!("unexpected {other:?}"),
    }
    assert!(matches!(con.phase, Phase::Running));
}

#[test]
fn events_out_of_turn_change_nothing() {
    let con = connect(config(&[("a", ECHOER)]), 1);
    let (con, a) = con.on_token_prepared(true);
    assert!(a.is_empty());
    let (con, a) = con.on_auth_line("auth done");
    assert!(a.is_empty());
    let (con, a) = con.on_token(Ok(b"auth".to_vec()));
    assert!(a.is_empty());
    let (con, a) = con.on_captured(None);
    assert!(a.is_empty());
    let (con, a) = con.on_prep_ran();
    assert!(a.is_empty());
    let (con, a) = con.on_run_ended();
    assert!(a.is_empty());
    let (con, a) = con.advance();
    assert!(a.is_empty());
    assert!(matches!(con.phase, Phase::Idle));
    let (con, _) = con.on_line("run a\n");
    let (con, a) = con.on_line("list-configs\n");
    assert!(a.is_empty());
    assert!(matches!(con.phase, Phase::TokenFile(_, _)));
}

#[test]
fn a_connection_keeps_the_templates_it_was_accepted_with() {
    let first = config(&[("old", ECHOER)]);
    let con = connect(first.clone(), 1);
    let second = config(&[("new", ECHOER)]);
    let other = connect(second, 2);
    let (_, actions) = con.on_line("list-configs\n");
    assert_eq!(said(&actions), "listing configs; count: 1\nold\nself\n");
    let (_, actions) = other.on_line("list-configs\n");
    assert_eq!(said(&actions), "listing configs; count: 1\nnew\nself\n");
}

#[test]
fn directory_is_loaded_and_unfit_templates_are_left_out() {
    let dir = vec![
        ("good".to_owned(), Some(ECHOER.to_owned())),
        ("unreadable".to_owned(), None),
        ("broken".to_owned(), Some("bogus line\n".to_owned())),
        ("nocommand".to_owned(), Some("uid 1\ngid 1\n".to_owned())),
        ("later".to_owned(), Some("var X from-input X\nuser no-such-user-d26\ngid 1\ncommand X\n".to_owned())),
        ("nested".to_owned(), Some("command x\nuid 1\ngid 1\ncmd-clean\narg no-command\nend\n".to_owned())),
        ("including".to_owned(), Some("config good\narg more\n".to_owned())),
    ];
    let mut log = HostLog::new();
    let (c, reports) = match init(&dir, &mut log) {
        Loading::Finished(c, reports) => (c, reports),
        Loading::Pending(q) => panic!("pending {q:?}"),
    };
    let names: Vec<&str> = c.run_cmds.iter().map(|(n, _)| n.as_str()).collect();
    assert_eq!(names, vec!["good", "later", "including"]);
    assert_eq!(c.get("including").unwrap().args, vec!["hi", "more"]);
    assert!(c.get("broken").is_none());
    assert_eq!(log.ids, vec![None]);
    assert_eq!(reports.len(), dir.len());
    assert!(matches!(&reports[0], FileReport::Added(n, mild) if n == "good" && mild.is_empty()));
    assert!(matches!(
        &reports[1],
        FileReport::Skipped(n, ConfigFromFileError::IoError(f)) if n == "unreadable" && f == "unreadable"
    ));
    assert!(matches!(
        &reports[2],
        FileReport::Skipped(n, ConfigFromFileError::UnknownStatement(v)) if n == "broken" && v == "bogus"
    ));
    assert!(matches!(
        &reports[3],
        FileReport::Rejected(n, mild, fatal)
            if n == "nocommand" && mild.is_empty() && matches!(&fatal[..], [ToRunCmdError::MissingFieldCommand])
    ));
    match &reports[4] {
        FileReport::Added(n, mild) => {
            assert_eq!(n, "later");
            assert!(matches!(
                &mild[..],
                [ToRunCmdError::VarMissingInput(x), ToRunCmdError::UnknownUser(u)] if x == "X" && u == "no-such-user-d26"
            ));
        }
        other => panic!("unexpected {other:?}"),
    }
    assert!(matches!(
        &reports[5],
        FileReport::Rejected(n, _, fatal) if n == "nested" && matches!(&fatal[..], [ToRunCmdError::MissingFieldCommand])
    ));
    assert!(matches!(&reports[6], FileReport::Added(n, mild) if n == "including" && mild.is_empty()));
}

#[test]
fn a_file_with_a_lone_verb_is_skipped_and_the_others_are_loaded() {
    for bad in ["command\nuid 1\ngid 1\n", "command x\nuid 1\ngid 1\nallow\n", "var\ncommand x\nuid 1\ngid 1\n"] {
        let dir = vec![
            ("bad".to_owned(), Some(bad.to_owned())),
            ("good".to_owned(), Some("command x\nuid 1\ngid 1\n".to_owned())),
        ];
        let mut log = HostLog::new();
        match init(&dir, &mut log) {
            Loading::Finished(c, reports) => {
                assert!(c.get("bad").is_none());
                assert!(c.get("good").is_some());
                assert!(matches!(
                    &reports[0],
                    FileReport::Skipped(n, ConfigFromFileError::MissingArgument(_)) if n == "bad"
                ));
                assert!(matches!(&reports[1], FileReport::Added(n, _) if n == "good"));
            }
            Loading::Pending(q) => panic!("pending {q:?}"),
        }
    }
}

#[test]
fn loading_asks_for_command_output() {
    let dir = vec![("t".to_owned(), Some("var D from-cmd date\ncommand D\nuid 1\ngid 1\n".to_owned()))];
    let mut log = HostLog::new();
    assert!(matches!(init(&dir, &mut log), Loading::Pending(HostRequest::Capture(p, _)) if p == "date"));
    log.record_captured(None);
    match init(&dir, &mut log) {
        Loading::Finished(c, _) => assert_eq!(c.run_cmds.len(), 1),
        other => panic!("unexpected {other:?}"),
    }
}
