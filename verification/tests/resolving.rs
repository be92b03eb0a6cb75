use d26run::config::{runcmd_from_lines, split_lines};
use d26run::run::{HostLog, HostRequest, Resolution, ToRunCmdError, Verification};
use d26run::template::{RunCmd, RunCmdBuilder, ToRunCmdInfo, VarValue};

fn template(text: &str) -> RunCmdBuilder {
    let mut b = RunCmdBuilder::default();
    let (r, _) = runcmd_from_lines("t", &mut b, &split_lines(text), 0, &vec![], 0);
    assert!(r.is_ok());
    b
}

fn vars(p: &[(&str, &str)]) -> Vec<(String, String)> {
    p.iter().map(|(a, b)| (a.to_string(), b.to_string())).collect()
}

fn finished(r: Resolution) -> Result<RunCmd, Vec<ToRunCmdError>> {
    match r {
        Resolution::Finished(r) => r,
        Resolution::Pending(q) => panic!("still pending: {q:?}"),
    }
}

fn messages(r: Result<RunCmd, Vec<ToRunCmdError>>) -> Vec<String> {
    match r {
        Ok(c) => panic!("resolved: {c:?}"),
        Err(es) => es.iter().map(|e| e.message()).collect(),
    }
}

const INFO: ToRunCmdInfo = ToRunCmdInfo { con_id: 42 };

#[test]
fn plain_template_resolves_at_once() {
    let t = template("command /bin/echo\narg hi\nuid 1000\ngid 1000\nallow self\ng+gid 5\nworking-dir /tmp\nenv+set A=b\nenv+inherit HOME\nenv+inherit T=x\n");
    let mut log = HostLog::new();
    let c = finished(t.to_runcmd(&vec![], &INFO, &mut log)).unwrap();
    assert_eq!(c.command, "/bin/echo");
    assert_eq!(c.args, vec!["hi"]);
    assert_eq!((c.user, c.group), (1000, 1000));
    assert_eq!(c.groups, vec![5]);
    assert_eq!(c.working_dir.as_deref(), Some("/tmp"));
    assert_eq!(
        c.env,
        vec![
            ("A".to_owned(), Ok("b".to_owned())),
            ("HOME".to_owned(), Err(None)),
            ("T".to_owned(), Err(Some("x".to_owned()))),
        ]
    );
    assert!(c.command_clean.is_empty());
    assert!(log.ids.is_empty() && log.captured.is_empty() && log.preps_run == 0);
}

#[test]
fn variables_are_replaced_in_every_field() {
    let t = template(
        "var X set val\nvar ID con-id\nvar IN from-input who\nvar DEF from-input-or nope dflt\ncommand /bin/X\narg X-ID\narg IN/DEF\nuid 1\ngid 2\nworking-dir /X\nenv+set X=X\nenv+inherit X=ID\n",
    );
    let mut log = HostLog::new();
    let c = finished(t.to_runcmd(&vars(&[("who", "me")]), &INFO, &mut log)).unwrap();
    assert_eq!(c.command, "/bin/val");
    assert_eq!(c.args, vec!["val-42", "me/dflt"]);
    assert_eq!(c.working_dir.as_deref(), Some("/val"));
    assert_eq!(
        c.env,
        vec![
            ("val".to_owned(), Ok("val".to_owned())),
            ("val".to_owned(), Err(Some("42".to_owned()))),
        ]
    );
}

#[test]
fn missing_input_is_reported() {
    let t = template("var X from-input X\ncommand /bin/echo\narg X\nuid 1\ngid 1\n");
    let mut log = HostLog::new();
    let m = messages(finished(t.to_runcmd(&vec![], &INFO, &mut log)));
    assert_eq!(m, vec!["var: missing input 'X'"]);
}

#[test]
fn missing_fields_are_reported_in_order() {
    let t = template("arg x\n");
    let mut log = HostLog::new();
    let m = messages(finished(t.to_runcmd(&vec![], &INFO, &mut log)));
    assert_eq!(
        m,
        vec!["missing field 'command'", "missing field 'user'", "missing field 'group'"]
    );
}

#[test]
fn command_output_is_asked_for_and_used() {
    let t = template("var OUT from-cmd-sh echo hi\nvar B from-cmd /bin/date\ncommand OUT\narg B\nuid 1\ngid 1\n");
    let mut log = HostLog::new();
    match t.to_runcmd(&vec![], &INFO, &mut log) {
        Resolution::Pending(HostRequest::Capture(p, a)) => {
            assert_eq!(p, "sh");
            assert_eq!(a, vec!["-c", "echo hi"]);
        }
        other => panic!("unexpected {other:?}"),
    }
    log.record_captured(Some("hi\n".to_owned()));
    match t.to_runcmd(&vec![], &INFO, &mut log) {
        Resolution::Pending(HostRequest::Capture(p, a)) => {
            assert_eq!(p, "/bin/date");
            assert!(a.is_empty());
        }
        other => panic!("unexpected {other:?}"),
    }
    log.record_captured(None);
    let m = messages(finished(t.to_runcmd(&vec![], &INFO, &mut log)));
    assert_eq!(m, vec!["var: failed to run command \"/bin/date\" with args []"]);
    log.captured[1] = Some("today".to_owned());
    let c = finished(t.to_runcmd(&vec![], &INFO, &mut log)).unwrap();
    assert_eq!(c.command, "hi\n");
    assert_eq!(c.args, vec!["today"]);
}

#[test]
fn failed_command_message_quotes_its_arguments() {
    let e = ToRunCmdError::VarFailedToRun("sh".to_owned(), vec!["-c".to_owned(), "a \"b\"\n".to_owned()]);
    assert_eq!(e.message(), "var: failed to run command \"sh\" with args [\"-c\", \"a \\\"b\\\"\\n\"]");
    assert_eq!(e.message(), format!("var: failed to run command {:?} with args {:?}", "sh", vec!["-c", "a \"b\"\n"]));
    assert_eq!(ToRunCmdError::UnknownUser("bob".into()).message(), "unknown user 'bob' (couldn't find uid)!");
    assert_eq!(ToRunCmdError::UnknownGroup("g".into()).message(), "unknown group 'g' (couldn't find gid)!");
    assert_eq!(ToRunCmdError::VarMissingInput("X".into()).message(), "var: missing input 'X'");
    assert_eq!(ToRunCmdError::MissingFieldCommand.message(), "missing field 'command'");
    assert_eq!(ToRunCmdError::MissingFieldUser.message(), "missing field 'user'");
    assert_eq!(ToRunCmdError::MissingFieldGroup.message(), "missing field 'group'");
}

#[test]
fn input_default_runs_its_command_only_when_needed() {
    let mut t = RunCmdBuilder::default();
    t.vars.push((
        "V".to_owned(),
        VarValue::InputOrDefault("v".to_owned(), Box::new(VarValue::OutputOf("x".to_owned(), vec![]))),
    ));
    t.command = Some("V".to_owned());
    t.user = Some(Ok(1));
    t.group = Some(Ok(1));
    let mut log = HostLog::new();
    let c = finished(t.to_runcmd(&vars(&[("v", "given")]), &INFO, &mut log)).unwrap();
    assert_eq!(c.command, "given");
    assert!(matches!(
        t.to_runcmd(&vec![], &INFO, &mut log),
        Resolution::Pending(HostRequest::Capture(_, _))
    ));
}

#[test]
fn names_are_looked_up_on_the_host() {
    let t = template("command x\nuser root\ngroup root\ng+group root\n");
    let mut log = HostLog::new();
    let c = finished(t.to_runcmd(&vec![], &INFO, &mut log)).unwrap();
    assert_eq!((c.user, c.group), (0, 0));
    assert_eq!(c.groups, vec![0]);
    assert_eq!(log.ids, vec![Some(0), Some(0), Some(0)]);
}

#[test]
fn unknown_names_are_reported_with_the_name_after_substitution() {
    let t = template("var N set no-such-user-d26\ncommand x\nuser N\ngroup N-group\n");
    let mut log = HostLog::new();
    let m = messages(finished(t.to_runcmd(&vec![], &INFO, &mut log)));
    assert_eq!(
        m,
        vec![
            "unknown user 'no-such-user-d26' (couldn't find uid)!",
            "unknown group 'no-such-user-d26-group' (couldn't find gid)!"
        ]
    );
    assert_eq!(log.ids, vec![None, None]);
}

#[test]
fn recorded_ids_are_used_as_they_stand() {
    let t = template("command x\nuser alice\ngroup staff\n");
    let log = HostLog { captured: vec![], preps_run: 0, ids: vec![Some(7), Some(8)] };
    let c = finished(t.to_runcmd_wrapper(&vec![], &INFO, &vec![], false, &log)).unwrap();
    assert_eq!((c.user, c.group), (7, 8));
    let short = HostLog { captured: vec![], preps_run: 0, ids: vec![Some(7)] };
    match t.to_runcmd_wrapper(&vec![], &INFO, &vec![], false, &short) {
        Resolution::Pending(HostRequest::FindGroup(n)) => assert_eq!(n, "staff"),
        other => panic!("unexpected {other:?}"),
    }
    let none = HostLog::new();
    match t.to_runcmd_wrapper(&vec![], &INFO, &vec![], false, &none) {
        Resolution::Pending(HostRequest::FindUser(n)) => assert_eq!(n, "alice"),
        other => panic!("unexpected {other:?}"),
    }
}

#[test]
fn group_comes_from_the_group_field() {
    let t = template("command x\nuid 11\ngid 22\n");
    let mut log = HostLog::new();
    let c = finished(t.to_runcmd(&vec![], &INFO, &mut log)).unwrap();
    assert_eq!((c.user, c.group), (11, 22));
    let t = template("command x\nuid 11\n");
    let m = messages(finished(t.to_runcmd(&vec![], &INFO, &mut log)));
    assert_eq!(m, vec!["missing field 'group'"]);
}

#[test]
fn prep_is_resolved_then_run_before_the_fields() {
    let t = template("var A set 1\ncommand main-A\nuid 1\ngid 2\ncmd-prep\nvar B set 2\ncommand prep-A-B\nend\ncmd-prep\ncommand second\narg A\nend\n");
    let mut log = HostLog::new();
    match t.to_runcmd(&vec![], &INFO, &mut log) {
        Resolution::Pending(HostRequest::RunPrep(c)) => {
            assert_eq!(c.command, "prep-1-2");
            assert_eq!((c.user, c.group), (1, 2));
        }
        other => panic!("unexpected {other:?}"),
    }
    log.record_prep_run();
    match t.to_runcmd(&vec![], &INFO, &mut log) {
        Resolution::Pending(HostRequest::RunPrep(c)) => {
            assert_eq!(c.command, "second");
            assert_eq!(c.args, vec!["1"]);
        }
        other => panic!("unexpected {other:?}"),
    }
    log.record_prep_run();
    let c = finished(t.to_runcmd(&vec![], &INFO, &mut log)).unwrap();
    assert_eq!(c.command, "main-1");
}

#[test]
fn a_check_does_not_run_preps() {
    let t = template("command main\nuid 1\ngid 2\ncmd-prep\ncommand prep\nend\n");
    let mut log = HostLog::new();
    let c = finished(t.to_runcmd_check(&vec![], &INFO, &mut log)).unwrap();
    assert_eq!(c.command, "main");
    assert_eq!(log.preps_run, 0);
}

#[test]
fn failing_prep_ends_a_run_but_not_a_check() {
    let t = template("uid 1\ngid 2\ncmd-prep\nvar X from-input X\ncommand p\nend\n");
    let mut log = HostLog::new();
    let m = messages(finished(t.to_runcmd(&vec![], &INFO, &mut log)));
    assert_eq!(m, vec!["var: missing input 'X'"]);
    let m = messages(finished(t.to_runcmd_check(&vec![], &INFO, &mut log)));
    assert_eq!(m, vec!["var: missing input 'X'", "missing field 'command'"]);
}

#[test]
fn clean_templates_become_clean_invocations() {
    let t = template("var A set 1\ncommand main\nuid 1\ngid 2\ncmd-clean\ncommand c-A\nend\ncmd-clean\nvar X from-input X\ncommand broken\nend\ncmd-clean\nvar A set own\ncommand c-A\nuid 9\nend\n");
    let mut log = HostLog::new();
    let m = messages(finished(t.to_runcmd(&vec![], &INFO, &mut log)));
    assert_eq!(m, vec!["var: missing input 'X'"]);
    let c = finished(t.to_runcmd(&vars(&[("X", "x")]), &INFO, &mut log)).unwrap();
    let clean: Vec<(&str, u32, u32)> =
        c.command_clean.iter().map(|c| (c.command.as_str(), c.user, c.group)).collect();
    assert_eq!(clean, vec![("c-1", 1, 2), ("broken", 1, 2), ("c-own", 9, 2)]);
}

#[test]
fn existing_variables_yield_to_own_ones_and_all_are_sorted() {
    let t = template("var B set own\ncommand A-B-C\nuid 1\ngid 1\n");
    let mut log = HostLog::new();
    let existing = vars(&[("C", "c"), ("B", "outer"), ("A", "a")]);
    let c = finished(t.to_runcmd_with_existing_vars(&vec![], &INFO, &existing, &mut log)).unwrap();
    assert_eq!(c.command, "a-own-c");
    let t = template("var ab set 2\nvar b set 1\ncommand ab\nuid 1\ngid 1\n");
    let c = finished(t.to_runcmd(&vec![], &INFO, &mut log)).unwrap();
    // sorted by name, `ab` comes before `b` and wins
    assert_eq!(c.command, "2");
    let t = template("var b set 1\nvar ab set 2\ncommand ab\nuid 1\ngid 1\n");
    let c = finished(t.to_runcmd(&vec![], &INFO, &mut log)).unwrap();
    assert_eq!(c.command, "2");
}

#[test]
fn verify_parts_errors_by_kind() {
    let t = template("var X from-input X\nuser no-such-user-d26\ncommand x\n");
    let mut log = HostLog::new();
    match t.verify(&INFO, &mut log) {
        Verification::Finished(nf, Err(fatal)) => {
            let nf: Vec<String> = nf.iter().map(|e| e.message()).collect();
            let fatal: Vec<String> = fatal.iter().map(|e| e.message()).collect();
            assert_eq!(
                nf,
                vec!["var: missing input 'X'", "unknown user 'no-such-user-d26' (couldn't find uid)!"]
            );
            assert_eq!(fatal, vec!["missing field 'group'"]);
        }
        other => panic!("unexpected {other:?}"),
    }
    let t = template("var X from-input X\nuid 1\ngid 1\ncommand x\n");
    match t.verify(&INFO, &mut log) {
        Verification::Finished(nf, Ok(())) => assert_eq!(nf.len(), 1),
        other => panic!("unexpected {other:?}"),
    }
    let t = template("uid 1\ngid 1\ncommand x\n");
    assert!(matches!(t.verify(&INFO, &mut log), Verification::Finished(nf, Ok(())) if nf.is_empty()));
}

#[test]
fn the_order_of_existing_variables_does_not_matter() {
    let t = template("var own set mine\nvar b set shadow\ncommand a-ab-b-own-c\narg ab\narg ba\nuid 1\ngid 1\ncmd-clean\ncommand c-a\nend\n");
    let pairs = [("a", "1"), ("ab", "2"), ("b", "3"), ("c", "4")];
    let mut orders: Vec<Vec<(&str, &str)>> = Vec::new();
    for i in 0..4 {
        for j in 0..4 {
            for k in 0..4 {
                for l in 0..4 {
                    let order = [i, j, k, l];
                    if (0..4).all(|n| order.contains(&n)) {
                        orders.push(order.iter().map(|n| pairs[*n]).collect());
                    }
                }
            }
        }
    }
    assert_eq!(orders.len(), 24);
    let mut seen: Vec<String> = Vec::new();
    for order in &orders {
        for check in [false, true] {
            let mut log = HostLog::new();
            let r = t.to_runcmd_with_lookups(&vec![], &INFO, &vars(order), check, &mut log);
            let c = finished(r).unwrap();
            // `a` is complete before `ab` is, so `ab` is never replaced as a whole
            assert_eq!(c.command, "1-1shadow-shadow-mine-4");
            assert_eq!(c.args, vec!["1shadow", "shadow1"]);
            assert_eq!(c.command_clean[0].command, "4-1");
            seen.push(format!("{c:?}"));
        }
    }
    assert!(seen.iter().all(|s| s == &seen[0]));
}

#[test]
fn a_refusal_names_an_error() {
    for text in ["", "command x\n", "uid 1\ngid 1\n", "command x\nuid 1\ngid 1\ncmd-prep\nend\n", "var X from-input X\ncommand x\nuid 1\ngid 1\n"] {
        let t = template(text);
        for check in [false, true] {
            let mut log = HostLog::new();
            match finished(t.to_runcmd_with_lookups(&vec![], &INFO, &vec![], check, &mut log)) {
                Ok(c) => panic!("{text:?} resolved: {c:?}"),
                Err(errors) => assert!(!errors.is_empty(), "{text:?}"),
            }
        }
    }
}

#[test]
fn the_log_records_answers_in_order() {
    let mut log = HostLog::new();
    log.record_captured(Some("one".to_owned()));
    log.record_captured(None);
    log.record_prep_run();
    log.record_prep_run();
    assert_eq!(log.captured, vec![Some("one".to_owned()), None]);
    assert_eq!(log.preps_run, 2);
    assert!(log.ids.is_empty());
    log.preps_run = usize::MAX;
    log.record_prep_run();
    assert_eq!(log.preps_run, usize::MAX);
}
