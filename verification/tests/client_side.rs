use d26run::client::{list_count, print_line, read_count, run_lines, Con, ConInitErr, ConRunErr, Dialog, Failure, Task};
use d26run::reply::RunMode;

fn vars(p: &[(&str, &str)]) -> Vec<(String, String)> {
    p.iter().map(|(a, b)| (a.to_string(), b.to_string())).collect()
}

#[test]
fn connection_is_set_up_from_the_greeting() {
    let con = Con::init(Ok("17".to_owned())).unwrap();
    assert_eq!(con.id, 17);
    assert_eq!(con.client_dir, "/tmp/d26run-client-17/");
    assert!(matches!(Con::init(Ok("seventeen".to_owned())), Err(ConInitErr::BadGreeting(l)) if l == "seventeen"));
    assert!(matches!(Con::init(Ok("17\n".to_owned())), Err(ConInitErr::BadGreeting(_))));
    assert!(matches!(
        Con::init(Err("No such file or directory".to_owned())),
        Err(ConInitErr::CouldNotConnectToSocket(w)) if w == "No such file or directory"
    ));
}

#[test]
fn run_is_asked_for_with_variables_first() {
    let lines = run_lines("cfg", &vars(&[("A", "1"), ("has space", "x"), ("B", "two words")]), None);
    assert_eq!(lines, vec!["set-var A 1\n", "set-var B two words\n", "run cfg\n"]);
    assert_eq!(run_lines("cfg", &vec![], Some(RunMode::Detach)), vec!["run mode=detach cfg\n"]);
    assert_eq!(run_lines("cfg", &vec![], Some(RunMode::Wait)), vec!["run mode=wait cfg\n"]);
    assert_eq!(run_lines("cfg", &vec![], Some(RunMode::ForwardOutput)), vec!["run mode=forward-output cfg\n"]);
    assert_eq!(
        run_lines("cfg", &vec![], Some(RunMode::ForwardInputOutput)),
        vec!["run mode=forward-output-input cfg\n"]
    );
}

#[test]
fn counts_are_read_after_their_prefix() {
    assert_eq!(list_count("listing configs; count: 2"), Some(2));
    assert_eq!(list_count("listing configs; count:  12 "), Some(12));
    assert_eq!(list_count("listing configs; count: "), None);
    assert_eq!(list_count("listing configs; count: x"), None);
    assert_eq!(list_count("listing configs: 2"), None);
    assert_eq!(read_count("run error_invalid_config: 3", "run error_invalid_config: "), Some(3));
    assert_eq!(print_line(0, "var: missing input 'X'"), "1 | var: missing input 'X'");
    assert_eq!(print_line(9, ""), "10 | ");
}

#[test]
fn a_run_with_output() {
    let (d, tasks) = Dialog::begin("echoer", &vars(&[("X", "1")]), Some(RunMode::ForwardOutput));
    assert!(matches!(
        &tasks[..],
        [Task::Send(a), Task::Send(b), Task::ReadLine] if a == "set-var X 1\n" && b == "run mode=forward-output echoer\n"
    ));
    let (d, tasks) = d.on_line("auth wait /tmp/d26run-auth-5-1");
    assert!(matches!(&tasks[..], [Task::WriteToken(p, b)] if p == "/tmp/d26run-auth-5-1" && b == b"auth\n"));
    let (d, tasks) = d.on_token_written(Ok(()));
    assert!(matches!(&tasks[..], [Task::Send(s), Task::ReadLine] if s == "auth done\n"));
    let (d, tasks) = d.on_line("auth accept");
    assert!(matches!(&tasks[..], [Task::ReadLine]));
    let (d, tasks) = d.on_line("run start");
    assert!(matches!(&tasks[..], [Task::ReadHeader]));
    let (d, tasks) = d.on_header(3);
    assert!(matches!(&tasks[..], [Task::ReadPayload(3)]));
    let (d, tasks) = d.on_payload(b"hi\n".to_vec());
    assert!(matches!(&tasks[..], [Task::WriteOut(b), Task::ReadHeader] if b == b"hi\n"));
    let (d, tasks) = d.on_header(128 + 2);
    assert!(matches!(&tasks[..], [Task::ReadPayload(2)]));
    let (d, tasks) = d.on_payload(b"no".to_vec());
    assert!(matches!(&tasks[..], [Task::WriteErr(b), Task::ReadHeader] if b == b"no"));
    let (d, tasks) = d.on_header(0);
    assert!(matches!(&tasks[..], [Task::Shutdown]));
    assert!(matches!(d, Dialog::Over));
}

#[test]
fn a_run_that_does_not_resolve() {
    let (d, _) = Dialog::begin("t", &vec![], None);
    let (d, _) = d.on_line("auth wait /tmp/x");
    let (d, _) = d.on_token_written(Ok(()));
    let (d, _) = d.on_line("auth accept");
    let (d, tasks) = d.on_line("run error_invalid_config: 2");
    assert!(matches!(&tasks[..], [Task::ReadLine]));
    let (d, tasks) = d.on_line("2");
    assert!(matches!(&tasks[..], [Task::ReadLine]));
    let (d, tasks) = d.on_line("first line");
    assert!(matches!(&tasks[..], [Task::Print(l), Task::ReadLine] if l == "1 | first line"));
    let (d, tasks) = d.on_line("second line");
    assert!(matches!(&tasks[..], [Task::Print(l), Task::ReadLine] if l == "1 | second line"));
    let (d, tasks) = d.on_line("1");
    assert!(matches!(&tasks[..], [Task::ReadLine]));
    let (d, tasks) = d.on_line("var: missing input 'X'");
    assert!(matches!(
        &tasks[..],
        [Task::Print(l), Task::Fail(Failure::InvalidConfig(2))] if l == "2 | var: missing input 'X'"
    ));
    assert!(matches!(d, Dialog::Over));
}

#[test]
fn each_failure() {
    let (d, _) = Dialog::begin("t", &vec![], None);
    let (_, tasks) = d.on_line("run unknown");
    assert!(matches!(&tasks[..], [Task::Fail(Failure::ExpectedAuthWait(l))] if l == "run unknown"));

    let (d, _) = Dialog::begin("t", &vec![], None);
    let (d, _) = d.on_line("auth wait /tmp/x");
    let (_, tasks) = d.on_token_written(Err("Permission denied".to_owned()));
    match tasks.into_iter().next() {
        Some(Task::Fail(f)) => {
            assert!(matches!(&f, Failure::FailedToEditFileForAuth(p, w) if p == "/tmp/x" && w == "Permission denied"));
            assert!(matches!(
                f.run_err(),
                Some(ConRunErr::FailedToEditFileForAuth(p, w)) if p == "/tmp/x" && w == "Permission denied"
            ));
        }
        other => panic!("unexpected {other:?}"),
    }

    let (d, _) = Dialog::begin("t", &vec![], None);
    let (d, _) = d.on_line("auth wait /tmp/x");
    let (d, _) = d.on_token_written(Ok(()));
    let (_, tasks) = d.on_line("auth deny failed");
    match tasks.into_iter().next() {
        Some(Task::Fail(f)) => {
            assert!(matches!(&f, Failure::ExpectedAccept(l) if l == "auth deny failed"));
            assert!(f.run_err().is_none());
        }
        other => panic!("unexpected {other:?}"),
    }

    let start = || {
        let (d, _) = Dialog::begin("t", &vec![], None);
        let (d, _) = d.on_line("auth wait /tmp/x");
        let (d, _) = d.on_token_written(Ok(()));
        d.on_line("auth accept").0
    };
    let (_, tasks) = start().on_line("run error_invalid_config: many");
    assert!(matches!(&tasks[..], [Task::Fail(Failure::BadCount(_))]));
    let (_, tasks) = start().on_line("run error_invalid_config: 0");
    assert!(matches!(&tasks[..], [Task::Fail(Failure::InvalidConfig(0))]));
    let (d, _) = start().on_line("run error_invalid_config: 1");
    let (_, tasks) = d.on_line("x");
    assert!(matches!(&tasks[..], [Task::Fail(Failure::BadCount(l))] if l == "x"));
    let (d, _) = start().on_line("run error_invalid_config: 1");
    let (_, tasks) = d.on_line("0");
    assert!(matches!(&tasks[..], [Task::Fail(Failure::InvalidConfig(1))]));
    // anything else after the accept is taken for the start of the stream
    let (d, tasks) = start().on_line("something else");
    assert!(matches!(&tasks[..], [Task::ReadHeader]));
    assert!(matches!(d, Dialog::AwaitHeader));
}

#[test]
fn events_out_of_turn_are_ignored() {
    let (d, _) = Dialog::begin("t", &vec![], None);
    let (d, t) = d.on_header(3);
    assert!(t.is_empty());
    let (d, t) = d.on_payload(vec![1]);
    assert!(t.is_empty());
    let (d, t) = d.on_token_written(Ok(()));
    assert!(t.is_empty());
    assert!(matches!(d, Dialog::AwaitAuthWait));
    let (d, t) = Dialog::<String>::Over.on_line("x");
    assert!(t.is_empty());
    assert!(matches!(d, Dialog::Over));
}

#[test]
fn listing_is_read_into_pairs() {
    let con = Con::init(Ok("1".to_owned())).unwrap();
    let lines = |l: &[&str]| l.iter().map(|s| s.to_string()).collect::<Vec<_>>();
    assert_eq!(
        con.list(&lines(&["listing configs; count: 2", "alpha", "a", "beta", ""])),
        Some(vec![("alpha".to_owned(), "a".to_owned()), ("beta".to_owned(), String::new())])
    );
    assert_eq!(con.list(&lines(&["listing configs; count: 0"])), Some(vec![]));
    assert_eq!(con.list(&lines(&["listing configs; count: 1", "alpha"])), None);
    assert_eq!(con.list(&lines(&["listing configs; count: 1", "alpha", "a", "b"])), None);
    assert_eq!(con.list(&lines(&["listing configs; count: 1", "alpha", "a", "b", "c"])), None);
    assert_eq!(con.list(&lines(&["listing: 1", "alpha", "a"])), None);
    assert_eq!(con.list(&lines(&[])), None);
    assert_eq!(con.list_request(), "list-configs\n");
    assert_eq!(con.reload_request(), "reload-configs\n");
    assert!(con.reload_configs("reload-configs requested"));
    assert!(!con.reload_configs("reload-configs requested\n"));
    assert!(!con.reload_configs(""));
    let (d, tasks) = con.run("cfg", &vec![], None);
    assert!(matches!(d, Dialog::AwaitAuthWait));
    assert!(matches!(&tasks[..], [Task::Send(l), Task::ReadLine] if l == "run cfg\n"));
}

#[test]
fn the_token_that_a_client_writes_is_accepted() {
    let d = Dialog::begin("cfg", &vec![], None).0;
    let (_, tasks) = d.on_line("auth wait /tmp/d26run-auth-9-3");
    let [Task::WriteToken(path, bytes)] = &tasks[..] else {
        panic!("expected the token to be written, got {tasks:?}");
    };
    assert_eq!(path, "/tmp/d26run-auth-9-3");
    assert_eq!(bytes, &vec![b'a', b'u', b't', b'h', b'\n']);
    assert_eq!(bytes, &d26run::auth::token_bytes());
    assert!(d26run::auth::token_accepted(bytes));
}

#[test]
fn requests_reach_the_broker_as_it_reads_them() {
    let con = Con::init(Ok("3".to_owned())).unwrap();
    let config = std::sync::Arc::new(d26run::config::Config { run_cmds: vec![], open_cmds: vec![] });
    let (server, _) = d26run::server::handle_con(config, 3);
    let (server, actions) = server.on_line(&con.list_request());
    assert!(matches!(&actions[..], [d26run::server::Action::Say(r)] if r.text() == "listing configs; count: 0\n"));
    let (_, actions) = server.on_line(&con.reload_request());
    assert!(matches!(
        &actions[..],
        [d26run::server::Action::RequestReload, d26run::server::Action::Say(r)] if r.text() == "reload-configs requested\n"
    ));
}
