use d26run::auth::{policy_path, token_accepted, token_path};
use d26run::number::{decimal, parse_number};
use d26run::reload::{ReloadClock, MIN_RELOAD_INTERVAL};
use d26run::reply::{mode_from_flag, mode_of, Reply, RunMode};
use d26run::run::ToRunCmdError;
use d26run::runner::{child_env, Runner};
use d26run::script::{find_chars, parse_expression_split_at_operator};
use d26run::template::RunCmd;
use d26run::text::{is_whitespace, split_once, string_of, to_chars, trim, trim_end_newline};

#[test]
fn token_and_policy_paths() {
    assert_eq!(token_path(0, 1), "/tmp/d26run-auth-0-1");
    assert_eq!(token_path(12, 345), "/tmp/d26run-auth-12-345");
    assert_eq!(
        token_path(u128::MAX, u64::MAX),
        "/tmp/d26run-auth-340282366920938463463374607431768211455-18446744073709551615"
    );
    assert_eq!(policy_path("self"), "/etc/d26run/allow/self");
    assert_eq!(policy_path(""), "/etc/d26run/allow/");
}

#[test]
fn token_must_hold_the_word_with_at_most_white_space_around() {
    for good in ["auth", "auth\n", "auth ", " auth", "\nauth", "auth\t", "auth\r", "auth\nmore", "auth\x0b", "\x0cauth"] {
        assert!(token_accepted(&good.as_bytes().to_vec()), "{good:?}");
    }
    for bad in ["", "aut", "Auth", "auth!", "authx", "xauth", "  auth", "auth\0", "a u t h", "autho", "au\nth"] {
        assert!(!token_accepted(&bad.as_bytes().to_vec()), "{bad:?}");
    }
    assert!(!token_accepted(&vec![b'a', b'u', b't', b'h', 0xff]));
    assert!(!token_accepted(&vec![0xc2, b'a', b'u', b't', b'h']));
    // agrees with reading five bytes as text and trimming
    for bytes in [&b"auth\n"[..], b"auth", b" auth", b"auth\x1f", b"\x1cauth", b"authauth", b"auth\xc2\x85"] {
        let head: Vec<u8> = bytes.iter().copied().take(5).collect();
        let want = String::from_utf8(head).ok().is_some_and(|v| v.trim() == "auth");
        assert_eq!(token_accepted(&bytes.to_vec()), want, "{bytes:?}");
    }
}

#[test]
fn reload_waits_for_the_interval() {
    assert_eq!(MIN_RELOAD_INTERVAL, 15_000);
    let mut c = ReloadClock::new(1_000, MIN_RELOAD_INTERVAL);
    assert!(!c.on_accept(false, 20_000));
    assert!(!c.on_accept(true, 1_000));
    assert!(!c.on_accept(true, 15_999));
    assert!(c.on_accept(true, 16_000));
    assert_eq!(c.last_reload, 16_000);
    assert!(!c.on_accept(true, 16_500));
    assert!(!c.on_accept(true, 30_999));
    assert_eq!(c.last_reload, 16_000);
    assert!(c.on_accept(true, 31_000));
    assert!(!c.on_accept(true, 5));
    assert_eq!(c.last_reload, 31_000);
}

#[test]
fn reload_uses_up_the_request() {
    let mut c = ReloadClock::new(0, MIN_RELOAD_INTERVAL);
    assert!(!c.pending);
    // a request that comes too early waits
    assert!(!c.on_accept(true, 10_000));
    assert!(c.pending);
    assert!(!c.on_accept(false, 14_999));
    assert!(c.pending);
    // and is served, once, when the interval has passed
    assert!(c.on_accept(false, 15_000));
    assert!(!c.pending);
    assert_eq!(c.last_reload, 15_000);
    // without a new request, nothing is loaded again, however late
    assert!(!c.on_accept(false, 30_000));
    assert!(!c.on_accept(false, 1_000_000));
    assert_eq!(c.last_reload, 15_000);
    // a new request is served again
    assert!(c.on_accept(true, 1_000_001));
    assert!(!c.on_accept(false, 2_000_000));
}

#[test]
fn modes_by_name() {
    for m in [RunMode::Detach, RunMode::Wait, RunMode::ForwardOutput, RunMode::ForwardInputOutput] {
        assert_eq!(mode_of(&to_chars(&m.name())), Some(m));
    }
    assert_eq!(RunMode::Detach.name(), "detach");
    assert_eq!(RunMode::Wait.name(), "wait");
    assert_eq!(RunMode::ForwardOutput.name(), "forward-output");
    assert_eq!(RunMode::ForwardInputOutput.name(), "forward-output-input");
    assert_eq!(mode_of(&to_chars("Wait")), None);
    assert_eq!(mode_of(&to_chars("")), None);
    assert!(RunMode::ForwardOutput.forwards_output() && !RunMode::ForwardOutput.forwards_input());
    assert!(RunMode::ForwardInputOutput.forwards_output() && RunMode::ForwardInputOutput.forwards_input());
    assert!(!RunMode::Wait.forwards_output() && !RunMode::Detach.forwards_output());
}

#[test]
fn replies_on_the_wire() {
    assert_eq!(Reply::Greeting(0).text(), "0\n");
    assert_eq!(Reply::Listing(vec![]).text(), "listing configs; count: 0\n");
    assert_eq!(Reply::ReloadRequested.text(), "reload-configs requested\n");
    assert_eq!(Reply::AuthWait("/tmp/t".into()).text(), "auth wait /tmp/t\n");
    assert_eq!(Reply::AuthAccept.text(), "auth accept\n");
    assert_eq!(Reply::AuthDenyFailed.text(), "auth deny failed\n");
    assert_eq!(Reply::AuthDenyError("a\nb\n".into()).text(), "auth deny error a\\nb\\n\n");
    assert_eq!(Reply::AuthDenyUndefinedAllow.text(), "auth deny error_undefined_allow\n");
    assert_eq!(Reply::AuthFailCopy.text(), "auth fail could_not_copy_auth_file\n");
    assert_eq!(Reply::UnexpectedResponse.text(), "unexpected_response auth done\n");
    assert_eq!(Reply::RunStart.text(), "run start\n");
    assert_eq!(Reply::RunUnknown.text(), "run unknown\n");
    assert_eq!(Reply::RunErrorInvalidArg("x".into()).text(), "run error_invalid_arg x\n");
    assert_eq!(Reply::RunErrorArgNoValue("mode".into()).text(), "run error_arg_no_value mode\n");
    let report = Reply::RunErrorInvalidConfig(vec![
        ToRunCmdError::UnknownUser("two\nlines".into()),
        ToRunCmdError::MissingFieldCommand,
        ToRunCmdError::UnknownGroup("end\n".into()),
    ]);
    assert_eq!(
        report.text(),
        "run error_invalid_config: 3\n2\nunknown user 'two\nlines' (couldn't find uid)!\n1\nmissing field 'command'\n2\nunknown group 'end\n' (couldn't find gid)!\n"
    );
    assert_eq!(Reply::RunErrorInvalidConfig(vec![]).text(), "run error_invalid_config: 0\n");
}

#[test]
fn numbers_are_written_and_read() {
    assert_eq!(string_of(&decimal(0)), "0");
    assert_eq!(string_of(&decimal(9)), "9");
    assert_eq!(string_of(&decimal(10)), "10");
    assert_eq!(string_of(&decimal(1234567890)), "1234567890");
    assert_eq!(string_of(&decimal(u128::MAX)), u128::MAX.to_string());
    assert_eq!(parse_number(&to_chars("0"), 10), Some(0));
    assert_eq!(parse_number(&to_chars("10"), 10), Some(10));
    assert_eq!(parse_number(&to_chars("11"), 10), None);
    assert_eq!(parse_number(&to_chars("+7"), 10), Some(7));
    assert_eq!(parse_number(&to_chars("007"), 10), Some(7));
    assert_eq!(parse_number(&to_chars(""), 10), None);
    assert_eq!(parse_number(&to_chars("+"), 10), None);
    assert_eq!(parse_number(&to_chars("-7"), 10), None);
    assert_eq!(parse_number(&to_chars("++7"), 10), None);
    assert_eq!(parse_number(&to_chars("7a"), 10), None);
    assert_eq!(parse_number(&to_chars(&u128::MAX.to_string()), u128::MAX), Some(u128::MAX));
    assert_eq!(parse_number(&to_chars("340282366920938463463374607431768211456"), u128::MAX), None);
    assert_eq!(parse_number(&to_chars("99999999999999999999999999999999999999999999"), u128::MAX), None);
    for n in [0u64, 1, 42, 4294967295, 4294967296, u64::MAX] {
        let text = n.to_string();
        assert_eq!(parse_number(&to_chars(&text), u32::MAX as u128).map(|v| v as u32), text.parse::<u32>().ok());
    }
}

#[test]
fn text_helpers() {
    assert_eq!(string_of(&trim(&to_chars("  a b \t\n"))), "a b");
    assert_eq!(string_of(&trim(&to_chars("\u{2003}x\u{a0}"))), "x");
    assert_eq!(string_of(&trim(&to_chars(" \n "))), "");
    assert_eq!(string_of(&trim(&to_chars(""))), "");
    for c in ['\t', '\n', '\x0b', '\x0c', '\r', ' ', '\u{85}', '\u{a0}', '\u{1680}', '\u{2000}', '\u{200a}', '\u{2028}', '\u{2029}', '\u{202f}', '\u{205f}', '\u{3000}'] {
        assert!(is_whitespace(c));
    }
    for n in 0..0x11000u32 {
        if let Some(c) = char::from_u32(n) {
            assert_eq!(is_whitespace(c), c.is_whitespace(), "{n:x}");
        }
    }
    assert_eq!(string_of(&trim_end_newline(&to_chars("a\n\n"))), "a\n");
    assert_eq!(string_of(&trim_end_newline(&to_chars("a"))), "a");
    assert_eq!(string_of(&trim_end_newline(&to_chars(""))), "");
    let (a, b) = split_once(&to_chars("k=v=w"), '=').unwrap();
    assert_eq!((string_of(&a), string_of(&b)), ("k".to_owned(), "v=w".to_owned()));
    assert!(split_once(&to_chars("kv"), '=').is_none());
    let (a, b) = split_once(&to_chars("="), '=').unwrap();
    assert!(a.is_empty() && b.is_empty());
}

#[test]
fn expression_is_split_at_the_first_operator() {
    assert_eq!(parse_expression_split_at_operator("a+b-c", &["+", "-"]), Some(("a", "b-c", 0)));
    assert_eq!(parse_expression_split_at_operator("a-b+c", &["+", "-"]), Some(("a", "b+c", 1)));
    assert_eq!(parse_expression_split_at_operator("a && b || c", &["&&", "||"]), Some(("a ", " b || c", 0)));
    assert_eq!(parse_expression_split_at_operator("abc", &["+", "-"]), None);
    assert_eq!(parse_expression_split_at_operator("", &["+"]), None);
    assert_eq!(parse_expression_split_at_operator("", &[""]), None);
    assert_eq!(parse_expression_split_at_operator("x", &[""]), Some(("", "x", 0)));
    assert_eq!(parse_expression_split_at_operator("a=b", &[]), None);
    assert_eq!(parse_expression_split_at_operator("+", &["+"]), Some(("", "", 0)));
    // of two operators at the same place the one listed first is taken
    assert_eq!(parse_expression_split_at_operator("a==b", &["=", "=="]), Some(("a", "=b", 0)));
    assert_eq!(parse_expression_split_at_operator("a==b", &["==", "="]), Some(("a", "b", 0)));
    assert_eq!(parse_expression_split_at_operator("é*ü", &["*", "/"]), Some(("é", "ü", 0)));
    assert_eq!(find_chars(&to_chars("hello"), &to_chars("ll")), Some(2));
    assert_eq!(find_chars(&to_chars("hello"), &to_chars("")), Some(0));
    assert_eq!(find_chars(&to_chars("hello"), &to_chars("lo!")), None);
    assert_eq!(find_chars(&to_chars("aab"), &to_chars("ab")), Some(1));
}

fn cmd(name: &str, clean: Vec<RunCmd>) -> RunCmd {
    RunCmd {
        command: name.to_owned(),
        args: vec![],
        user: 1,
        group: 1,
        groups: vec![],
        env: vec![],
        working_dir: None,
        command_clean: clean,
    }
}

#[test]
fn runner_hands_out_clean_invocations_once() {
    let mut r = Runner::new(cmd("main", vec![cmd("c1", vec![]), cmd("c2", vec![])]));
    assert!(r.piped());
    assert!(r.wait().is_empty());
    assert_eq!(r.cmd.command_clean.len(), 2);
    r.start(true);
    let clean: Vec<String> = r.wait().into_iter().map(|c| c.command).collect();
    assert_eq!(clean, vec!["c1", "c2"]);
    assert!(r.wait().is_empty());
    assert!(!r.spawned);
    let mut inner = Runner::new_prep_or_clean(cmd("p", vec![cmd("pc", vec![])]));
    assert!(!inner.piped());
    inner.start(false);
    assert!(inner.wait().is_empty());
}

#[test]
fn child_environment() {
    let env = vec![
        ("SET".to_owned(), Ok("v".to_owned())),
        ("HOME".to_owned(), Err(None)),
        ("TERM".to_owned(), Err(Some("dumb".to_owned()))),
        ("LANG".to_owned(), Err(Some("C".to_owned()))),
        ("GONE".to_owned(), Err(None)),
    ];
    let inherited = vec![Some("own".to_owned()), Some("/root".to_owned()), None, Some("de".to_owned()), None];
    assert_eq!(
        child_env(env.clone(), inherited),
        vec![
            ("SET".to_owned(), "v".to_owned()),
            ("HOME".to_owned(), "/root".to_owned()),
            ("TERM".to_owned(), "dumb".to_owned()),
            ("LANG".to_owned(), "de".to_owned()),
        ]
    );
    assert_eq!(
        child_env(env.clone(), vec![]),
        vec![
            ("SET".to_owned(), "v".to_owned()),
            ("TERM".to_owned(), "dumb".to_owned()),
            ("LANG".to_owned(), "C".to_owned()),
        ]
    );
    let long = vec![None, Some("h".to_owned()), None, None, None, Some("extra".to_owned())];
    assert_eq!(child_env(env, long).len(), 4);
    assert_eq!(child_env(Vec::<(String, Result<u8, Option<u8>>)>::new(), vec![Some(1)]), vec![]);
}

#[test]
fn modes_on_the_command_line() {
    assert_eq!(mode_from_flag("wait"), Some(RunMode::Wait));
    assert_eq!(mode_from_flag("detach"), Some(RunMode::Detach));
    assert_eq!(mode_from_flag("output"), Some(RunMode::ForwardOutput));
    assert_eq!(mode_from_flag("interactive"), Some(RunMode::ForwardInputOutput));
    for other in ["", "Wait", "forward-output", "forward-output-input", "wait ", "outputs"] {
        assert_eq!(mode_from_flag(other), None, "{other:?}");
    }
}

#[test]
fn the_head_of_a_token_is_five_bytes() {
    assert_eq!(d26run::auth::TOKEN_HEAD, 5);
    assert!(d26run::auth::token_accepted(&b"auth\nand whatever follows".to_vec()));
    assert!(!d26run::auth::token_accepted(&b"  auth".to_vec()));
}
