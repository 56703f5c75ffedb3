use crl::app::{
    after_sample, classify, kill_command, needs_daemons, needs_history, Action, ActionResponse,
    ActionResponseType, DaemonHealth, Next, Session, Step, DAEMON_NAME, DEFAULT_LIMIT, HELP,
    POLL_INTERVAL_MS,
};
use crl::bash_driver::{display_action_response, trim};
use crl::db::{get_latest, get_many, save_new_crl, Crl, SavedCrl, Store};
use crl::error::CrlError;
use crl::text::{i64_to_string, parse_i64, parse_limit, str_eq, str_le, u64_to_string};
use crl::utils::get_user;

const T0: &str = "2024-03-01 10:00:00";
const T1: &str = "2024-03-01 10:00:01";
const T2: &str = "2024-03-01 10:00:02";

fn row(id: i64, text: &str, created_at: &str) -> SavedCrl {
    SavedCrl { crl: Crl::new(text), id, created_at: created_at.to_string() }
}

fn filled(texts: &[&str]) -> Store {
    let mut store = Store::new();
    for text in texts {
        save_new_crl(&mut store, &Crl::new(text), T0).unwrap();
    }
    store
}

fn said(session: &Session) -> Vec<(String, ActionResponseType, Option<Vec<SavedCrl>>)> {
    session
        .action_responses
        .iter()
        .map(|r| (r.message.clone(), r._type, r.crls.clone()))
        .collect()
}

fn is_done(step: &Step) -> bool {
    matches!(step, Step::Done)
}

#[test]
fn from_string_knows_every_verb() {
    assert_eq!(Action::from_string("start"), Some(Action::Start));
    assert_eq!(Action::from_string("s"), Some(Action::Restore));
    assert_eq!(Action::from_string("set"), Some(Action::Restore));
    assert_eq!(Action::from_string("health"), Some(Action::Health));
    assert_eq!(Action::from_string("k"), Some(Action::Kill));
    assert_eq!(Action::from_string("kill"), Some(Action::Kill));
    assert_eq!(Action::from_string("l"), Some(Action::List));
    assert_eq!(Action::from_string("list"), Some(Action::List));
    assert_eq!(Action::from_string("c"), Some(Action::Clean));
    assert_eq!(Action::from_string("clean"), Some(Action::Clean));
    assert_eq!(Action::from_string("g"), Some(Action::Get));
    assert_eq!(Action::from_string("get"), Some(Action::Get));
    assert_eq!(Action::from_string("h"), Some(Action::Help));
    assert_eq!(Action::from_string("help"), Some(Action::Help));
}

#[test]
fn from_string_rejects_other_words() {
    for word in ["", "Start", "START", "st", "start ", " start", "lists", "x", "he", "sét", "kill\n"] {
        assert_eq!(Action::from_string(word), None, "word {:?}", word);
    }
}

#[test]
fn new_session_is_silent() {
    assert!(Session::new().action_responses.is_empty());
}

#[test]
fn tick_on_empty_history_inserts() {
    let mut store = Store::new();
    assert_eq!(Session::refresh_clipboard(&mut store, Some("a".to_string()), T0), Ok(Some(1)));
    assert_eq!(store.rows(), &vec![row(1, "a", T0)]);
}

#[test]
fn tick_is_idempotent_on_unchanged_text() {
    let mut store = Store::new();
    assert_eq!(Session::refresh_clipboard(&mut store, Some("same".to_string()), T0), Ok(Some(1)));
    for now in [T0, T1, T1, T2, T2, T2] {
        assert_eq!(Session::refresh_clipboard(&mut store, Some("same".to_string()), now), Ok(None));
    }
    assert_eq!(store.rows(), &vec![row(1, "same", T0)]);
}

#[test]
fn tick_inserts_exactly_one_on_change() {
    let mut store = filled(&["a"]);
    assert_eq!(Session::refresh_clipboard(&mut store, Some("b".to_string()), T1), Ok(Some(2)));
    assert_eq!(store.rows(), &vec![row(1, "a", T0), row(2, "b", T1)]);
}

#[test]
fn tick_compares_with_the_newest_entry_only() {
    let mut store = filled(&["a", "b"]);
    assert_eq!(Session::refresh_clipboard(&mut store, Some("a".to_string()), T1), Ok(Some(3)));
    assert_eq!(store.rows(), &vec![row(1, "a", T0), row(2, "b", T0), row(3, "a", T1)]);
}

#[test]
fn tick_compares_texts_exactly() {
    let mut store = filled(&["a"]);
    assert_eq!(Session::refresh_clipboard(&mut store, Some("a ".to_string()), T1), Ok(Some(2)));
    assert_eq!(Session::refresh_clipboard(&mut store, Some("A ".to_string()), T1), Ok(Some(3)));
    assert_eq!(Session::refresh_clipboard(&mut store, Some("".to_string()), T1), Ok(Some(4)));
    assert_eq!(Session::refresh_clipboard(&mut store, Some("".to_string()), T1), Ok(None));
    assert_eq!(store.len(), 4);
}

#[test]
fn tick_without_clipboard_fails_and_writes_nothing() {
    let mut store = filled(&["a"]);
    assert_eq!(
        Session::refresh_clipboard(&mut store, None, T1),
        Err(CrlError::ClipboardUnavailable)
    );
    assert_eq!(store.rows(), &vec![row(1, "a", T0)]);
}

#[test]
fn scenario_a_a_b() {
    let mut store = Store::new();
    Session::refresh_clipboard(&mut store, Some("a".to_string()), T0).unwrap();
    Session::refresh_clipboard(&mut store, Some("a".to_string()), T1).unwrap();
    assert_eq!(store.len(), 1);
    Session::refresh_clipboard(&mut store, Some("b".to_string()), T2).unwrap();
    assert_eq!(store.len(), 2);
    assert_eq!(get_latest(&store).unwrap().crl.text, "b");
    let one = get_many(&store, 1);
    assert_eq!(one.len(), 1);
    assert_eq!(one[0].crl.text, "b");
}

#[test]
fn health_classification() {
    assert_eq!(classify(&vec![]), DaemonHealth::NotRunning);
    assert_eq!(classify(&vec![4711]), DaemonHealth::Running(4711));
    assert_eq!(classify(&vec![1, 2]), DaemonHealth::MultipleRunning);
    assert_eq!(classify(&vec![7, 7, 7]), DaemonHealth::MultipleRunning);
}

#[test]
fn health_responses() {
    let mut store = Store::new();
    let mut session = Session::new();
    assert!(is_done(&session.run(Some(Action::Health), None, &store, &vec![])));
    assert!(is_done(&session.run(Some(Action::Health), None, &store, &vec![4711])));
    assert!(is_done(&session.run(Some(Action::Health), None, &store, &vec![1, 2])));
    assert_eq!(
        said(&session),
        vec![
            (
                "clr daemon is not running. run 'sudo crl start' to restart...".to_string(),
                ActionResponseType::Error,
                None
            ),
            ("crl daemon is running on pid: 4711".to_string(), ActionResponseType::Success, None),
            ("more than one daemon running... not good.".to_string(), ActionResponseType::Error, None),
        ]
    );
}

#[test]
fn kill_asks_for_one_command_per_daemon() {
    let mut store = Store::new();
    let mut session = Session::new();
    let step = session.run(Some(Action::Kill), None, &store, &vec![12, 0, 4294967295]);
    match &step {
        Step::Kill { commands } => {
            assert_eq!(commands, &vec!["kill -9 12", "kill -9 0", "kill -9 4294967295"]);
        }
        other => panic!("unexpected step {:?}", other),
    }
    assert!(session.action_responses.is_empty());
    session.finish(step, Ok(()), &mut Store::new());
    assert_eq!(
        said(&session),
        vec![(
            "daemon killed. check health with 'crl health'".to_string(),
            ActionResponseType::Success,
            None
        )]
    );
    assert_eq!(kill_command(99), "kill -9 99");
}

#[test]
fn kill_without_daemons_still_confirms() {
    let mut session = Session::new();
    let step = session.kill_daemon(&vec![]);
    match &step {
        Step::Kill { commands } => assert!(commands.is_empty()),
        other => panic!("unexpected step {:?}", other),
    }
    session.finish(step, Ok(()), &mut Store::new());
    assert_eq!(session.action_responses.len(), 1);
    assert_eq!(session.action_responses[0]._type, ActionResponseType::Success);
}

#[test]
fn start_asks_for_detachment() {
    let mut store = Store::new();
    let mut session = Session::new();
    let step = session.run(Some(Action::Start), None, &store, &vec![]);
    assert!(matches!(step, Step::Detach { block_polling: false }));
    assert_eq!(
        said(&session),
        vec![("Starting crl...".to_string(), ActionResponseType::Content, None)]
    );
    session.finish(step, Ok(()), &mut Store::new());
    assert_eq!(
        said(&session)[1..],
        vec![
            ("Ok!".to_string(), ActionResponseType::Success, None),
            (
                "But check that process is alive with arg 'crl health'".to_string(),
                ActionResponseType::Content,
                None
            ),
        ]
    );
    let mut blocked = Session::new();
    assert!(matches!(blocked.run_daemon(true), Step::Detach { block_polling: true }));
}

#[test]
fn failed_start_is_an_error() {
    let mut session = Session::new();
    let step = session.run_daemon(false);
    session.finish(step, Err(CrlError::PermissionDenied), &mut Store::new());
    assert_eq!(session.action_responses.len(), 2);
    assert_eq!(session.action_responses[1]._type, ActionResponseType::Error);
    assert_eq!(session.action_responses[1].message, CrlError::PermissionDenied.message());
    let mut session = Session::new();
    let step = session.run_daemon(false);
    session.finish(step, Err(CrlError::DetachFailed), &mut Store::new());
    assert_eq!(session.action_responses[1].message, "the daemon could not be started.");
}

#[test]
fn list_defaults_to_twenty_five() {
    let names: Vec<String> = (0..30).map(|i| format!("t{}", i)).collect();
    let refs: Vec<&str> = names.iter().map(|s| s.as_str()).collect();
    let mut store = filled(&refs);
    let mut session = Session::new();
    assert!(is_done(&session.run(Some(Action::List), None, &store, &vec![])));
    assert_eq!(session.action_responses.len(), 1);
    let response = &session.action_responses[0];
    assert_eq!(response.message, "");
    assert_eq!(response._type, ActionResponseType::Content);
    assert_eq!(response.crls, Some(get_many(&store, 25)));
    assert_eq!(response.crls.as_ref().unwrap().len(), 25);
    assert_eq!(DEFAULT_LIMIT, 25);
    assert_eq!(store.len(), 30);
}

#[test]
fn list_takes_a_limit() {
    let mut store = filled(&["a", "b", "c"]);
    let mut session = Session::new();
    session.run(Some(Action::List), Some("2".to_string()), &store, &vec![]);
    session.run(Some(Action::List), Some("0".to_string()), &store, &vec![]);
    session.run(Some(Action::List), Some("4294967295".to_string()), &store, &vec![]);
    session.run(Some(Action::List), Some("+1".to_string()), &store, &vec![]);
    assert_eq!(
        said(&session),
        vec![
            ("".to_string(), ActionResponseType::Content, Some(vec![row(3, "c", T0), row(2, "b", T0)])),
            ("".to_string(), ActionResponseType::Content, Some(vec![])),
            (
                "".to_string(),
                ActionResponseType::Content,
                Some(vec![row(3, "c", T0), row(2, "b", T0), row(1, "a", T0)])
            ),
            ("".to_string(), ActionResponseType::Content, Some(vec![row(3, "c", T0)])),
        ]
    );
}

#[test]
fn list_rejects_a_bad_limit() {
    let store = filled(&["a"]);
    for limit in ["abc", "", "1.5", " 3", "3 ", "+", "-", "--1", "1e3", "0x10", "٣"] {
        let mut session = Session::new();
        session.list_crls(Some(limit.to_string()), &store);
        assert_eq!(
            said(&session),
            vec![(
                "limit argument needs to be a whole number.".to_string(),
                ActionResponseType::Error,
                None
            )],
            "limit {:?}",
            limit
        );
    }
    let mut session = Session::new();
    assert!(is_done(&session.run(Some(Action::List), Some("x".to_string()), &store, &vec![])));
    assert_eq!(session.action_responses[0]._type, ActionResponseType::Error);
}

#[test]
fn list_raises_a_limit_below_zero_to_zero() {
    let store = filled(&["a", "b", "c"]);
    for limit in ["-5", "-1", "-0", "-4294967296", "-99999999999999999999999999999", "0", "+0"] {
        let mut session = Session::new();
        session.list_crls(Some(limit.to_string()), &store);
        assert_eq!(
            said(&session),
            vec![("".to_string(), ActionResponseType::Content, Some(vec![]))],
            "limit {:?}",
            limit
        );
    }
}

#[test]
fn list_reduces_a_limit_above_fifty_to_fifty() {
    let names: Vec<String> = (0..60).map(|i| format!("t{}", i)).collect();
    let refs: Vec<&str> = names.iter().map(|s| s.as_str()).collect();
    let store = filled(&refs);
    let fifty = get_many(&store, 50);
    assert_eq!(fifty.len(), 50);
    for limit in [
        "50", "51", "4294967295", "4294967296", "+18446744073709551616",
        "99999999999999999999999999999999999999999", "0000000000000051",
    ] {
        let mut session = Session::new();
        assert!(is_done(&session.run(Some(Action::List), Some(limit.to_string()), &store, &vec![])));
        assert_eq!(
            said(&session),
            vec![("".to_string(), ActionResponseType::Content, Some(fifty.clone()))],
            "limit {:?}",
            limit
        );
    }
    let mut session = Session::new();
    session.list_crls(Some("49".to_string()), &store);
    assert_eq!(session.action_responses[0].crls.as_ref().unwrap().len(), 49);
}

#[test]
fn set_round_trip() {
    let mut store = filled(&["first", "  second\n", "third"]);
    for entry in get_many(&store, 50) {
        let mut session = Session::new();
        let id = i64_to_string(entry.id);
        let step = session.run(Some(Action::Restore), Some(id), &store, &vec![]);
        assert!(session.action_responses.is_empty());
        match &step {
            Step::WriteClipboard { crl } => {
                assert_eq!(crl, &entry);
                assert_eq!(crl.crl.text, entry.crl.text);
            }
            other => panic!("unexpected step {:?}", other),
        }
        session.finish(step, Ok(()), &mut Store::new());
        assert_eq!(
            said(&session),
            vec![("success!".to_string(), ActionResponseType::Success, Some(vec![entry]))]
        );
    }
}

#[test]
fn set_reports_clipboard_failure() {
    let store = filled(&["a"]);
    let mut session = Session::new();
    let step = session.set_crl_to_clipboard(Some("1".to_string()), &store);
    session.finish(step, Err(CrlError::ClipboardUnavailable), &mut Store::new());
    assert_eq!(
        said(&session),
        vec![("the clipboard is not available.".to_string(), ActionResponseType::Error, None)]
    );
}

#[test]
fn set_refuses_bad_arguments() {
    let store = filled(&["a"]);
    let mut session = Session::new();
    assert!(is_done(&session.set_crl_to_clipboard(None, &store)));
    assert!(is_done(&session.set_crl_to_clipboard(Some("2".to_string()), &store)));
    assert!(is_done(&session.set_crl_to_clipboard(Some("one".to_string()), &store)));
    assert!(is_done(&session.set_crl_to_clipboard(Some("1 OR 1=1".to_string()), &store)));
    assert_eq!(
        said(&session),
        vec![
            ("please provide a valid id.".to_string(), ActionResponseType::Error, None),
            ("no crl with that id!".to_string(), ActionResponseType::Error, None),
            ("the id needs to be a whole number.".to_string(), ActionResponseType::Error, None),
            ("the id needs to be a whole number.".to_string(), ActionResponseType::Error, None),
        ]
    );
}

#[test]
fn clean_empties_and_reports_the_count() {
    let mut store = filled(&["a", "b", "c"]);
    let mut session = Session::new();
    let step = session.run(Some(Action::Clean), None, &store, &vec![]);
    assert!(matches!(step, Step::Purge { count: 3 }));
    assert!(session.action_responses.is_empty());
    assert_eq!(store.len(), 3);
    session.finish(step, Ok(()), &mut store);
    assert_eq!(get_many(&store, 50), vec![]);
    assert_eq!(store.len(), 0);
    let step = session.clean_database(&store);
    assert!(matches!(step, Step::Purge { count: 0 }));
    session.finish(step, Ok(()), &mut store);
    assert_eq!(
        said(&session),
        vec![
            ("3 crls deleted".to_string(), ActionResponseType::Success, None),
            ("0 crls deleted".to_string(), ActionResponseType::Success, None),
        ]
    );
}

#[test]
fn failed_clean_is_one_error_and_leaves_the_history() {
    let mut store = filled(&["a", "b", "c"]);
    let kept = get_many(&store, 50);
    let mut session = Session::new();
    let step = session.run(Some(Action::Clean), None, &store, &vec![]);
    session.finish(step, Err(CrlError::StorageUnavailable), &mut store);
    assert_eq!(
        said(&session),
        vec![("the crl history is not available.".to_string(), ActionResponseType::Error, None)]
    );
    assert_eq!(get_many(&store, 50), kept);
    assert_eq!(store.len(), 3);
}

#[test]
fn finish_touches_the_history_for_clean_only() {
    let makes: [fn() -> Step; 4] = [
        || Step::Done,
        || Step::Detach { block_polling: false },
        || Step::Kill { commands: vec![] },
        || Step::WriteClipboard { crl: row(1, "a", T0) },
    ];
    for make in makes {
        let mut store = filled(&["a", "b"]);
        let mut session = Session::new();
        session.finish(make(), Ok(()), &mut store);
        assert_eq!(store.len(), 2);
        session.finish(make(), Err(CrlError::DetachFailed), &mut store);
        assert_eq!(store.len(), 2);
    }
}

#[test]
fn the_daemon_ends_on_a_first_sample_without_clipboard_or_history() {
    assert_eq!(after_sample(true, &Err(CrlError::ClipboardUnavailable)), Next::Stop);
    assert_eq!(after_sample(true, &Err(CrlError::StorageUnavailable)), Next::Stop);
    assert_eq!(after_sample(false, &Err(CrlError::ClipboardUnavailable)), Next::Continue);
    assert_eq!(after_sample(false, &Err(CrlError::StorageUnavailable)), Next::Continue);
    for first in [true, false] {
        assert_eq!(after_sample(first, &Ok(None)), Next::Continue);
        assert_eq!(after_sample(first, &Ok(Some(1))), Next::Continue);
        for other in [
            CrlError::InvalidId,
            CrlError::InvalidArgument,
            CrlError::PermissionDenied,
            CrlError::DetachFailed,
        ] {
            assert_eq!(after_sample(first, &Err(other)), Next::Continue);
        }
    }
}

#[test]
fn the_daemon_goes_on_while_samples_come() {
    let mut store = Store::new();
    let mut first = true;
    let mut taken = 0;
    for clip in [Some("a"), Some("a"), None, Some("b"), None] {
        let outcome = Session::refresh_clipboard(&mut store, clip.map(|c| c.to_string()), T0);
        assert_eq!(after_sample(first, &outcome), Next::Continue);
        first = false;
        taken += 1;
    }
    assert_eq!(taken, 5);
    assert_eq!(store.len(), 2);
    let mut empty = Store::new();
    let outcome = Session::refresh_clipboard(&mut empty, None, T0);
    assert_eq!(after_sample(true, &outcome), Next::Stop);
}

#[test]
fn help_and_no_action() {
    let mut store = filled(&["a"]);
    let mut session = Session::new();
    assert!(is_done(&session.run(Some(Action::Help), None, &store, &vec![])));
    assert!(is_done(&session.run(None, Some("x".to_string()), &store, &vec![])));
    assert!(is_done(&session.run(Some(Action::Get), Some("q".to_string()), &store, &vec![])));
    assert_eq!(
        said(&session),
        vec![
            (HELP.to_string(), ActionResponseType::Content, None),
            ("no action?".to_string(), ActionResponseType::Success, None),
            ("get is not available.".to_string(), ActionResponseType::Error, None),
        ]
    );
    assert!(HELP.contains("l, list         -, limit            lists crls"));
    assert_eq!(store.len(), 1);
    let mut alone = Session::new();
    alone.show_help();
    assert_eq!(alone.action_responses[0].message, HELP);
}

#[test]
fn fail_and_finish() {
    let mut session = Session::new();
    session.fail(CrlError::StorageUnavailable);
    session.finish(Step::Done, Ok(()), &mut Store::new());
    session.finish(Step::Done, Err(CrlError::InvalidArgument), &mut Store::new());
    assert_eq!(
        said(&session),
        vec![
            ("the crl history is not available.".to_string(), ActionResponseType::Error, None),
            (
                "limit argument needs to be a whole number.".to_string(),
                ActionResponseType::Error,
                None
            ),
        ]
    );
}

#[test]
fn error_messages() {
    assert_eq!(CrlError::ClipboardUnavailable.message(), "the clipboard is not available.");
    assert_eq!(CrlError::StorageUnavailable.message(), "the crl history is not available.");
    assert_eq!(CrlError::InvalidId.message(), "the id needs to be a whole number.");
    assert_eq!(
        CrlError::InvalidArgument.message(),
        "limit argument needs to be a whole number."
    );
    assert_eq!(
        CrlError::PermissionDenied.message(),
        "not permitted to start the daemon. run 'sudo crl start'."
    );
    assert_eq!(CrlError::DetachFailed.message(), "the daemon could not be started.");
}

#[test]
fn routing_needs() {
    for action in [Action::List, Action::Restore, Action::Clean] {
        assert!(needs_history(Some(action)));
        assert!(!needs_daemons(Some(action)));
    }
    for action in [Action::Health, Action::Kill] {
        assert!(!needs_history(Some(action)));
        assert!(needs_daemons(Some(action)));
    }
    for action in [Action::Start, Action::Get, Action::Help] {
        assert!(!needs_history(Some(action)));
        assert!(!needs_daemons(Some(action)));
    }
    assert!(!needs_history(None));
    assert!(!needs_daemons(None));
    assert_eq!(DAEMON_NAME, "crl");
    assert_eq!(POLL_INTERVAL_MS, 500);
}

#[test]
fn numerals_are_written_as_std_writes_them() {
    for n in [0u64, 1, 9, 10, 11, 99, 100, 101, 4711, 65535, 4294967295, u64::MAX] {
        assert_eq!(u64_to_string(n), n.to_string());
    }
    for i in [0i64, 1, -1, 9, -9, 10, -10, 12345, -12345, i64::MAX, i64::MIN, i64::MIN + 1] {
        assert_eq!(i64_to_string(i), i.to_string());
    }
}

#[test]
fn numerals_are_read_as_std_reads_them() {
    let words = [
        "", "0", "00", "007", "+0", "-0", "+", "-", "++1", "1", "+1", "-1", "12a", "a12", " 12",
        "12 ", "1_000", "0x10", "4294967295", "4294967296", "+4294967295", "99999999999",
        "9223372036854775807", "9223372036854775808", "-9223372036854775808",
        "-9223372036854775809", "18446744073709551616", "٣", "1٣", "－1", "1e3", "1.0",
        "000000000000000000000000000000001", "-000000000000000000000000009",
    ];
    for word in words {
        assert_eq!(parse_i64(word), word.parse::<i64>().ok(), "i64 {:?}", word);
    }
    assert_eq!(parse_i64("-42"), Some(-42));
}

#[test]
fn limits_are_read_and_clamped() {
    assert_eq!(parse_limit("25", 50), Some(25));
    assert_eq!(parse_limit("+25", 50), Some(25));
    assert_eq!(parse_limit("0025", 50), Some(25));
    assert_eq!(parse_limit("50", 50), Some(50));
    assert_eq!(parse_limit("51", 50), Some(50));
    assert_eq!(parse_limit("0", 50), Some(0));
    assert_eq!(parse_limit("-0", 50), Some(0));
    assert_eq!(parse_limit("-1", 50), Some(0));
    assert_eq!(parse_limit("-5", 50), Some(0));
    assert_eq!(parse_limit("4294967295", 50), Some(50));
    assert_eq!(parse_limit("4294967296", 50), Some(50));
    assert_eq!(parse_limit("123456789012345678901234567890", 50), Some(50));
    assert_eq!(parse_limit("-123456789012345678901234567890", 50), Some(0));
    assert_eq!(parse_limit("7", 0), Some(0));
    assert_eq!(parse_limit("4294967295", u32::MAX), Some(u32::MAX));
    assert_eq!(parse_limit("4294967296", u32::MAX), Some(u32::MAX));
    assert_eq!(parse_limit("4294967294", u32::MAX), Some(4294967294));
    for word in ["", "+", "-", "abc", "1a", "a1", " 1", "1 ", "1.5", "+-1", "-+1", "١", "1_0"] {
        assert_eq!(parse_limit(word, 50), None, "{:?}", word);
    }
}

#[test]
fn reading_undoes_writing() {
    for n in [0u32, 5, 10, 50, 51, 1000, u32::MAX] {
        assert_eq!(parse_limit(&u64_to_string(n as u64), u32::MAX), Some(n));
    }
    for i in [0i64, 7, -7, i64::MAX, i64::MIN] {
        assert_eq!(parse_i64(&i64_to_string(i)), Some(i));
    }
}

#[test]
fn strings_compare_as_std_compares_them() {
    let words = ["", "a", "b", "ab", "abc", "aB", "é", "z", "日本", "2024-03-01", "2024-03-02", "\u{10ffff}"];
    for a in words {
        for b in words {
            assert_eq!(str_eq(a, b), a == b, "{:?} == {:?}", a, b);
            assert_eq!(str_le(a, b), a <= b, "{:?} <= {:?}", a, b);
        }
    }
}

#[test]
fn trim_cuts_white_space_as_std_does() {
    let words = [
        "", " ", "a", " a", "a ", "  a b  ", "\t\n\r x \u{b}\u{c}", "\u{85}x\u{a0}",
        "\u{1680}x\u{2000}", "\u{200a}x\u{2028}", "\u{2029}x\u{202f}", "\u{205f}x\u{3000}",
        "\u{200b}x\u{200b}", "\u{1f}x\u{1c}", " é ", "\n\n", "x\u{feff}",
    ];
    for word in words {
        assert_eq!(trim(word), word.trim(), "{:?}", word);
    }
    assert_eq!(trim("  a b  "), "a b");
}

#[test]
fn white_space_is_what_std_calls_white_space() {
    for code in 0u32..0x3100 {
        if let Some(c) = char::from_u32(code) {
            let word = format!("{}x{}", c, c);
            assert_eq!(trim(&word), word.trim(), "U+{:04X}", code);
        }
    }
}

#[test]
fn display_marks_the_kind() {
    let error = ActionResponse {
        message: "no crl with that id!".to_string(),
        _type: ActionResponseType::Error,
        crls: None,
    };
    assert_eq!(display_action_response(&error), "❌ no crl with that id!\n");
    let success = ActionResponse {
        message: "success!".to_string(),
        _type: ActionResponseType::Success,
        crls: Some(vec![row(1, "not shown", T0)]),
    };
    assert_eq!(display_action_response(&success), "👍 success!\n");
    let content = ActionResponse {
        message: "Starting crl...".to_string(),
        _type: ActionResponseType::Content,
        crls: None,
    };
    assert_eq!(display_action_response(&content), "Starting crl...\n");
    let bare = ActionResponse { message: String::new(), _type: ActionResponseType::Error, crls: None };
    assert_eq!(display_action_response(&bare), "❌ ");
}

#[test]
fn display_lists_entries() {
    let listing = ActionResponse {
        message: String::new(),
        _type: ActionResponseType::Content,
        crls: Some(vec![row(12, "  second\n", T1), row(-3, "first", T0), row(4, " \t", T0)]),
    };
    assert_eq!(display_action_response(&listing), "12 second\n-3 first\n4 \n");
    let empty = ActionResponse {
        message: String::new(),
        _type: ActionResponseType::Content,
        crls: Some(vec![]),
    };
    assert_eq!(display_action_response(&empty), "");
    let titled = ActionResponse {
        message: "found".to_string(),
        _type: ActionResponseType::Content,
        crls: Some(vec![row(1, "a", T0)]),
    };
    assert_eq!(display_action_response(&titled), "found\n1 a\n");
}

#[test]
fn user_is_the_output_without_its_line_break() {
    assert_eq!(get_user("root\n"), "root");
    assert_eq!(get_user("é\n"), "é");
    assert_eq!(get_user("\n"), "");
    assert_eq!(get_user("ab"), "a");
}

#[test]
fn times_in_listing_stay_sorted_after_clock_jumps() {
    let mut store = Store::new();
    for (text, now) in [("a", T1), ("b", T0), ("c", T2), ("d", T1)] {
        save_new_crl(&mut store, &Crl::new(text), now).unwrap();
    }
    let all = get_many(&store, 50);
    let times: Vec<&str> = all.iter().map(|r| r.created_at.as_str()).collect();
    assert_eq!(times, vec![T2, T2, T1, T1]);
    assert_eq!(get_latest(&store), Some(all[0].clone()));
}
