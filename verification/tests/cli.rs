use gpucr::cli::{
    parse_args, parse_legacy_args, parse_pid, plan_command, usage_error, ClientStep, Command,
    ControlSignal, PidError,
};
use gpucr::constants::{CKPT_MSG, INIT_MSG, RESTORE_MSG};
use gpucr::Error;

fn args(list: &[&str]) -> Vec<String> {
    list.iter().map(|s| s.to_string()).collect()
}

fn protocol_message<T: std::fmt::Debug>(r: Result<T, Error>) -> String {
    match r {
        Err(Error::Protocol(m)) => m,
        other => panic!("expected a protocol error, got {other:?}"),
    }
}

#[test]
fn parse_pid_agrees_with_the_standard_library() {
    let cases = [
        "0", "42", "+42", "-42", "2147483647", "2147483648", "-2147483648", "-2147483649",
        "", "+", "-", "12a", "a12", " 1", "99999999999a", "--1", "+-1", "٣",
    ];
    for case in cases {
        let ours = parse_pid(case);
        match case.parse::<i32>() {
            Ok(v) => assert_eq!(ours, Ok(v), "{case}"),
            Err(e) => {
                let ours = ours.expect_err(case);
                assert_eq!(ours.message(), e.to_string(), "{case}");
            }
        }
    }
}

#[test]
fn parse_pid_errors_by_kind() {
    assert_eq!(parse_pid(""), Err(PidError::Empty));
    assert_eq!(parse_pid("-"), Err(PidError::InvalidDigit));
    assert_eq!(parse_pid("3000000000"), Err(PidError::PosOverflow));
    assert_eq!(parse_pid("-3000000000"), Err(PidError::NegOverflow));
}

#[test]
fn positional_init_defaults_the_path() {
    match parse_args(&args(&["gpucr-client", "init", "1234"])).unwrap() {
        Command::Init { pid, path } => {
            assert_eq!(pid, 1234);
            assert_eq!(path, "/mnt/huge-ckpt/1234");
        }
        other => panic!("{other:?}"),
    }
}

#[test]
fn positional_checkpoint_initialises_first() {
    for word in ["checkpoint", "ckpt"] {
        match parse_args(&args(&["c", word, "7", "/tmp/x"])).unwrap() {
            Command::Checkpoint { pid, path, buffer_only, init_first } => {
                assert_eq!((pid, path.as_str(), buffer_only, init_first), (7, "/tmp/x", false, true));
            }
            other => panic!("{other:?}"),
        }
    }
}

#[test]
fn positional_restore() {
    match parse_args(&args(&["c", "restore", "9"])).unwrap() {
        Command::Restore { pid, buffer_only } => assert_eq!((pid, buffer_only), (9, false)),
        other => panic!("{other:?}"),
    }
}

#[test]
fn positional_errors() {
    let usage = "usage: c <init|checkpoint|restore> <pid> [checkpoint_path] or c [-i|-c|-r] -p <pid> [-b]";
    assert_eq!(protocol_message(parse_args(&args(&["c", "init"]))), usage);
    assert_eq!(protocol_message(parse_args(&args(&["c", "bogus", "1"]))), usage);
    assert_eq!(
        protocol_message(parse_args(&args(&["c", "bogus", "x1"]))),
        "invalid pid 'x1': invalid digit found in string"
    );
    assert_eq!(protocol_message(usage_error("c")), usage);
}

#[test]
fn legacy_checkpoint_does_not_initialise() {
    match parse_args(&args(&["c", "-c", "-p", "55", "-b"])).unwrap() {
        Command::Checkpoint { pid, path, buffer_only, init_first } => {
            assert_eq!(pid, 55);
            assert_eq!(path, "/mnt/huge-ckpt/55");
            assert!(buffer_only);
            assert!(!init_first);
        }
        other => panic!("{other:?}"),
    }
}

#[test]
fn legacy_options_in_any_order() {
    match parse_legacy_args(&args(&["c", "-o", "/p", "-m", "3", "-p", "12", "-i", "-i"])).unwrap() {
        Command::Init { pid, path } => assert_eq!((pid, path.as_str()), (12, "/p")),
        other => panic!("{other:?}"),
    }
    match parse_legacy_args(&args(&["c", "-r", "--path", "/q", "-p", "-4"])).unwrap() {
        Command::Restore { pid, buffer_only } => assert_eq!((pid, buffer_only), (-4, false)),
        other => panic!("{other:?}"),
    }
}

#[test]
fn legacy_errors() {
    let usage = "usage: c <init|checkpoint|restore> <pid> [checkpoint_path] or c [-i|-c|-r] -p <pid> [-b]";
    assert_eq!(protocol_message(parse_args(&args(&["c", "-i", "-p"]))), "missing pid after -p");
    assert_eq!(protocol_message(parse_args(&args(&["c", "-i", "-m"]))), "missing pid after -m");
    assert_eq!(protocol_message(parse_args(&args(&["c", "-i", "-o"]))), "missing path");
    assert_eq!(protocol_message(parse_args(&args(&["c", "-i", "-x"]))), "unknown argument '-x'");
    assert_eq!(
        protocol_message(parse_args(&args(&["c", "-i", "-p", ""]))),
        "invalid pid '': cannot parse integer from empty string"
    );
    assert_eq!(protocol_message(parse_args(&args(&["c", "-i", "-c", "-p", "1"]))), usage);
    assert_eq!(protocol_message(parse_args(&args(&["c", "-b", "-p", "1"]))), usage);
    assert_eq!(protocol_message(parse_args(&args(&["c", "-i", "-b"]))), "missing required -p pid");
}

fn describe(steps: &[ClientStep]) -> Vec<String> {
    steps
        .iter()
        .map(|s| match s {
            ClientStep::OpenControl => "open".to_string(),
            ClientStep::SetCheckpointPath { path } => format!("path {path}"),
            ClientStep::SendMessage { msg } => format!("send {msg}"),
            ClientStep::Signal { signal } => format!("signal {signal:?}"),
            ClientStep::WaitForFinish => "wait".to_string(),
            ClientStep::ToggleCudaCheckpoint => "toggle".to_string(),
        })
        .collect()
}

#[test]
fn plans_follow_the_protocol() {
    let init = plan_command(&Command::Init { pid: 1, path: "/p".to_string() });
    assert_eq!(
        describe(&init),
        vec!["open", "path /p", &format!("send {INIT_MSG}"), "signal Init", "wait"]
    );
    let ckpt = plan_command(&Command::Checkpoint {
        pid: 1,
        path: "/p".to_string(),
        buffer_only: false,
        init_first: true,
    });
    assert_eq!(
        describe(&ckpt),
        vec![
            "open", "path /p", &format!("send {INIT_MSG}"), "signal Init", "wait",
            "open", &format!("send {CKPT_MSG}"), "signal Checkpoint", "wait", "toggle",
        ]
    );
    let ckpt_buffers = plan_command(&Command::Checkpoint {
        pid: 1,
        path: "/p".to_string(),
        buffer_only: true,
        init_first: false,
    });
    assert_eq!(
        describe(&ckpt_buffers),
        vec!["open", &format!("send {CKPT_MSG}"), "signal Checkpoint", "wait"]
    );
    let restore = plan_command(&Command::Restore { pid: 1, buffer_only: false });
    assert_eq!(
        describe(&restore),
        vec!["open", "toggle", &format!("send {RESTORE_MSG}"), "signal Restore", "wait"]
    );
    let restore_buffers = plan_command(&Command::Restore { pid: 1, buffer_only: true });
    assert_eq!(
        describe(&restore_buffers),
        vec!["open", &format!("send {RESTORE_MSG}"), "signal Restore", "wait"]
    );
    assert_eq!(ControlSignal::Init, ControlSignal::Init);
}
