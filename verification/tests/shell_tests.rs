use safa_shell::resolve::Env;
use safa_shell::shell::{
    is_builtin, os_return_from_status, os_return_from_status_embedded, os_return_of_error,
    outcome_of_wait, plan_command, should_report, Dispatch, KnownStatus, OsReturn, ProcStatus,
    Shell, ShellError,
};

#[test]
fn whitespace_line_plans_nothing() {
    let env = Env::new();
    assert!(matches!(plan_command("", &env), Dispatch::Empty));
    assert!(matches!(plan_command("  \t ", &env), Dispatch::Empty));
}

#[test]
fn external_command_splits_program_and_args() {
    let env = Env::new();
    match plan_command("echo a \"b c\"", &env) {
        Dispatch::External(cmd) => {
            assert_eq!(cmd.program, "echo");
            assert_eq!(cmd.args, vec!["a", "b c"]);
        }
        _ => panic!("expected an external dispatch"),
    }
}

#[test]
fn builtin_shadows_external_program() {
    // Even with `cd` present on the search path, the builtin wins.
    let env = Env::new();
    match plan_command("cd /tmp", &env) {
        Dispatch::Builtin(cmd) => {
            assert_eq!(cmd.program, "cd");
            assert_eq!(cmd.args, vec!["/tmp"]);
        }
        _ => panic!("expected a builtin dispatch"),
    }
    assert!(matches!(plan_command("exit", &env), Dispatch::Builtin(_)));
    assert!(matches!(plan_command("clear", &env), Dispatch::Builtin(_)));
}

#[test]
fn variable_expansion_happens_before_dispatch() {
    let mut env = Env::new();
    env.set("CMD".to_string(), "ls".to_string());
    match plan_command("$CMD $MISSING", &env) {
        Dispatch::External(cmd) => {
            assert_eq!(cmd.program, "ls");
            assert_eq!(cmd.args, vec![""]);
        }
        _ => panic!("expected an external dispatch"),
    }
}

#[test]
fn is_builtin_knows_exactly_the_builtins() {
    assert!(is_builtin("exit"));
    assert!(is_builtin("clear"));
    assert!(is_builtin("cd"));
    assert!(!is_builtin("echo"));
    assert!(!is_builtin("cdr"));
    assert!(!is_builtin(""));
}

#[test]
fn zero_exit_is_success() {
    let st = ProcStatus {
        success: true,
        code: Some(0),
    };
    match outcome_of_wait(st) {
        Ok(code) => assert_eq!(code, 0),
        Err(_) => panic!("expected success"),
    }
}

#[test]
fn nonzero_exit_carries_its_status() {
    let st = ProcStatus {
        success: false,
        code: Some(2),
    };
    match outcome_of_wait(st) {
        Err(ShellError::ExitError(s)) => assert_eq!(s.code, Some(2)),
        _ => panic!("expected an exit error"),
    }
}

#[test]
fn recorded_outcome_reflects_exit_two_then_clears() {
    let mut shell = Shell::new();
    assert!(shell.last_command_return.is_none());

    let st = ProcStatus {
        success: false,
        code: Some(2),
    };
    let failed = outcome_of_wait(st);
    shell.record_outcome(&failed);
    assert_eq!(shell.last_command_return, Some(OsReturn::Unknown(2)));

    let ok = outcome_of_wait(ProcStatus {
        success: true,
        code: Some(0),
    });
    shell.record_outcome(&ok);
    assert_eq!(shell.last_command_return, None);
}

#[test]
fn error_returns_follow_the_host_policy() {
    assert_eq!(os_return_of_error(&ShellError::IoError), OsReturn::Unknown(1));
    assert_eq!(
        os_return_of_error(&ShellError::BuiltinError),
        OsReturn::Unknown(-1)
    );
    let st = ProcStatus {
        success: false,
        code: Some(7),
    };
    assert_eq!(
        os_return_of_error(&ShellError::ExitError(st)),
        OsReturn::Unknown(7)
    );
    assert_eq!(
        os_return_from_status(&st),
        OsReturn::Unknown(7)
    );
}

#[test]
fn embedded_returns_name_negative_codes_in_range() {
    let st = ProcStatus {
        success: false,
        code: Some(-3),
    };
    match os_return_from_status_embedded(&st) {
        OsReturn::Known(k) => assert_eq!(k.code(), 3),
        OsReturn::Unknown(_) => panic!("expected a named status"),
    }

    let positive = ProcStatus {
        success: false,
        code: Some(5),
    };
    assert_eq!(
        os_return_from_status_embedded(&positive),
        OsReturn::Unknown(5)
    );

    let out_of_range = ProcStatus {
        success: false,
        code: Some(-100000),
    };
    assert_eq!(
        os_return_from_status_embedded(&out_of_range),
        OsReturn::Unknown(-100000)
    );
}

#[test]
fn known_status_covers_exactly_the_abi_range() {
    assert!(KnownStatus::try_new(0).is_none());
    assert!(KnownStatus::try_new(1).is_some());
    assert!(KnownStatus::try_new(30).is_some());
    assert!(KnownStatus::try_new(31).is_none());
}

#[test]
fn only_infrastructural_failures_are_reported() {
    assert!(should_report(&ShellError::IoError));
    assert!(!should_report(&ShellError::BuiltinError));
    let st = ProcStatus {
        success: false,
        code: Some(2),
    };
    assert!(!should_report(&ShellError::ExitError(st)));
}
