use std::cell::RefCell;

use o_lang::cpu::{format_cpu_list, parse_cpu_list, CpuListError};
use o_lang::device::{
    c17_arguments, confirm_pinned, confirm_profile, drop_next, drop_start, effective_jobs,
    exit_status_code, guard_next, guard_start, is_private_path, jobs_allowed, looks_like_termux,
    moved_line, nonblank_lines, prime_root_command, root_run_command, run_profile_transaction,
    shell_quote, thread_ids, trimmed_text, unique_paths, BuildTarget, DropStep, GuardStep,
    PrimeAction, PrimeAffinity, ProfileFailure,
};
use o_lang::process::{
    affinity_from_status, app_owner_uids, caller_app_uid, is_android_app_uid, meminfo_kib,
    parse_process_start_time, parse_uids, present_cpus, prime_state, select_prime_cpu,
    validate_process_uids, validate_start_time, StartTimeError, UidError,
};

#[test]
fn cpu_lists_parse_sort_and_format_ranges() {
    assert_eq!(
        parse_cpu_list("0-3,7,4-6").unwrap(),
        (0..=7).collect::<Vec<_>>()
    );
    assert_eq!(format_cpu_list(&[7, 0, 2, 1, 6]), "0-2,6-7");
    assert!(parse_cpu_list("7-3").is_err());
}

#[test]
fn prime_selection_requires_the_highest_present_cpu_to_be_allowed() {
    assert_eq!(
        select_prime_cpu(&(0..=7).collect::<Vec<_>>(), &(0..=7).collect::<Vec<_>>()).unwrap(),
        7
    );
    let error = select_prime_cpu(&(0..=7).collect::<Vec<_>>(), &(0..=6).collect::<Vec<_>>())
        .unwrap_err()
        .to_text();
    assert!(error.contains("prime CPU 7"));
}

#[test]
fn attach_transaction_rolls_back_every_application_error() {
    let events = RefCell::new(Vec::new());
    let result = run_profile_transaction::<(), String, _, _>(
        PrimeAction::Attach,
        || {
            events.borrow_mut().push("attach");
            Err("verification failed".to_string())
        },
        || {
            events.borrow_mut().push("foreground");
            Ok(())
        },
    );
    assert!(result.is_err());
    assert_eq!(*events.borrow(), ["attach", "foreground"]);
}

#[test]
fn parses_all_four_process_uids() {
    assert_eq!(
        parse_uids("Name:\tO\nUid:\t10402\t10402\t10402\t10402\n").unwrap(),
        [10402; 4]
    );
    assert!(parse_uids("Uid:\t10402\t10402\n").is_err());
}

#[test]
fn parses_start_time_after_parenthesized_command() {
    let stat = "42 (O worker (fast)) S 1 2 3 4 5 6 7 8 9 10 11 12 13 14 15 16 17 18 123456 20";
    assert_eq!(parse_process_start_time(stat).unwrap(), 123456);
}

#[test]
fn recognizes_android_multiuser_app_ids() {
    assert!(is_android_app_uid(10402));
    assert!(is_android_app_uid(110402));
    assert!(!is_android_app_uid(0));
    assert!(!is_android_app_uid(2000));
}

#[test]
fn shell_quote_does_not_expose_metacharacters() {
    assert_eq!(shell_quote("plain"), "'plain'");
    assert_eq!(shell_quote("a'b"), "'a'\"'\"'b'");
}

#[test]
fn meminfo_parser_uses_named_kib_fields() {
    let input = "MemTotal:       16384000 kB\nMemAvailable:    8192000 kB\n";
    assert_eq!(meminfo_kib(input, "MemTotal"), Some(16_384_000));
    assert_eq!(meminfo_kib(input, "SwapTotal"), None);
}

#[test]
fn formatted_lists_read_back() {
    for list in [vec![], vec![3], vec![0, 1, 2, 5, 9, 10]] {
        assert_eq!(parse_cpu_list(&format_cpu_list(&list)).unwrap(), list);
    }
}

#[test]
fn faulty_cpu_lists_are_told_apart() {
    assert!(matches!(parse_cpu_list("a-3"), Err(CpuListError::InvalidRange)));
    assert!(matches!(parse_cpu_list("x"), Err(CpuListError::InvalidNumber)));
    assert!(matches!(parse_cpu_list("0-5000"), Err(CpuListError::BadRange { .. })));
    assert_eq!(parse_cpu_list(" 1 , ,2").is_err(), true);
    assert_eq!(parse_cpu_list(",,4,").unwrap(), vec![4]);
}

#[test]
fn uid_fields_are_told_apart() {
    assert!(matches!(parse_uids("Name:\tO\n"), Err(UidError::Missing)));
    assert!(matches!(parse_uids("Uid:\tx\t1\t1\t1\n"), Err(UidError::Invalid)));
    assert!(matches!(parse_uids("Uid:\t1\t1\t1\n"), Err(UidError::Count)));
}

#[test]
fn stat_fields_are_told_apart() {
    assert!(matches!(parse_process_start_time("42 S"), Err(StartTimeError::NoCommand)));
    assert!(matches!(parse_process_start_time("42 (x) S 1"), Err(StartTimeError::Missing)));
    let stat = "42 (x) S 1 2 3 4 5 6 7 8 9 10 11 12 13 14 15 16 17 18 late 20";
    assert!(matches!(parse_process_start_time(stat), Err(StartTimeError::Invalid)));
}

#[test]
fn processors_come_from_their_lines() {
    let text = "processor\t: 2\nmodel : x\nprocessor : 0\nprocessor: 2\n";
    assert_eq!(present_cpus(text), Some(vec![0, 2]));
    assert_eq!(present_cpus("model: x\n"), None);
    assert_eq!(
        affinity_from_status("Name: x\nCpus_allowed_list:\t0-2\n"),
        Some(vec![0, 1, 2])
    );
    assert_eq!(prime_state(&[0, 1, 2], &[0, 1]), Some((2, false)));
    assert_eq!(prime_state(&[], &[0]), None);
}

#[test]
fn only_the_apps_own_processes_are_moved() {
    assert_eq!(app_owner_uids(&[10402, 0, 10401, 10402]), vec![10401, 10402]);
    assert_eq!(caller_app_uid(10402, &[10402]).unwrap(), 10402);
    assert_eq!(caller_app_uid(0, &app_owner_uids(&[10402, 10401])).unwrap(), 10401);
    assert!(caller_app_uid(0, &[]).is_err());
    assert!(caller_app_uid(2000, &[2000]).is_err());
    assert!(caller_app_uid(10403, &[10402]).is_err());
    assert_eq!(validate_process_uids(7, &[10402; 4], 10402).unwrap(), 10402);
    assert!(validate_process_uids(0, &[10402; 4], 10402).is_err());
    assert!(validate_process_uids(7, &[10402, 0, 0, 0], 10402).is_err());
    assert!(validate_process_uids(7, &[10403; 4], 10402).is_err());
    assert!(validate_process_uids(7, &[2000; 4], 2000).is_err());
    assert!(validate_start_time(7, 5, None).is_ok());
    assert!(validate_start_time(7, 5, Some(5)).is_ok());
    assert!(validate_start_time(7, 5, Some(6)).is_err());
}

#[test]
fn transactions_tell_how_they_failed() {
    let kept = run_profile_transaction::<u32, String, _, _>(
        PrimeAction::Attach,
        || Ok(3),
        || Err("never".to_string()),
    );
    assert!(matches!(kept, Ok(3)));
    let released = run_profile_transaction::<u32, String, _, _>(
        PrimeAction::Release,
        || Err("no".to_string()),
        || Ok(()),
    );
    assert!(matches!(released, Err(ProfileFailure::Failed(text)) if text == "no"));
    let both = run_profile_transaction::<u32, String, _, _>(
        PrimeAction::Attach,
        || Err("first".to_string()),
        || Err("second".to_string()),
    );
    match both {
        Err(ProfileFailure::RollbackFailed { error, rollback }) => {
            assert_eq!((error.as_str(), rollback.as_str()), ("first", "second"))
        }
        _ => panic!("both steps failed"),
    }
}

#[test]
fn actions_name_their_profiles() {
    assert_eq!(PrimeAction::Attach.profile(), "CPUSET_SP_TOP_APP");
    assert_eq!(PrimeAction::Release.profile(), "CPUSET_SP_FOREGROUND");
    assert_eq!(PrimeAction::Attach.cpuset_directory(), "/dev/cpuset/top-app");
    assert_eq!(PrimeAction::Release.group(), "foreground");
    assert_eq!(
        prime_root_command("/proc/9/exe", PrimeAction::Attach, 12, 10402, 99),
        "exec '/proc/9/exe' __prime-apply attach 12 10402 99"
    );
    assert_eq!(
        root_run_command(&["ls".to_string(), "a b".to_string()]),
        "exec 'ls' 'a b'"
    );
    assert_eq!(
        moved_line(4, PrimeAction::Attach, &None, ""),
        "ostadix-device: PID 4 -> top-app (cpuset unavailable, CPUs unavailable)"
    );
}

#[test]
fn jobs_come_from_the_first_source_that_has_them() {
    assert_eq!(effective_jobs(Some(3), Some("9"), 5), 3);
    assert_eq!(effective_jobs(None, Some("9"), 5), 9);
    assert_eq!(effective_jobs(None, Some("0"), 5), 5);
    assert_eq!(effective_jobs(None, Some("-1"), 5), 5);
    assert_eq!(effective_jobs(None, None, 5), 5);
    assert!(jobs_allowed(None));
    assert!(!jobs_allowed(Some(0)));
    assert_eq!(BuildTarget::All.parts(), (true, true));
    assert_eq!(BuildTarget::C17.parts(), (false, true));
    assert_eq!(c17_arguments(6, &None)[3..5], ["-j6", "CC=clang"]);
    assert_eq!(c17_arguments(6, &Some("/bin/ccache".into()))[4], "CC=/bin/ccache clang");
}

#[test]
fn exit_codes_pass_on_how_a_child_ended() {
    assert_eq!(exit_status_code(Some(3), None), 3);
    assert_eq!(exit_status_code(Some(300), None), 1);
    assert_eq!(exit_status_code(None, Some(9)), 137);
    assert_eq!(exit_status_code(None, Some(200)), 1);
    assert_eq!(exit_status_code(None, None), 1);
}

#[test]
fn paths_and_lines_are_sorted_out() {
    let roots = vec!["/home".to_string(), "/data/files".to_string()];
    assert!(is_private_path("/home/me/x", &roots));
    assert!(is_private_path("/data/files", &roots));
    assert!(!is_private_path("/homework", &roots));
    let paths: Vec<String> = ["/a", "/b", "/a"].iter().map(|s| s.to_string()).collect();
    assert_eq!(unique_paths(&paths), ["/a", "/b"]);
    assert_eq!(nonblank_lines(" a \n\n\tb\r\n"), ["a", "b"]);
    assert_eq!(trimmed_text("  x "), Some("x".to_string()));
    assert_eq!(trimmed_text(" \n"), None);
    assert!(looks_like_termux(false, Some("/data/data/com.termux/files/usr"), false));
    assert!(looks_like_termux(true, None, false));
    assert!(!looks_like_termux(false, Some("/usr"), false));
    let tasks: Vec<String> = ["12", "x", "3"].iter().map(|s| s.to_string()).collect();
    assert_eq!(thread_ids(&tasks), [3, 12]);
}

#[test]
fn placements_are_confirmed() {
    assert!(confirm_profile(PrimeAction::Release, 4, Some(7), Some(false), "0-6").is_ok());
    assert!(confirm_profile(PrimeAction::Attach, 4, Some(7), None, "0-6").is_ok());
    assert_eq!(
        confirm_profile(PrimeAction::Attach, 4, Some(7), Some(false), "0-6").unwrap_err(),
        "Android applied top-app, but CPU 7 is still outside PID 4 affinity (0-6)"
    );
    assert!(confirm_pinned(7, &[7]).is_ok());
    assert_eq!(
        confirm_pinned(7, &[6, 7]).unwrap_err(),
        "requested CPU 7, but the live affinity is 6-7"
    );
}

#[test]
fn guards_let_go_of_what_they_took() {
    assert_eq!(guard_start(false, PrimeAffinity::Pinned), GuardStep::Held);
    let mut step = guard_start(true, PrimeAffinity::Pinned);
    let mut seen = vec![step];
    for well in [true, true, false, false, true] {
        step = guard_next(step, well, PrimeAffinity::Pinned);
        seen.push(step);
    }
    assert_eq!(
        seen,
        [
            GuardStep::Capture,
            GuardStep::Attach,
            GuardStep::Pin,
            GuardStep::Unpin,
            GuardStep::Release,
            GuardStep::Failed,
        ]
    );
    assert_eq!(drop_start(true, true), DropStep::Restore);
    assert_eq!(drop_next(DropStep::Restore, false), DropStep::Release { retry: true });
    assert_eq!(drop_next(DropStep::Release { retry: true }, true), DropStep::Retry);
    assert_eq!(drop_next(DropStep::Release { retry: false }, false), DropStep::Done);
    assert_eq!(drop_start(false, true), DropStep::Done);
}

#[test]
fn only_failed_attaches_are_taken_back() {
    let run = |action: PrimeAction, applied: Result<u8, &'static str>, undone: Result<(), &'static str>| {
        let events = RefCell::new(Vec::new());
        let result = run_profile_transaction(
            action,
            || {
                events.borrow_mut().push("apply");
                applied
            },
            || {
                events.borrow_mut().push("rollback");
                undone
            },
        );
        (result, events.into_inner())
    };
    let (result, events) = run(PrimeAction::Attach, Ok(7), Ok(()));
    assert!(matches!(result, Ok(7)));
    assert_eq!(events, ["apply"]);
    let (result, events) = run(PrimeAction::Release, Err("no"), Ok(()));
    assert!(matches!(result, Err(ProfileFailure::Failed("no"))));
    assert_eq!(events, ["apply"]);
    let (result, events) = run(PrimeAction::Attach, Err("no"), Ok(()));
    assert!(matches!(result, Err(ProfileFailure::RolledBack("no"))));
    assert_eq!(events, ["apply", "rollback"]);
    let (result, events) = run(PrimeAction::Attach, Err("no"), Err("neither"));
    assert!(matches!(
        result,
        Err(ProfileFailure::RollbackFailed { error: "no", rollback: "neither" })
    ));
    assert_eq!(events, ["apply", "rollback"]);
}
