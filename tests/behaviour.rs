use mini_shell::command::{Job, ShellError};
use mini_shell::emulator::{Emulator, PathKind, Plan};
use mini_shell::listing::{
    entry_row, list_directory_simple, list_directory_with_args, long_listing, EntryInfo,
    EntryKind,
};

fn run_plain(emulator: &mut Emulator, line: &str) -> Result<String, ShellError> {
    let plan = emulator.process_command(line);
    assert!(plan.target.is_none());
    match plan.job {
        Job::Finished(r) => r,
        _ => panic!("expected a finished job"),
    }
}

fn job_of(emulator: &mut Emulator, line: &str) -> Plan {
    emulator.process_command(line)
}

#[test]
fn history_keeps_latest_ten() {
    let mut emulator = Emulator::new("/w".to_string());
    for i in 0..11 {
        let _ = emulator.process_command(&format!("echo {}", i));
    }
    let expected: Vec<String> = (1..11).map(|i| format!("echo {}", i)).collect();
    assert_eq!(emulator.history.render(), expected.join("\n"));
    let out = run_plain(&mut emulator, "history").unwrap();
    assert_eq!(out.split('\n').count(), 10);
    assert!(!out.contains("echo 0"));
    assert!(out.ends_with("history"));
}

#[test]
fn blank_commands_not_in_history() {
    let mut emulator = Emulator::new("/w".to_string());
    let _ = emulator.process_command("   ");
    let _ = emulator.process_command("");
    let _ = emulator.process_command("\t\n");
    let _ = emulator.process_command("  pwd  \n");
    assert_eq!(run_plain(&mut emulator, "history").unwrap(), "pwd\nhistory");
}

#[test]
fn echo_gives_back_argument() {
    let mut emulator = Emulator::new("/w".to_string());
    assert_eq!(run_plain(&mut emulator, "echo a  b c").unwrap(), "a  b c");
    assert_eq!(run_plain(&mut emulator, "echo   ").unwrap(), "");
    assert_eq!(emulator.echo("echo x").unwrap(), "x");
    assert_eq!(run_plain(&mut emulator, "echox"), Err(ShellError::EchoUsage));
}

#[test]
fn cd_missing_keeps_directory() {
    let mut emulator = Emulator::new("/w".to_string());
    let path = match job_of(&mut emulator, "cd nowhere").job {
        Job::ChangeDirectory { path } => path,
        _ => panic!("expected a change of directory"),
    };
    assert_eq!(path, "/w/nowhere");
    assert_eq!(emulator.change_directory(path, PathKind::Missing), Err(ShellError::PathMissing));
    assert_eq!(run_plain(&mut emulator, "pwd").unwrap(), "/w");
    let r = emulator.change_directory("/w/file".to_string(), PathKind::Other);
    assert_eq!(r, Err(ShellError::NotADirectory));
    assert_eq!(r.unwrap_err().message(), "Path is not a directory");
    assert_eq!(emulator.change_directory("/w/sub".to_string(), PathKind::Directory).unwrap(), "");
    assert_eq!(run_plain(&mut emulator, "pwd").unwrap(), "/w/sub");
    assert_eq!(run_plain(&mut emulator, "cd"), Err(ShellError::ChangeDirectoryUsage));
}

#[test]
fn cd_resolves_against_current_directory() {
    let emulator = Emulator::new("/w/".to_string());
    assert_eq!(emulator.change_directory_target("cd a").unwrap(), "/w/a");
    assert_eq!(emulator.change_directory_target("cd /abs").unwrap(), "/abs");
}

#[test]
fn redirect_targets_and_payload() {
    let mut emulator = Emulator::new("/w".to_string());
    let plan = job_of(&mut emulator, "echo hi > out.txt");
    let target = plan.target.expect("a target");
    assert_eq!(target.path, "/w/out.txt");
    assert!(!target.append);
    match plan.job {
        Job::Finished(Ok(s)) => assert_eq!(s, "hi"),
        _ => panic!("expected the result of echo"),
    }
    let plan = job_of(&mut emulator, "echo hi >> out.txt");
    assert!(plan.target.expect("a target").append);
    assert_eq!(Emulator::redirect_payload("hi"), "hi\n");
    let once = Emulator::redirect_payload("hi");
    let twice = format!("{}{}", once, Emulator::redirect_payload("hi"));
    assert_eq!(twice.lines().count(), 2 * once.lines().count());
    assert_eq!(
        run_plain(&mut emulator, "history").unwrap(),
        "echo hi > out.txt\necho hi\necho hi >> out.txt\necho hi\nhistory"
    );
}

#[test]
fn redirect_usage_errors() {
    let mut emulator = Emulator::new("/w".to_string());
    for line in ["a > > b", "a >>> b", "> f", "echo hi >", "echo hi >>   "] {
        assert_eq!(run_plain(&mut emulator, line), Err(ShellError::OutputUsage), "{}", line);
    }
    assert_eq!(run_plain(&mut emulator, "echox > f"), Err(ShellError::EchoUsage));
    assert_eq!(
        ShellError::OutputUsage.message(),
        "Invalid command. Correct usage `command > file` OR `command >> file`"
    );
    for line in ["sort < a < b", "< f", "sort <"] {
        assert_eq!(run_plain(&mut emulator, line), Err(ShellError::InputUsage), "{}", line);
    }
}

#[test]
fn input_redirection() {
    let mut emulator = Emulator::new("/w".to_string());
    match job_of(&mut emulator, "sort < lines.txt").job {
        Job::Input { path, sort } => {
            assert_eq!(path, "/w/lines.txt");
            assert!(sort);
        }
        _ => panic!("expected an input job"),
    }
    match job_of(&mut emulator, "cat < lines.txt").job {
        Job::Input { sort, .. } => {
            assert!(!sort);
            assert_eq!(emulator.input_result(sort, "x"), Err(ShellError::CommandNotFound));
        }
        _ => panic!("expected an input job"),
    }
    let plan = job_of(&mut emulator, "sort < in.txt > out.txt");
    assert_eq!(plan.target.expect("a target").path, "/w/out.txt");
}

#[test]
fn sort_orders_lines() {
    let emulator = Emulator::new("/w".to_string());
    let sorted = emulator.process_sort_command("pear\napple\nPeach\n\nbanana").unwrap();
    assert_eq!(sorted, "\nPeach\napple\nbanana\npear");
    assert_eq!(emulator.process_sort_command(&sorted).unwrap(), sorted);
    assert_eq!(emulator.process_sort_command("").unwrap(), "");
    assert_eq!(emulator.process_sort_command("b\na\n").unwrap(), "\na\nb");
    assert_eq!(emulator.input_result(true, "2\n10\n1").unwrap(), "1\n10\n2");
}

#[test]
fn listing_scenario() {
    assert_eq!(list_directory_simple(&vec![]), "");
    assert_eq!(list_directory_simple(&vec!["a.txt".to_string()]), "a.txt");
    assert_eq!(list_directory_simple(&vec!["a".to_string(), "b".to_string()]), "a\tb");
    let entries = vec![EntryInfo {
        name: "a.txt".to_string(),
        kind: EntryKind::File,
        mode: 0o100644,
        size: 1234,
        modified: Some(0),
    }];
    let out = list_directory_with_args(&entries).unwrap();
    let lines: Vec<&str> = out.split('\n').collect();
    assert_eq!(lines.len(), 2);
    assert_eq!(lines[0], "Type\tMode\tSize\tModification Time\tName");
    assert!(lines[1].starts_with('f'));
    assert_eq!(lines[1], "f\t0644\t1234\t1970-01-01 00:00:00\ta.txt");
    assert_eq!(long_listing(&vec![], &vec![]), "Type\tMode\tSize\tModification Time\tName");
    assert_eq!(list_directory_with_args(&vec![]).unwrap(), "Type\tMode\tSize\tModification Time\tName");
}

#[test]
fn listing_timestamps() {
    let mut e = EntryInfo {
        name: "d".to_string(),
        kind: EntryKind::Directory,
        mode: 0o40755,
        size: 0,
        modified: Some(1431648000),
    };
    let out = list_directory_with_args(&vec![e]).unwrap();
    assert_eq!(out.split('\n').nth(1).unwrap(), "d\t0755\t0\t2015-05-15 00:00:00\td");
    e = EntryInfo { name: "x".to_string(), kind: EntryKind::Other, mode: 0, size: 7, modified: None };
    assert_eq!(list_directory_with_args(&vec![e]), Err(ShellError::TimestampOutOfRange));
    let far = EntryInfo {
        name: "x".to_string(),
        kind: EntryKind::File,
        mode: 0,
        size: 7,
        modified: Some(u64::MAX),
    };
    assert_eq!(list_directory_with_args(&vec![far]), Err(ShellError::TimestampOutOfRange));
    let last = EntryInfo {
        name: "x".to_string(),
        kind: EntryKind::File,
        mode: 0,
        size: 7,
        modified: Some(8_210_266_876_799),
    };
    let out = list_directory_with_args(&vec![last]).unwrap();
    assert_eq!(out.split('\n').nth(1).unwrap(), "f\t0000\t7\t+262142-12-31 23:59:59\tx");
    let beyond = EntryInfo {
        name: "x".to_string(),
        kind: EntryKind::File,
        mode: 0,
        size: 7,
        modified: Some(8_210_266_876_800),
    };
    assert_eq!(list_directory_with_args(&vec![beyond]), Err(ShellError::TimestampOutOfRange));
    let row = entry_row(
        &EntryInfo { name: "n".to_string(), kind: EntryKind::Other, mode: 0o7777, size: 10, modified: None },
        "T",
    );
    assert_eq!(row, "?\t7777\t10\tT\tn");
}

#[test]
fn ls_forms() {
    let mut emulator = Emulator::new("/w".to_string());
    assert!(matches!(job_of(&mut emulator, "ls").job, Job::List { long: false }));
    assert!(matches!(job_of(&mut emulator, "ls -l").job, Job::List { long: true }));
    assert_eq!(run_plain(&mut emulator, "ls -a"), Err(ShellError::ListUsage));
    assert_eq!(emulator.list_directory("ls -l"), Ok(true));
    assert_eq!(emulator.list_directory("lsx"), Err(ShellError::ListUsage));
}

#[test]
fn rm_and_rmdir() {
    let mut emulator = Emulator::new("/w".to_string());
    match job_of(&mut emulator, "rm sub").job {
        Job::Remove { path, directory } => {
            assert_eq!(path, "/w/sub");
            assert!(!directory);
            let r = Emulator::removal_check(PathKind::Directory, directory);
            assert_eq!(r, Err(ShellError::IsADirectory));
            assert!(r.unwrap_err().message().contains("rmdir"));
        }
        _ => panic!("expected a removal"),
    }
    match job_of(&mut emulator, "rmdir sub").job {
        Job::Remove { path, directory } => {
            assert_eq!(path, "/w/sub");
            assert!(directory);
            assert_eq!(Emulator::removal_check(PathKind::Directory, directory), Ok(()));
        }
        _ => panic!("expected a removal"),
    }
    assert_eq!(Emulator::removal_check(PathKind::Missing, true), Err(ShellError::OpenFailed));
    assert_eq!(Emulator::removal_check(PathKind::Other, false), Ok(()));
    assert_eq!(run_plain(&mut emulator, "rm"), Err(ShellError::RemoveUsage));
    assert_eq!(run_plain(&mut emulator, "rmdir"), Err(ShellError::RemoveUsage));
    assert_eq!(run_plain(&mut emulator, "rmx"), Err(ShellError::RemoveUsage));
}

#[test]
fn cat_and_sleep() {
    let mut emulator = Emulator::new("/w".to_string());
    match job_of(&mut emulator, "cat notes.txt").job {
        Job::ReadFile { path } => assert_eq!(path, "/w/notes.txt"),
        _ => panic!("expected a read"),
    }
    assert_eq!(run_plain(&mut emulator, "cat"), Err(ShellError::CatUsage));
    assert!(matches!(job_of(&mut emulator, "sleep 5").job, Job::Sleep { seconds: 5 }));
    assert!(matches!(job_of(&mut emulator, "sleep +7").job, Job::Sleep { seconds: 7 }));
    assert!(matches!(
        job_of(&mut emulator, "sleep 18446744073709551615").job,
        Job::Sleep { seconds: 18446744073709551615 }
    ));
    assert_eq!(run_plain(&mut emulator, "sleep 18446744073709551616"), Err(ShellError::SleepDuration));
    assert_eq!(run_plain(&mut emulator, "sleep x"), Err(ShellError::SleepDuration));
    assert_eq!(run_plain(&mut emulator, "sleep -1"), Err(ShellError::SleepDuration));
    assert_eq!(run_plain(&mut emulator, "sleep"), Err(ShellError::SleepUsage));
    assert!(matches!(job_of(&mut emulator, "exit").job, Job::Exit));
    assert!(job_of(&mut emulator, "exit > f").target.is_none());
}

#[test]
fn background_marker() {
    assert_eq!(Emulator::background_command("echo hi &\n"), Some("echo hi".to_string()));
    assert_eq!(Emulator::background_command("sleep 1 & &"), Some("sleep 1 &".to_string()));
    assert_eq!(Emulator::background_command("  echo a  &  "), Some("echo a ".to_string()));
    assert_eq!(Emulator::background_command("echo hi"), None);
    assert_eq!(Emulator::background_command("echo hi&"), None);
    let mut emulator = Emulator::new("/w".to_string());
    let _ = emulator.process_command("pwd");
    let mut copy = emulator.clone();
    let _ = copy.process_command("echo only here");
    let _ = copy.change_directory("/elsewhere".to_string(), PathKind::Directory);
    assert_eq!(emulator.history.render(), "pwd");
    assert_eq!(emulator.path, "/w");
    assert_eq!(copy.history.render(), "pwd\necho only here");
}

#[test]
fn terminal_text() {
    assert_eq!(Emulator::print_prompt(), "$ ");
    assert_eq!(Emulator::print_to_stdout("done", true), "done\n");
    assert_eq!(Emulator::print_to_stdout("done", false), "done");
    assert_eq!(ShellError::ReadFailed.message(), "Failed to read from file");
    assert_eq!(ShellError::WriteFailed.message(), "Failed to write to file");
    assert_eq!(ShellError::RemoveFailed.message(), "Failed to remove");
    assert_eq!(ShellError::SleepDuration.message(), "sleep duration should be a positive integer");
}
