use mini_shell::command::{Job, ShellError};
use mini_shell::emulator::{Emulator, PathKind, Plan};

fn finished(plan: Plan) -> Result<String, ShellError> {
    assert!(plan.target.is_none());
    match plan.job {
        Job::Finished(r) => r,
        _ => panic!("expected a finished job"),
    }
}

#[test]
fn test_process_command() {
    let mut emulator = Emulator::new("/home/user".to_string());
    let result = finished(emulator.process_command("test_input"));
    match result {
        Ok(_) => panic!("expected error, got Ok"),
        Err(err) => assert_eq!(err.message(), "mini-shell: command not found"),
    }
}

#[test]
fn test_process_command_pwd() {
    let mut emulator = Emulator::new("/home/user".to_string());
    let result = finished(emulator.process_command("pwd"));
    match result {
        Ok(value) => assert_eq!(value, emulator.path),
        Err(_) => panic!("[test_process_command_pwd] expected Ok, got error"),
    }
}

#[test]
fn test_process_command_echo() {
    let test_cases = [("echo hello", "hello"), ("echo", "")];
    let mut emulator = Emulator::new("/home/user".to_string());
    for (input, expected) in test_cases.iter() {
        match finished(emulator.process_command(input)) {
            Ok(value) => assert_eq!(value, *expected),
            Err(_) => panic!("[test_process_command_echo] expected Ok, got error"),
        }
    }
}

#[test]
fn test_process_command_cd() {
    let temp_dir = tempfile::tempdir().unwrap();
    let mut emulator = Emulator::new(temp_dir.path().to_str().unwrap().to_string());
    let plan = emulator.process_command("cd /tmp");
    let result = match plan.job {
        Job::ChangeDirectory { path } => {
            let kind = if !std::path::Path::new(&path).exists() {
                PathKind::Missing
            } else if std::path::Path::new(&path).is_dir() {
                PathKind::Directory
            } else {
                PathKind::Other
            };
            emulator.change_directory(path, kind)
        }
        _ => panic!("[test_process_command_cd] expected a change of directory"),
    };
    match result {
        Ok(_) => assert_eq!(emulator.path, "/tmp"),
        Err(_) => panic!("[test_process_command_cd] expected Ok, got error"),
    }
    temp_dir.close().unwrap();
}

#[test]
fn test_process_command_history() {
    let mut emulator = Emulator::new("/home/user".to_string());
    let _ignored = emulator.process_command("ls");
    let _ignored = emulator.process_command("pwd");
    let _ignored = emulator.process_command("echo");
    let expected_result = "ls\npwd\necho\nhistory";
    match finished(emulator.process_command("history")) {
        Ok(value) => assert_eq!(value, expected_result),
        Err(_) => panic!("[test_process_command_history] expected Ok, got error"),
    }
}
