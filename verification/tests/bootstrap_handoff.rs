use quickinit::bootstrap::{
    boot_start, boot_step, child_path, error, is_error, message_len, message_text, written,
    BootAction, BootStage, Message, ECHILD,
};

fn run(results: &[u64]) -> Vec<BootAction> {
    let (mut stage, mut action) = boot_start();
    let mut actions = vec![action];
    for &result in results {
        if stage == BootStage::Exiting {
            break;
        }
        let next = boot_step(stage, result);
        stage = next.0;
        action = next.1;
        actions.push(action);
    }
    actions
}

#[test]
fn message_lengths_match_their_bytes() {
    assert_eq!(message_len(Message::Booting), 65);
    assert_eq!(message_len(Message::Ready), 77);
    assert_eq!(message_len(Message::Failure), 73);
    for message in [Message::Booting, Message::Ready, Message::Failure] {
        assert_eq!(message_len(message), message_text(message).as_bytes().len());
    }
    assert!(message_text(Message::Ready).ends_with("bootstrap ready; child reaped\n"));
    assert_eq!(child_path(), "/bin/rust-smoke");
}

#[test]
fn error_numbers_are_the_last_4096_values() {
    assert!(is_error(u64::MAX));
    assert!(is_error(u64::MAX - 4095));
    assert!(!is_error(u64::MAX - 4096));
    assert!(!is_error(0));
    assert_eq!(error(ECHILD), u64::MAX - 9);
    assert_eq!(error(0), 0);
    assert!(is_error(error(ECHILD)));
    assert_eq!(written(error(5)), 0);
    assert_eq!(written(12), 12);
}

#[test]
fn successful_handoff_exits_with_zero() {
    let actions = run(&[65, 1, error(ECHILD), 7, 7, 77]);
    assert_eq!(
        actions,
        vec![
            BootAction::Write { fd: 1, message: Message::Booting },
            BootAction::GetPid,
            BootAction::Wait { pid: 0 },
            BootAction::Spawn,
            BootAction::Wait { pid: 7 },
            BootAction::Write { fd: 1, message: Message::Ready },
            BootAction::Exit { status: 0 },
        ]
    );
}

fn failure_status(results: &[u64]) -> u64 {
    let actions = run(results);
    let n = actions.len();
    assert_eq!(actions[n - 2], BootAction::Write { fd: 2, message: Message::Failure });
    match actions[n - 1] {
        BootAction::Exit { status } => status,
        other => panic!("expected an exit, got {other:?}"),
    }
}

#[test]
fn each_failed_check_exits_with_its_status() {
    assert_eq!(failure_status(&[64, 0]), 1);
    assert_eq!(failure_status(&[error(5), 0]), 1);
    assert_eq!(failure_status(&[65, 2, error(ECHILD), 0]), 2);
    assert_eq!(failure_status(&[65, error(1), error(ECHILD), 0]), 2);
    assert_eq!(failure_status(&[65, 1, 3, 0]), 2);
    assert_eq!(failure_status(&[65, 1, error(4), 0]), 2);
    assert_eq!(failure_status(&[65, 1, error(ECHILD), 0, 0]), 4);
    assert_eq!(failure_status(&[65, 1, error(ECHILD), error(12), 0]), 4);
    assert_eq!(failure_status(&[65, 1, error(ECHILD), 7, 8, 0]), 5);
    assert_eq!(failure_status(&[65, 1, error(ECHILD), 7, 7, 76, 0]), 3);
}

#[test]
fn failing_stage_ignores_the_failure_write_result() {
    assert_eq!(
        boot_step(BootStage::Failing { status: 4 }, error(9)),
        (BootStage::Exiting, BootAction::Exit { status: 4 })
    );
}
