use tracehell::error::ErrorKind;
use tracehell::safety::{check_commad_safety, keep_alive, UnsafeCommand};

#[test]
fn t_keep_alive() {
    let mut command = String::from("cargo run");

    let result = String::from("cargo run; bash");
    keep_alive(&mut command);

    assert!(command == result);
}

#[test]
fn refuses_each_listed_word() {
    assert_eq!(check_commad_safety("rm -rf /"), Err(UnsafeCommand::Rm));
    assert_eq!(check_commad_safety("cargo run --farm"), Err(UnsafeCommand::Rm));
    assert_eq!(check_commad_safety("dd if=/dev/zero"), Err(UnsafeCommand::DiskWrite));
    assert_eq!(check_commad_safety("cargo add"), Err(UnsafeCommand::DiskWrite));
    assert_eq!(check_commad_safety("wipefs -a"), Err(UnsafeCommand::DiskWrite));
    assert_eq!(check_commad_safety("sudo ls"), Err(UnsafeCommand::PrivilageEscalation));
    assert_eq!(check_commad_safety("cargo test"), Ok(()));
    assert_eq!(check_commad_safety(""), Ok(()));
}

#[test]
fn rm_is_reported_before_the_others() {
    assert_eq!(check_commad_safety("sudo dd rm"), Err(UnsafeCommand::Rm));
    assert_eq!(check_commad_safety("sudo dd"), Err(UnsafeCommand::DiskWrite));
}

#[test]
fn keep_alive_keeps_the_verdict() {
    for text in ["cargo run", "su", "r", "d", "wipef", "sud", "rm", "ls; dd"] {
        let before = check_commad_safety(text);
        let mut command = text.to_string();
        keep_alive(&mut command);
        assert_eq!(check_commad_safety(&command), before);
    }
}

#[test]
fn refusal_is_permission_denied() {
    for refused in [UnsafeCommand::Rm, UnsafeCommand::DiskWrite, UnsafeCommand::PrivilageEscalation] {
        let err = refused.into_error();
        assert_eq!(err.kind, ErrorKind::PermissionDenied);
        assert_eq!(err.message, "unsafe operation detected");
    }
}
