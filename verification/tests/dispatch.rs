use coreutils_wrapper::dispatch::dispatch;
use coreutils_wrapper::dispatch::forward_exit_code;
use coreutils_wrapper::dispatch::Mode;
use coreutils_wrapper::dispatch::LAUNCH_FAILURE_EXIT_CODE;

fn names(list: &[&str]) -> Vec<Vec<u8>> {
    list.iter().map(|s| s.as_bytes().to_vec()).collect()
}

fn bytes(s: &str) -> Vec<u8> {
    s.as_bytes().to_vec()
}

#[test]
fn link_flags_select_install() {
    assert!(matches!(dispatch(&bytes("coreutils-wrapper"), &names(&["-link"])), Mode::Link));
    assert!(matches!(dispatch(&bytes("coreutils-wrapper"), &names(&["--link"])), Mode::Link));
}

#[test]
fn drop_flags_select_uninstall() {
    assert!(matches!(dispatch(&bytes("coreutils-wrapper"), &names(&["-drop"])), Mode::Drop));
    assert!(matches!(dispatch(&bytes("coreutils-wrapper"), &names(&["--drop"])), Mode::Drop));
}

#[test]
fn pwsh_flag_selects_guidance() {
    assert!(matches!(dispatch(&bytes("coreutils-wrapper"), &names(&["--pwsh"])), Mode::Pwsh));
}

#[test]
fn unknown_or_missing_flag_selects_help() {
    assert!(matches!(dispatch(&bytes("coreutils-wrapper"), &names(&[])), Mode::Help));
    assert!(matches!(dispatch(&bytes("coreutils-wrapper"), &names(&["--frobnicate"])), Mode::Help));
    assert!(matches!(dispatch(&bytes("coreutils-wrapper"), &names(&["link"])), Mode::Help));
}

#[test]
fn other_names_forward_with_name_prepended() {
    let m = dispatch(&bytes("ls"), &names(&["a", "b"]));
    match m {
        Mode::Forward { argv } => assert_eq!(argv, names(&["ls", "a", "b"])),
        _ => panic!("expected forwarding mode"),
    }
}

#[test]
fn forwarding_ignores_mode_flags() {
    let m = dispatch(&bytes("ls"), &names(&["--link"]));
    match m {
        Mode::Forward { argv } => assert_eq!(argv, names(&["ls", "--link"])),
        _ => panic!("expected forwarding mode"),
    }
}

#[test]
fn forward_exit_code_mirrors_child() {
    assert_eq!(forward_exit_code(Some(0)), 0);
    assert_eq!(forward_exit_code(Some(3)), 3);
    assert_eq!(forward_exit_code(None), 1);
}

#[test]
fn launch_failure_is_nonzero() {
    assert_ne!(LAUNCH_FAILURE_EXIT_CODE, 0);
}
