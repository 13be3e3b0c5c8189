//! The terminal-size rules and the input-echo rule of the fallback strategy.

use ttyd_rust::pty::PtySize;
use ttyd_rust::pty::echo_for_input;
use ttyd_rust::pty::effective_command;

#[test]
fn default_size_is_80_by_24() {
    let s = PtySize::default();
    assert_eq!((s.cols, s.rows), (80, 24));
}

#[test]
fn effective_size_defaults_each_zero_component() {
    assert_eq!(PtySize::effective(0, 0), PtySize { cols: 80, rows: 24 });
    assert_eq!(PtySize::effective(0, 50), PtySize { cols: 80, rows: 50 });
    assert_eq!(PtySize::effective(120, 0), PtySize { cols: 120, rows: 24 });
    assert_eq!(PtySize::effective(120, 50), PtySize { cols: 120, rows: 50 });
}

#[test]
fn empty_command_falls_back_to_the_shell() {
    let argv = effective_command(&Vec::new(), String::from("cmd.exe"));
    assert_eq!(argv, vec![String::from("cmd.exe")]);
}

#[test]
fn configured_command_is_kept_as_given() {
    let cmd = vec![String::from("bash"), String::from("-l")];
    let argv = effective_command(&cmd, String::from("cmd.exe"));
    assert_eq!(argv, cmd);
}

#[test]
fn carriage_return_echoes_as_cr_lf() {
    assert_eq!(echo_for_input(&vec![13]), Some(vec![13, 10]));
}

#[test]
fn control_c_and_control_d_are_not_echoed() {
    assert_eq!(echo_for_input(&vec![3]), None);
    assert_eq!(echo_for_input(&vec![4]), None);
}

#[test]
fn empty_input_is_not_echoed() {
    assert_eq!(echo_for_input(&Vec::new()), None);
}

#[test]
fn ordinary_input_echoes_verbatim() {
    assert_eq!(echo_for_input(&vec![b'a']), Some(vec![b'a']));
    let arrow = vec![0x1b, b'[', b'A'];
    assert_eq!(echo_for_input(&arrow), Some(arrow.clone()));
    let multi = vec![13, 10, b'x'];
    assert_eq!(echo_for_input(&multi), Some(multi.clone()));
}
