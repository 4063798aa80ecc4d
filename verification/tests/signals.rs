use deet::event::{Signal, SIGTRAP};
use nix::sys::signal::Signal as SystemSignal;

#[test]
fn trap_signal_has_the_number_of_the_system() {
    assert_eq!(SIGTRAP, SystemSignal::SIGTRAP as i32);
    assert!(Signal { number: SystemSignal::SIGTRAP as i32 }.is_trap());
}

#[test]
fn other_signals_are_not_the_trap() {
    for signal in [
        SystemSignal::SIGSEGV,
        SystemSignal::SIGINT,
        SystemSignal::SIGKILL,
        SystemSignal::SIGSTOP,
        SystemSignal::SIGILL,
    ] {
        assert!(!Signal { number: signal as i32 }.is_trap());
    }
    assert!(!Signal { number: 0 }.is_trap());
    assert!(!Signal { number: -5 }.is_trap());
}
