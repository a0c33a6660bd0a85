use hyperbug::error::{new_exit_slot, request_exit};
use hyperbug::{GuestExit, HyperbugError};

#[test]
fn the_first_writer_wins_and_later_ones_do_not_overwrite_it() {
    let mut slot = new_exit_slot();
    assert!(!slot.is_requested());
    assert!(slot.take().is_none());

    request_exit(&mut slot, Ok(GuestExit::CleanShutdown));
    request_exit(&mut slot, Err(HyperbugError::Kvm("a later, unrelated fault".into())));

    assert!(slot.is_requested());
    assert_eq!(slot.take().unwrap().unwrap(), GuestExit::CleanShutdown);
}

#[test]
fn exit_codes_match_the_documented_python_side_values() {
    assert_eq!(GuestExit::CleanShutdown.code(), 0);
    assert_eq!(GuestExit::RequestedReboot.code(), 10);
    assert_eq!(GuestExit::TripleFault.code(), 11);
    assert_eq!(GuestExit::MigratedAway.code(), 13);
    assert_eq!(HyperbugError::Config(String::new()).exit_code(), 2);
    assert_eq!(HyperbugError::Kvm(String::new()).exit_code(), 1);
}

#[test]
fn every_error_says_what_failed() {
    assert_eq!(HyperbugError::Config("--mem needs a value".into()).text(), "configuration error: --mem needs a value");
    assert_eq!(HyperbugError::Kvm("no such ioctl".into()).text(), "KVM error: no such ioctl");
    assert_eq!(HyperbugError::Io("broken pipe".into()).text(), "I/O error: broken pipe");
    assert_eq!(HyperbugError::Python("no class".into()).text(), "Python device error: no class");
    assert_eq!(HyperbugError::Io(String::new()).exit_code(), 1);
}
