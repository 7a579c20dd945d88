use zimhide::{Cli, Verbosity};

#[test]
fn from_flags_quiet_wins() {
    assert_eq!(Verbosity::from_flags(true, false), Verbosity::Quiet);
    assert_eq!(Verbosity::from_flags(true, true), Verbosity::Quiet);
    assert_eq!(Verbosity::from_flags(false, true), Verbosity::Verbose);
    assert_eq!(Verbosity::from_flags(false, false), Verbosity::Normal);
}

#[test]
fn status_and_verbose_visibility() {
    assert!(!Verbosity::Quiet.show_status());
    assert!(Verbosity::Normal.show_status());
    assert!(Verbosity::Verbose.show_status());
    assert!(!Verbosity::Quiet.show_verbose());
    assert!(!Verbosity::Normal.show_verbose());
    assert!(Verbosity::Verbose.show_verbose());
}

#[test]
fn default_is_normal() {
    assert_eq!(Verbosity::default(), Verbosity::Normal);
}

#[test]
fn progress_needs_status_and_enough_items() {
    assert!(!Verbosity::Normal.show_progress(24));
    assert!(Verbosity::Normal.show_progress(25));
    assert!(Verbosity::Verbose.show_progress(1000));
    assert!(!Verbosity::Quiet.show_progress(1000));
}

#[test]
fn cli_flags_select_verbosity() {
    assert_eq!(Cli { quiet: true, verbose: false }.verbosity(), Verbosity::Quiet);
    assert_eq!(Cli { quiet: false, verbose: true }.verbosity(), Verbosity::Verbose);
    assert_eq!(Cli { quiet: false, verbose: false }.verbosity(), Verbosity::Normal);
}
