use cargo_clean_global::cli::Cli;
use cargo_clean_global::confirm::{confirm_cleanup, confirmation_stop, parse_confirmation_input, ConfirmStep};

#[test]
fn accepts_yes_confirmation() {
    assert!(parse_confirmation_input("y"));
    assert!(parse_confirmation_input("Y"));
    assert!(parse_confirmation_input("yes"));
    assert!(parse_confirmation_input(" Yes \n"));
}

#[test]
fn rejects_non_yes_confirmation() {
    assert!(!parse_confirmation_input(""));
    assert!(!parse_confirmation_input("n"));
    assert!(!parse_confirmation_input("no"));
    assert!(!parse_confirmation_input("maybe"));
}

#[test]
fn confirmation_trims_unicode_whitespace_and_folds_ascii_case_only() {
    assert!(parse_confirmation_input("\u{3000}YES\t\r\n"));
    assert!(parse_confirmation_input("\u{a0}yEs\u{2029}"));
    assert!(!parse_confirmation_input("y e s"));
    assert!(!parse_confirmation_input("yess"));
    assert!(!parse_confirmation_input("\u{200b}yes"));
}

fn cli(dry_run: bool, yes: bool) -> Cli {
    Cli { dry_run, yes, roots: Vec::new() }
}

#[test]
fn confirmation_is_skipped_for_dry_run_yes_or_nothing_to_clean() {
    assert!(matches!(confirm_cleanup(&cli(true, false), 3, false), ConfirmStep::Proceed));
    assert!(matches!(confirm_cleanup(&cli(false, true), 3, false), ConfirmStep::Proceed));
    assert!(matches!(confirm_cleanup(&cli(false, false), 0, false), ConfirmStep::Proceed));
}

#[test]
fn confirmation_prompts_only_on_a_terminal() {
    assert!(matches!(confirm_cleanup(&cli(false, false), 2, true), ConfirmStep::Prompt));
    match confirm_cleanup(&cli(false, false), 2, false) {
        ConfirmStep::Refuse(message) => assert_eq!(
            message,
            "cleanup confirmation requires an interactive terminal; rerun with --yes to skip the prompt"
        ),
        _ => panic!("a non-interactive cleanup must be refused"),
    }
}

#[test]
fn confirmation_stops() {
    assert!(confirmation_stop(&ConfirmStep::Proceed, &None).is_none());
    let refused = ConfirmStep::Refuse(String::from("no terminal"));
    assert_eq!(confirmation_stop(&refused, &None), Some((2, String::from("error: no terminal"))));
    assert!(confirmation_stop(&ConfirmStep::Prompt, &Some(Ok(true))).is_none());
    assert_eq!(
        confirmation_stop(&ConfirmStep::Prompt, &Some(Ok(false))),
        Some((0, String::from("Cleanup cancelled.")))
    );
    assert_eq!(
        confirmation_stop(&ConfirmStep::Prompt, &Some(Err(String::from("failed to read confirmation input: eof")))),
        Some((2, String::from("error: failed to read confirmation input: eof")))
    );
}
