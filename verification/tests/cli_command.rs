use hub::cli_command::{cli_commands, CLICommand};
use hub::cli_command::CLICommand as C;

/// Every variant, written out so that adding a variant breaks this list.
fn all_variants() -> Vec<CLICommand> {
    let variants = vec![
        CLICommand::Run,
        CLICommand::Shutdown,
        CLICommand::Status,
        CLICommand::Reboot,
    ];
    for v in &variants {
        match v {
            CLICommand::Run | CLICommand::Shutdown | CLICommand::Status | CLICommand::Reboot => {}
        }
    }
    variants
}

#[test]
fn cli_command_synonyms_count() {
    assert_eq!(all_variants().len(), cli_commands().len());
}

#[test]
fn cli_command_same_variant() {
    let one = C::Run;
    let two = C::Run;
    assert!(one.same_variant(&two));

    let three = C::Run;
    let four = C::Reboot;
    assert!(!three.same_variant(&four));
}

#[test]
fn cli_command_from_str() {
    let text = "run";
    let cli_command = C::from_str(text);
    assert_eq!(cli_command, Ok(C::Run));

    let text = "Run";
    let cli_command = C::from_str(text);
    assert_eq!(cli_command, Ok(C::Run));
}

#[test]
fn cli_command_to_str() {
    let text = "run";
    assert_eq!(text, CLICommand::Run.to_str());
}

#[test]
fn names_read_back_in_any_case() {
    for c in all_variants() {
        let name = c.to_str();
        assert_eq!(CLICommand::from_str(name), Ok(c));
        assert_eq!(CLICommand::from_str(&name.to_uppercase()), Ok(c));
    }
}

#[test]
fn names_are_distinct() {
    let names: Vec<&str> = all_variants().iter().map(|c| c.to_str()).collect();
    for i in 0..names.len() {
        for j in 0..names.len() {
            assert_eq!(i == j, names[i] == names[j]);
        }
    }
}

#[test]
fn table_order_and_names() {
    let table = cli_commands();
    let expected = [
        (CLICommand::Run, "run"),
        (CLICommand::Shutdown, "shutdown"),
        (CLICommand::Status, "status"),
        (CLICommand::Reboot, "reboot"),
    ];
    for (entry, (c, t)) in table.iter().zip(expected.iter()) {
        assert_eq!(entry.cli_command, *c);
        assert_eq!(entry.text, *t);
    }
}

#[test]
fn unknown_command_is_refused() {
    assert_eq!(CLICommand::from_str("start"), Err("Bad Action name given"));
    assert_eq!(CLICommand::from_str(""), Err("Bad Action name given"));
    assert_eq!(CLICommand::from_str(" run"), Err("Bad Action name given"));
}

#[test]
fn shouted_reboot_is_reboot() {
    assert_eq!(CLICommand::from_str("REBOOT"), Ok(CLICommand::Reboot));
    assert_eq!(CLICommand::from_str("ShutDown"), Ok(CLICommand::Shutdown));
}
