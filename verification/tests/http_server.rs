use hub::http_server::{command_request, parse_uuid_query, parsed_command_request, parsed_target, RequestError};

#[test]
fn parsed_command_rejects_every_uuid() {
    // "0x" is put before the uuid and the whole is read as a decimal number,
    // which never succeeds.
    for u in ["", "1", "0da6f723-04f3-4281-8b48-27c89c208284", "12345"] {
        assert_eq!(parse_uuid_query(u), None);
        let r = parsed_command_request(Some(u), Some("3"), Some("Up"));
        assert_eq!(r.unwrap_err(), RequestError::BadUuid);
    }
}

#[test]
fn parsed_command_missing_uuid() {
    let r = parsed_command_request(None, Some("3"), Some("up"));
    assert_eq!(r.unwrap_err(), RequestError::MissingUuid);
    assert_eq!(RequestError::MissingUuid.message(), "Oops, we didn't get the Uuid");
    assert_eq!(RequestError::BadUuid.message(), "Bad Uuid given");
}

#[test]
fn parsed_command_targets() {
    assert_eq!(parsed_target(None), Ok(None));
    assert_eq!(parsed_target(Some("")), Ok(None));
    assert_eq!(parsed_target(Some("7")), Ok(Some(7)));
    assert_eq!(parsed_target(Some("+7")), Ok(Some(7)));
    assert_eq!(parsed_target(Some("8")), Err(RequestError::TargetOutOfRange));
    assert_eq!(parsed_target(Some("seven")), Err(RequestError::TargetOutOfRange));
    assert_eq!(
        RequestError::TargetOutOfRange.message(),
        "Oops, Target should be 0 <= t < 8"
    );
}

fn devices() -> Vec<(String, u128)> {
    vec![("kitchen light".to_string(), 0x1), ("roof vent".to_string(), 0x2)]
}

#[test]
fn command_missing() {
    assert_eq!(
        command_request(None, &devices()).unwrap_err(),
        RequestError::MissingCommand
    );
    assert_eq!(
        RequestError::MissingCommand.message(),
        "Oops, we didn't get the command"
    );
}

#[test]
fn command_never_names_a_device_without_an_empty_name() {
    // The device name is read only while what was read is a device name,
    // starting from nothing; with no device of empty name nothing is read.
    let r = command_request(Some("kitchen%20light%20up%203"), &devices());
    assert_eq!(r.unwrap_err(), RequestError::UnknownDevice);
    assert_eq!(
        RequestError::UnknownDevice.message(),
        "Couldn't get the uuid of the named device."
    );
}

fn devices_with_empty_name() -> Vec<(String, u128)> {
    vec![
        ("".to_string(), 0x0),
        ("kitchen".to_string(), 0x0),
        ("kitchen light".to_string(), 0x1),
        ("roof".to_string(), 0x5),
    ]
}

#[test]
fn command_reads_past_every_device_name() {
    // Words are added while what was read is a device name, so the name read
    // is never one of the devices' names and its UUID is never found.
    let ds = devices_with_empty_name();
    let r = command_request(Some("Kitchen%20Light%20UP%205"), &ds);
    assert_eq!(r.unwrap_err(), RequestError::UnknownDevice);
    let r = command_request(Some("roof down"), &ds);
    assert_eq!(r.unwrap_err(), RequestError::UnknownDevice);
}

#[test]
fn command_runs_out_of_words() {
    let ds = devices_with_empty_name();
    assert_eq!(
        command_request(Some("kitchen"), &ds).unwrap_err(),
        RequestError::MissingDevice
    );
    assert_eq!(
        command_request(Some("kitchen%20light"), &ds).unwrap_err(),
        RequestError::MissingDevice
    );
    assert_eq!(command_request(Some(""), &ds).unwrap_err(), RequestError::MissingDevice);
    assert_eq!(RequestError::MissingDevice.message(), "Oops, we didn't get a device!");
}

#[test]
fn other_replies() {
    assert_eq!(
        RequestError::TargetNotNumber.message(),
        "Oops, Target should be a number, 0 though 7"
    );
    assert_eq!(RequestError::NoAction.message(), "Oops, we didn't get an action!");
    assert_eq!(RequestError::InvalidAction.message(), "Action wasn't a valid action.");
    assert_eq!(RequestError::MissingAction.message(), "Oops, we didn't get the Action");
}
