use hub::session::{
    answer_inquiry, console_request, find_device, get_node_count, handle_get_request,
    pending_restart, plan_inquiry, plan_write, restart_args, route_write, wait_seconds,
    ConsoleRequest, DeviceEntry, InquiryStep, SessionSettings,
};
use hub::thread_sharing::{SharedBLECommand, SharedBLERead, SharedBLEWrite, SharedGetRequest};

#[test]
fn helper_get_restart_args() {
    let session = SessionSettings::default();
    assert_eq!(
        session.get_restart_args(Some("1")).unwrap(),
        vec!["run", "-c", "1", "-w", "10"]
    );

    assert_eq!(
        session.get_restart_args(Some("2")).unwrap(),
        vec!["run", "-c", "2", "-w", "10"]
    );
}

#[test]
fn restart_args_without_node_count() {
    let session = SessionSettings::new("Hub".to_string(), 4100, 3);
    assert_eq!(session.get_restart_args(None).unwrap(), vec!["run", "-w", "3"]);
    assert_eq!(session.get_restart_args(Some("many")), None);
    assert_eq!(session.get_restart_args(Some("4294967296")), None);
}

#[test]
fn default_settings() {
    let s = SessionSettings::default();
    assert_eq!(s.ble_name, "VanColleague");
    assert_eq!(s.listen_port, 4000);
    assert_eq!(s.restart_wait, 10);
}

#[test]
fn bluetooth_restart_args() {
    assert_eq!(restart_args(3), vec!["start", "-c", "3", "-w", "10"]);
    assert_eq!(restart_args(0), vec!["start", "-w", "10"]);
    assert_eq!(
        pending_restart(&SharedBLECommand::Restart { node_count: 12 }).unwrap(),
        vec!["start", "-c", "12", "-w", "10"]
    );
    assert_eq!(pending_restart(&SharedBLECommand::NoUpdate), None);
}

#[test]
fn restarted_count_reads_back() {
    for n in [1usize, 9, 10, 4321, usize::MAX] {
        let args = restart_args(n);
        assert_eq!(get_node_count(Some(&args[2])), Ok(Some(n)));
    }
}

#[test]
fn node_counts_and_waits() {
    assert_eq!(get_node_count(None), Ok(None));
    assert_eq!(get_node_count(Some("4")), Ok(Some(4)));
    assert_eq!(get_node_count(Some("-4")), Err(()));
    assert_eq!(wait_seconds(None), Ok(None));
    assert_eq!(wait_seconds(Some("1")), Ok(Some(1)));
    assert_eq!(wait_seconds(Some("1.5")), Err(()));
}

#[test]
fn console_messages() {
    assert_eq!(console_request(b"shutdown"), ConsoleRequest::Stop);
    assert_eq!(console_request(b"  Reboot\n"), ConsoleRequest::Stop);
    assert_eq!(console_request(b"status"), ConsoleRequest::ShowStatus);
    assert_eq!(console_request(b"run"), ConsoleRequest::Ignore);
    assert_eq!(console_request(b"stop"), ConsoleRequest::BadCommand);
    assert_eq!(console_request(&[0xff, b's']), ConsoleRequest::BadCommand);
}

fn entries() -> Vec<DeviceEntry> {
    vec![
        DeviceEntry { uuid: 1, ip: "10.0.0.1".to_string(), group: Some(7) },
        DeviceEntry { uuid: 2, ip: "10.0.0.2".to_string(), group: None },
        DeviceEntry { uuid: 3, ip: "10.0.0.1".to_string(), group: Some(7) },
    ]
}

#[test]
fn finding_devices() {
    assert_eq!(find_device(&entries(), 2), Some(1));
    assert_eq!(find_device(&entries(), 9), None);
}

#[test]
fn group_commands_go_to_every_member() {
    let groups = vec![(100u128, 7u64), (200u128, 8u64)];
    assert_eq!(plan_write(&groups, &entries(), 100), vec![0, 2]);
    assert_eq!(plan_write(&groups, &entries(), 200), Vec::<usize>::new());
    assert_eq!(plan_write(&groups, &entries(), 2), vec![1]);
    assert_eq!(plan_write(&groups, &entries(), 5), Vec::<usize>::new());
}

#[test]
fn repeated_requests_are_not_sent_again() {
    let devices = entries();
    let mut last = (0u128, 0u32);
    let mut request = SharedGetRequest::Command { device_uuid: 3, action: 42u32 };
    assert_eq!(handle_get_request(&mut request, &mut last, &devices), Some(2));
    assert_eq!(request, SharedGetRequest::NoUpdate);
    assert_eq!(last, (3, 42));

    let mut again = SharedGetRequest::Command { device_uuid: 3, action: 42u32 };
    assert_eq!(handle_get_request(&mut again, &mut last, &devices), None);
    assert_eq!(again, SharedGetRequest::Command { device_uuid: 3, action: 42u32 });

    let mut unknown = SharedGetRequest::Command { device_uuid: 9, action: 1u32 };
    assert_eq!(handle_get_request(&mut unknown, &mut last, &devices), None);
    assert_eq!(last, (9, 1));
    assert_eq!(unknown, SharedGetRequest::Command { device_uuid: 9, action: 1u32 });
}

#[test]
fn inquiries() {
    let devices = entries();
    assert_eq!(
        plan_inquiry(&SharedBLERead::Inquiry { device_uuid: 3 }, &devices),
        InquiryStep::AskNode(2)
    );
    assert_eq!(
        plan_inquiry(&SharedBLERead::Inquiry { device_uuid: 8 }, &devices),
        InquiryStep::UnknownDevice
    );
    assert_eq!(plan_inquiry(&SharedBLERead::NoUpdate, &devices), InquiryStep::Nothing);
    assert_eq!(
        plan_inquiry(&SharedBLERead::Response { target: 1 }, &devices),
        InquiryStep::Nothing
    );

    let mut state = SharedBLERead::Inquiry { device_uuid: 3 };
    answer_inquiry(&mut state, None);
    assert_eq!(state, SharedBLERead::Inquiry { device_uuid: 3 });
    answer_inquiry(&mut state, Some(6));
    assert_eq!(state, SharedBLERead::Response { target: 6 });
    answer_inquiry(&mut state, Some(2));
    assert_eq!(state, SharedBLERead::Response { target: 6 });
}

#[test]
fn writes_are_routed_and_cleared() {
    let groups = vec![(100u128, 7u64)];
    let mut state = SharedBLEWrite::Command { device_uuid: 100, action: 'u' };
    let (action, targets) = route_write(&mut state, &groups, &entries()).unwrap();
    assert_eq!(action, 'u');
    assert_eq!(targets, vec![0, 2]);
    assert_eq!(state, SharedBLEWrite::NoUpdate);

    let mut reply: SharedBLEWrite<char> = SharedBLEWrite::Response { message: 3 };
    assert!(route_write(&mut reply, &groups, &entries()).is_none());
    assert_eq!(reply, SharedBLEWrite::Response { message: 3 });
}
