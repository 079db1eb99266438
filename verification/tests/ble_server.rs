use hub::ble_server::{
    check_reboot_payload, check_utf8, check_voice_command, check_voice_text, first_char_target,
    get_device_name, parse_voice_command, parse_voice_text, read_voice_command, reboot_node_count,
    spoken_target, take_inquiry_response, write_target, VoiceError,
};
use hub::thread_sharing::SharedBLERead;

fn name_list() -> Vec<(String, u128)> {
    vec![
        ("lights".to_string(), 0x0),
        ("kitchen light".to_string(), 0x1),
        ("bedroom light".to_string(), 0x2),
        ("four".to_string(), 0x3),
    ]
}

fn words_of(command: &str) -> Vec<String> {
    let command_words = command.to_string();
    let command_words = command_words.to_lowercase();
    command_words
        .trim_end()
        .trim_end_matches('\0')
        .split_whitespace()
        .map(|w| w.to_string())
        .collect::<Vec<String>>()
}

#[test]
fn test_get_device_name_two_words() {
    let command_words = words_of("kitchen light up 3");
    let mut position = 0;
    let name = get_device_name(name_list(), &command_words, &mut position);
    assert_eq!(name, Some(("kitchen light".to_string(), 0x1)));
}

#[test]
fn test_get_device_name_one_word() {
    let command_words = words_of("lights up 3");
    let mut position = 0;
    let name = get_device_name(name_list(), &command_words, &mut position);
    assert_eq!(name, Some(("lights".to_string(), 0x0)));
}

#[test]
fn test_get_device_name_none() {
    let command_words = words_of("bathroom light up 3");
    let mut position = 0;
    let name = get_device_name(name_list(), &command_words, &mut position);
    assert_eq!(name, None);
}

#[test]
fn device_name_moves_past_the_name() {
    let command_words = words_of("kitchen light up 3");
    let mut position = 0;
    get_device_name(name_list(), &command_words, &mut position);
    assert_eq!(position, 2);

    let mut position = 0;
    let words = words_of("bathroom light up 3");
    get_device_name(name_list(), &words, &mut position);
    assert_eq!(position, 4);
}

#[test]
fn device_name_needs_a_following_word() {
    // The name is only tried while another word follows it.
    let words = words_of("kitchen light");
    let mut position = 0;
    assert_eq!(get_device_name(name_list(), &words, &mut position), None);
    assert_eq!(position, 2);
}

#[test]
fn device_name_from_a_later_position() {
    let words = words_of("please four on");
    let mut position = 1;
    assert_eq!(
        get_device_name(name_list(), &words, &mut position),
        Some(("four".to_string(), 0x3))
    );
    assert_eq!(position, 2);
}

#[test]
fn spoken_numbers() {
    assert_eq!(spoken_target("zero"), Some(0));
    assert_eq!(spoken_target("1:00"), Some(1));
    assert_eq!(spoken_target("too"), Some(2));
    assert_eq!(spoken_target("to"), Some(2));
    assert_eq!(spoken_target("for"), Some(4));
    assert_eq!(spoken_target("7"), Some(7));
    assert_eq!(spoken_target("eight"), None);
    assert_eq!(spoken_target("8"), None);
}

fn groups() -> Vec<(String, u128)> {
    vec![("lights".to_string(), 0x10), ("fans".to_string(), 0x20)]
}

fn devices() -> Vec<(String, u128)> {
    vec![
        ("kitchen light".to_string(), 0x1),
        ("roof vent".to_string(), 0x2),
        ("broken".to_string(), 0x0),
    ]
}

#[test]
fn voice_command_for_a_device() {
    let c = parse_voice_command(b"Kitchen Light up three\0\0", &devices(), &groups());
    assert_eq!(c.device_uuid, 0x1);
    assert_eq!(c.action, "up");
    assert_eq!(c.target, Some(3));
}

#[test]
fn voice_command_for_a_group() {
    let c = parse_voice_command(b"lights off", &devices(), &groups());
    assert_eq!(c.device_uuid, 0x10);
    assert_eq!(c.action, "off");
    assert_eq!(c.target, None);
}

#[test]
fn voice_at_means_set() {
    let c = parse_voice_command(b"roof vent at 4:00", &devices(), &groups());
    assert_eq!(c.device_uuid, 0x2);
    assert_eq!(c.action, "set");
    assert_eq!(c.target, Some(4));
}

#[test]
fn voice_errors() {
    assert_eq!(
        check_voice_command(&[0xff, 0xfe], &devices(), &groups()).unwrap_err(),
        VoiceError::InvalidUtf8
    );
    assert_eq!(
        check_voice_command(b"   ", &devices(), &groups()).unwrap_err(),
        VoiceError::NoWords
    );
    assert_eq!(
        check_voice_command(b"garage door up", &devices(), &groups()).unwrap_err(),
        VoiceError::NoDevice
    );
    assert_eq!(
        check_voice_command(b"broken on", &devices(), &groups()).unwrap_err(),
        VoiceError::NoDeviceId
    );
    assert_eq!(
        check_voice_command(b"fans up eleven", &devices(), &groups()).unwrap_err(),
        VoiceError::BadTarget
    );
}

#[test]
fn first_character_targets() {
    assert_eq!(first_char_target("3"), Some(3));
    assert_eq!(first_char_target("42"), Some(4));
    assert_eq!(first_char_target("x1"), None);
    assert_eq!(first_char_target("+"), None);
    assert_eq!(first_char_target(""), None);
}

#[test]
fn reboot_and_write_payloads() {
    assert!(check_reboot_payload(b"2"));
    assert_eq!(reboot_node_count(b"2"), 2);
    assert_eq!(reboot_node_count(b"31"), 3);
    assert!(!check_reboot_payload(b"a"));
    assert!(!check_reboot_payload(b""));
    assert!(!check_reboot_payload(&[0xc3]));
    assert!(check_utf8(b"7"));
    assert_eq!(write_target(b"7"), Some(7));
    assert_eq!(write_target(b""), None);
    assert_eq!(write_target(b"x"), None);
    assert!(!check_utf8(&[0x80]));
}

#[test]
fn voice_reads_only_what_is_understood() {
    assert_eq!(check_voice_command(b"lights off", &devices(), &groups()), Ok(()));
    let c = read_voice_command(b"fans up 2", &devices(), &groups()).unwrap();
    assert_eq!(c.device_uuid, 0x20);
    assert_eq!(c.target, Some(2));
    assert!(read_voice_command(b"fans up 9", &devices(), &groups()).is_none());
}

#[test]
fn voice_text_already_lower_cased() {
    assert_eq!(check_voice_text("roof vent down", &devices(), &groups()), Ok(()));
    let c = parse_voice_text("roof vent down", &devices(), &groups());
    assert_eq!(c.device_uuid, 0x2);
    assert_eq!(c.action, "down");
    assert_eq!(
        check_voice_text("Roof vent down", &devices(), &groups()),
        Err(VoiceError::NoDevice)
    );
}

#[test]
fn inquiry_response_is_taken_once() {
    let mut state = SharedBLERead::Response { target: 5 };
    assert_eq!(take_inquiry_response(&mut state), Some(5));
    assert_eq!(state, SharedBLERead::NoUpdate);
    assert_eq!(take_inquiry_response(&mut state), None);

    let mut asking = SharedBLERead::Inquiry { device_uuid: 9 };
    assert_eq!(take_inquiry_response(&mut asking), None);
    assert_eq!(asking, SharedBLERead::Inquiry { device_uuid: 9 });
}

#[test]
fn a_named_device_is_followed_by_an_action() {
    // A name at the very end is not read as a device name, so a command
    // is never refused for lacking an action word.
    assert_eq!(
        check_voice_command(b"lights", &devices(), &groups()).unwrap_err(),
        VoiceError::NoDevice
    );
    assert_eq!(
        check_voice_command(b"roof vent", &devices(), &groups()).unwrap_err(),
        VoiceError::NoDevice
    );
}
