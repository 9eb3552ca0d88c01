use live_audio_control::midi::{collect, devices_of, list_devices, MidiDevice};

const INPUTS: &str = "client 0: 'System' [type=kernel]\n    0 'Timer           '\n    1 'Announce        '\nclient 14: 'Midi Through' [type=kernel]\n    0  'Midi Through Port-0'\n    Connecting to: 128:0\n";

const OUTPUTS: &str = "client 14: 'Midi Through' [type=kernel]\n    0  'Midi Through Port-0'\nclient 20: 'Launchpad' [type=kernel,card=1]\n    0 'Launchpad MIDI 1'\n    1 'Launchpad MIDI 2'\n";

fn rows(devs: &[MidiDevice]) -> Vec<(&str, &str, &str)> {
    devs.iter()
        .map(|d| (d.id.as_str(), d.name.as_str(), d.direction.as_str()))
        .collect()
}

#[test]
fn parses_real_aconnect_output() {
    let devs = list_devices(Some(INPUTS.as_bytes()), Some(OUTPUTS.as_bytes()));
    assert!(
        devs.iter().any(|d| d.id == "14:0"),
        "Midi Through port missing from {devs:?}"
    );
}

#[test]
fn both_listings_make_one_device_per_port() {
    let devs = devices_of(INPUTS, OUTPUTS);
    assert_eq!(
        rows(&devs),
        vec![
            ("14:0", "Midi Through Midi Through Port-0", "in+out"),
            ("20:0", "Launchpad Launchpad MIDI 1", "out"),
            ("20:1", "Launchpad Launchpad MIDI 2", "out"),
        ]
    );
}

#[test]
fn commands_that_could_not_run_list_nothing() {
    assert!(list_devices(None, None).is_empty());
    let devs = list_devices(Some(INPUTS.as_bytes()), None);
    assert_eq!(rows(&devs), vec![("14:0", "Midi Through Midi Through Port-0", "in")]);
}

#[test]
fn client_zero_is_no_device() {
    assert!(devices_of("client 0: 'System' [type=kernel]\n    0 'Timer'\n", "").is_empty());
}

#[test]
fn connection_lines_are_no_ports() {
    let text = "client 14: 'Through'\n    Connecting to: 128:0\n    Connected From: 1:0\n";
    assert!(devices_of(text, text).is_empty());
}

#[test]
fn devices_come_in_the_order_of_their_ids() {
    let text = "client 9: 'b'\n 10 'p'\n 2 'q'\nclient 128: 'a'\n 0 'r'\n";
    let devs = devices_of(text, "");
    let ids: Vec<&str> = devs.iter().map(|d| d.id.as_str()).collect();
    assert_eq!(ids, vec!["128:0", "9:10", "9:2"]);
}

#[test]
fn the_first_name_of_a_port_is_kept() {
    let devs = devices_of("client 5: 'one'\n0 'a'\n0 'b'\n", "client 5: 'two'\n0 'c'\n");
    assert_eq!(rows(&devs), vec![("5:0", "one a", "in+out")]);
}

#[test]
fn odd_lines_are_read_as_far_as_they_go() {
    // No colon, angle quotes, blank lines, a port without a name, carriage returns.
    let text = "client 7\r\n\r\n  3  \u{ab} Keys \u{bb}\r\n  4\r\n  x4 'no'\r\n  5 ''\r\n";
    let devs = devices_of(text, "");
    assert_eq!(rows(&devs), vec![("7:3", " Keys", "in")]);
}

#[test]
fn lines_before_any_client_are_skipped() {
    assert!(devices_of("  0 'Port'\n", "").is_empty());
}

#[test]
fn bytes_that_are_no_text_are_replaced() {
    let devs = list_devices(Some(b"client 3: 'K\xffy'\n 0 'p'\n"), None);
    assert_eq!(rows(&devs), vec![("3:0", "K\u{fffd}y p", "in")]);
}

#[test]
fn a_direction_is_added_once() {
    let mut devs: Vec<MidiDevice> = Vec::new();
    collect("client 5: 'c'\n0 'p'\n", "out", &mut devs);
    collect("client 5: 'c'\n0 'p'\n0 'p'\n", "in", &mut devs);
    collect("client 5: 'c'\n0 'p'\n", "out", &mut devs);
    assert_eq!(rows(&devs), vec![("5:0", "c p", "out+in")]);
}
