use live_audio_control::config::{
    audio_bus_channels, orbits_connect_pairs, orbits_sclang_args, orbits_scsynth_args, owned,
    tidal_args, vocals_args, EDITOR_PORT, MUTE_GROUP_SLUGS, ORBITS_OUT_CHANNELS,
    ORBITS_PER_GROUP, ORBITS_PORT, SCLANG_PORT, SCLANG_RT_PRIO,
    TEST_PATTERN_CODE, VOCALS_PORT,
};
use live_audio_control::quantum::{
    applied_log, picked_size, quantum_in, quantum_index, read_current_quantum, size_labels,
    Applied, Quantum, QUANTUM_SIZES,
};
use live_audio_control::wiring::{connect_log, ConnectRun, Outcome};
use live_audio_control::chain::{Chain, NodeState};

#[test]
fn arguments_are_copied() {
    assert_eq!(owned(&["a", "", "b c"]), vec!["a", "", "b c"]);
    assert!(owned(&[]).is_empty());
}

#[test]
fn scsynth_command_line() {
    assert_eq!(
        orbits_scsynth_args(512).join(" "),
        "taskset -c 4 chrt -f 80 pw-jack -p 512 scsynth -u 6110 -H orbits -S 48000 -z 512 -Z 512 \
         -i 0 -o 36 -a 1024 -b 524288 -n 524288 -w 256 -m 524288 -l 3 -L"
    );
}

#[test]
fn scsynth_follows_the_quantum() {
    let args = orbits_scsynth_args(64);
    for flag in ["-p", "-z", "-Z"] {
        let at = args.iter().position(|a| a == flag).unwrap();
        assert_eq!(args[at + 1], "64");
    }
    assert_ne!(orbits_scsynth_args(64), orbits_scsynth_args(128));
}

#[test]
fn other_command_lines() {
    assert_eq!(orbits_sclang_args().join(" "), "chrt -f 73 sclang -u 6120");
    assert_eq!(
        vocals_args().join(" "),
        "taskset -c 5 chrt -f 80 pw-jack -p 64 scsynth -u 6111 -H vocals -S 48000 -z 64 -i 2 -o 2 \
         -a 64 -m 65536 -L"
    );
    assert_eq!(
        tidal_args().join(" "),
        "taskset -c 6 ghci -ghci-script /home/endo/Studio/Hub/BootTidal.hs"
    );
    assert_eq!(TEST_PATTERN_CODE, r#"b2 $ s "bd(3, 4)" "#);
}

#[test]
fn sclang_runs_below_scsynth_and_unpinned_and_tidal_without_realtime() {
    assert!(SCLANG_RT_PRIO.parse::<u32>().unwrap() < orbits_scsynth_args(512)[5].parse().unwrap());
    assert!(!orbits_sclang_args().iter().any(|a| a == "taskset"));
    assert!(!tidal_args().iter().any(|a| a == "chrt"));
}

#[test]
fn ports_are_apart_from_each_other_and_from_the_defaults() {
    let editor = EDITOR_PORT.to_string();
    let ports = [ORBITS_PORT, VOCALS_PORT, SCLANG_PORT, editor.as_str()];
    for (i, p) in ports.iter().enumerate() {
        assert!(!["57110", "57120"].contains(p));
        assert!(!ports[i + 1..].contains(p));
    }
    assert_eq!(ports, ["6110", "6111", "6120", "6140"]);
}

#[test]
fn two_outputs_per_orbit() {
    assert_eq!(ORBITS_OUT_CHANNELS as usize, MUTE_GROUP_SLUGS.len() * ORBITS_PER_GROUP * 2);
}

#[test]
fn audio_busses_grow_with_the_outputs() {
    assert_eq!(audio_bus_channels(36), 1024);
    assert_eq!(audio_bus_channels(72), 1024);
    assert_eq!(audio_bus_channels(180), 1028);
    assert_eq!(audio_bus_channels(0), 1024);
}

#[test]
fn outputs_alternate_between_left_and_right() {
    let pairs = orbits_connect_pairs();
    assert_eq!(pairs.len(), 36);
    let at = |i: usize| (pairs[i].0.as_str(), pairs[i].1.as_str());
    assert_eq!(at(0), ("orbits:out_1", "Onyx Artist 1-2 Pro:playback_AUX0"));
    assert_eq!(at(1), ("orbits:out_2", "Onyx Artist 1-2 Pro:playback_AUX1"));
    assert_eq!(at(35), ("orbits:out_36", "Onyx Artist 1-2 Pro:playback_AUX1"));
    for i in 0..pairs.len() {
        for j in 0..i {
            assert_ne!(pairs[i].0, pairs[j].0);
        }
    }
}

#[test]
fn wiring_is_ready_when_every_connection_stands() {
    let mut chain = Chain::new();
    let mut run = ConnectRun::start(&mut chain, 2);
    assert_eq!(chain.connect, NodeState::Running);
    assert_eq!(connect_log("a", "b c"), "$ jack_connect a \"b c\"");
    assert_eq!(run.connected("a", "b", &Outcome::Success), None);
    assert_eq!(run.connected("c", "d", &Outcome::Success), None);
    assert_eq!(run.finish(&mut chain), "[orbits] connect complete (2/2)");
    assert_eq!(chain.connect, NodeState::Ready);
}

#[test]
fn wiring_is_off_when_a_connection_fails() {
    let mut chain = Chain::new();
    let mut run = ConnectRun::start(&mut chain, 3);
    assert_eq!(run.connected("a", "b", &Outcome::Success), None);
    assert_eq!(
        run.connected("c", "d", &Outcome::Exited("exit status: 1".to_string())).unwrap(),
        "[orbits] jack_connect c -> d exited with exit status: 1"
    );
    assert_eq!(
        run.connected("e", "f", &Outcome::Failed("not found".to_string())).unwrap(),
        "[orbits] jack_connect e -> f failed: not found"
    );
    assert_eq!(run.finish(&mut chain), "[orbits] connect incomplete (1/3)");
    assert_eq!(chain.connect, NodeState::Off);
}

#[test]
fn quantum_is_read_in_either_shape() {
    assert_eq!(quantum_in("clock.force-quantum = 512"), Some(512));
    assert_eq!(quantum_in("512"), Some(512));
    assert_eq!(read_current_quantum(Some(b"clock.force-quantum = 2048\n")), Some(2048));
    assert_eq!(read_current_quantum(Some(b"value:'512' type:''")), None);
    assert_eq!(read_current_quantum(Some(b"  \n")), None);
    assert_eq!(read_current_quantum(Some(b"\xff 64")), Some(64));
    assert_eq!(read_current_quantum(None), None);
}

#[test]
fn quantum_rows() {
    assert_eq!(size_labels(), vec!["32", "64", "128", "256", "512", "1024", "2048"]);
    for (i, q) in QUANTUM_SIZES.iter().enumerate() {
        assert_eq!(quantum_index(*q), Some(i));
        assert_eq!(picked_size(Some(i as i32)), *q);
    }
    assert_eq!(quantum_index(100), None);
    assert_eq!(picked_size(Some(-1)), 512);
    assert_eq!(picked_size(Some(7)), 512);
    assert_eq!(picked_size(None), 512);
}

#[test]
fn quantum_is_restored_and_applied() {
    let mut q = Quantum::new();
    assert_eq!(q.size, 512);
    assert_eq!(q.restore(Some(100)), None);
    assert_eq!(q.restore(None), None);
    assert_eq!(q.size, 512);
    assert_eq!(q.restore(Some(64)), Some(1));
    assert_eq!(q.size, 64);
    let step = q.apply_quantum(1024);
    assert_eq!(q.size, 1024);
    assert_eq!(step.log, "$ pw-metadata -n settings 0 clock.force-quantum 1024");
    assert_eq!(step.args, vec!["-n", "settings", "0", "clock.force-quantum", "1024"]);
    assert_eq!(quantum_in(&step.args[4]), Some(1024));
}

#[test]
fn quantum_reports() {
    assert_eq!(
        applied_log(64, &Applied::Success),
        "[quantum] clock.force-quantum -> 64 (scsynth picks it up on next boot)"
    );
    assert_eq!(
        applied_log(64, &Applied::Exited("exit status: 2".to_string())),
        "[quantum] pw-metadata exited with exit status: 2"
    );
    assert_eq!(
        applied_log(64, &Applied::Failed("gone".to_string())),
        "[quantum] pw-metadata failed: gone"
    );
}
