use live_audio_control::chain::{Chain, Liveness, NodeId, NodeState};
use live_audio_control::config::ORBITS_BOOT_CMD;
use live_audio_control::pin::{pin_orbits_threads, pin_target, task_dir, PinRun, PinStart};
use live_audio_control::rec::Recording;
use live_audio_control::relay::{
    relay_addr, EditorConn, Relay, ServeEvent, StartStep, StopStep,
};
use live_audio_control::supervise::{
    boot_orbits_scsynth, boot_orbits_sclang, boot_server, boot_tidal, boot_vocals,
    is_process_running, kill_log, kill_orbits, kill_server, orbits_scsynth_pid, pid_in,
    server_pattern, trouble_log, BootStep, Launch, ProcSlot, SendStep, SpawnStep, Trouble, Watch,
};

fn ready_chain() -> Chain {
    Chain {
        sclang: NodeState::Ready,
        connect: NodeState::Ready,
        pin: NodeState::Ready,
        tidal: NodeState::Ready,
        vocals: NodeState::Ready,
    }
}

fn states(c: &Chain) -> [NodeState; 5] {
    [c.sclang, c.connect, c.pin, c.tidal, c.vocals]
}

use NodeState::{Off, Ready, Running};

#[test]
fn a_fresh_sclang_demotes_what_follows() {
    let mut c = ready_chain();
    assert_eq!(
        c.mark_spawned(Some(NodeId::Sclang)),
        Some("[chain] fresh sclang: CONNECT and PIN must run again; restart Tidal")
    );
    assert_eq!(states(&c), [Running, Off, Off, Off, Ready]);
}

#[test]
fn sclang_takes_the_chain_with_it() {
    let mut c = ready_chain();
    assert_eq!(
        c.mark_exited(Some(NodeId::Sclang)),
        Some("[chain] sclang gone: boot the chain again, tidal included")
    );
    assert_eq!(states(&c), [Off, Off, Off, Off, Ready]);
}

#[test]
fn tidal_and_vocals_move_alone() {
    let mut c = Chain::new();
    assert_eq!(states(&c), [Off; 5]);
    assert_eq!(c.mark_spawned(Some(NodeId::Tidal)), None);
    assert_eq!(c.mark_spawned(Some(NodeId::Vocals)), None);
    assert_eq!(states(&c), [Off, Off, Off, Running, Running]);
    assert_eq!(c.mark_exited(Some(NodeId::Tidal)), None);
    assert_eq!(c.mark_exited(Some(NodeId::Vocals)), None);
    assert_eq!(states(&c), [Off; 5]);
    for node in [None, Some(NodeId::Connect), Some(NodeId::Pin)] {
        let mut c = ready_chain();
        assert_eq!(c.mark_spawned(node), None);
        assert_eq!(c.mark_exited(node), None);
        assert_eq!(c, ready_chain());
    }
}

#[test]
fn a_look_at_the_processes_moves_the_nodes() {
    let mut live = Liveness::new();
    let mut c = Chain::new();
    live.look(&mut c, true, true);
    assert_eq!(states(&c), [Off, Off, Off, Off, Ready]);
    let mut c = ready_chain();
    live.look(&mut c, true, true);
    assert_eq!(c, ready_chain());
    live.look(&mut c, false, true);
    assert_eq!(states(&c), [Off, Off, Off, Off, Ready]);
    live.look(&mut c, false, false);
    assert_eq!(states(&c), [Off; 5]);
    let mut c = ready_chain();
    live.look(&mut c, true, false);
    assert_eq!(c, ready_chain());
}

#[test]
fn a_forced_restart_puts_tidal_back() {
    let mut c = ready_chain();
    assert_eq!(c.force_restart(), "[chain] restart Tidal after the stack comes back");
    assert_eq!(states(&c), [Ready, Ready, Ready, Off, Ready]);
    assert_eq!(c.node_state(NodeId::Tidal), Off);
    c.set_node_state(NodeId::Pin, Running);
    assert_eq!(c.node_state(NodeId::Pin), Running);
}

#[test]
fn launches() {
    let l = boot_orbits_scsynth(64);
    assert_eq!((l.name, l.init, l.node), ("orbits", None, Some(NodeId::Sclang)));
    assert_eq!(l.ready.unwrap().marker, "server ready");
    assert_eq!(l.args[8], "64");
    let l = boot_orbits_sclang();
    assert_eq!((l.name, l.init, l.node), ("orbits", Some(ORBITS_BOOT_CMD), Some(NodeId::Sclang)));
    assert_eq!(l.ready.unwrap().marker, "HUB: scsynth=");
    let l = boot_vocals();
    assert_eq!((l.name, l.init, l.node), ("vocals", None, Some(NodeId::Vocals)));
    assert!(l.ready.is_none());
    let l = boot_tidal();
    assert_eq!((l.name, l.init, l.node), ("tidal", None, Some(NodeId::Tidal)));
    assert_eq!(l.ready.unwrap().marker, "Connected to SuperDirt.");
}

#[test]
fn a_child_is_launched_once() {
    let mut slot = ProcSlot::new();
    let mut chain = Chain::new();
    let launch = boot_orbits_sclang();
    match slot.spawn_proc(&launch) {
        SpawnStep::Run { command, program, rest } => {
            assert_eq!(command, "[orbits] $ chrt -f 73 sclang -u 6120");
            assert_eq!(program, "chrt");
            assert_eq!(rest, vec!["-f", "73", "sclang", "-u", "6120"]);
        }
        _ => panic!("not launched"),
    }
    let step = slot.launched(&launch, true, &mut chain);
    assert_eq!(
        step.chain,
        Some("[chain] fresh sclang: CONNECT and PIN must run again; restart Tidal")
    );
    assert_eq!(chain.sclang, Running);
    let first = step.first.unwrap();
    assert_eq!(first.log, "[orbits] > \"/home/endo/Studio/Hub/startup.scd\".load;");
    assert_eq!(first.line, "\"/home/endo/Studio/Hub/startup.scd\".load;\n");
    match slot.spawn_proc(&launch) {
        SpawnStep::Refuse { log } => assert_eq!(log, "[orbits] already running"),
        _ => panic!("launched twice"),
    }
    let logs = slot.exited(&launch, &mut chain);
    assert_eq!(logs.chain, Some("[chain] sclang gone: boot the chain again, tidal included"));
    assert_eq!(logs.log, "[orbits] exited");
    assert!(matches!(slot.spawn_proc(&launch), SpawnStep::Run { .. }));
}

#[test]
fn a_launch_without_a_command() {
    let launch = Launch { name: "x", args: Vec::new(), init: None, ready: None, node: None };
    match ProcSlot::new().spawn_proc(&launch) {
        SpawnStep::NoCommand { command, log } => {
            assert_eq!(command, "[x] $ ");
            assert_eq!(log, "[x] no command given");
        }
        _ => panic!("launched"),
    }
}

#[test]
fn a_child_without_stdin_gets_no_first_line() {
    let mut slot = ProcSlot::new();
    let mut chain = Chain::new();
    assert!(slot.launched(&boot_orbits_sclang(), false, &mut chain).first.is_none());
    assert!(!slot.running);
    assert_eq!(states(&chain), [Running, Off, Off, Off, Off]);
    let step = slot.launched(&boot_tidal(), true, &mut chain);
    assert!(step.first.is_none() && step.chain.is_none());
    assert!(slot.running);
    assert_eq!(states(&chain), [Running, Off, Off, Running, Off]);
}

#[test]
fn lines_are_sent_to_a_child_that_runs() {
    let slot = ProcSlot::new();
    match slot.send_line("tidal", "hush") {
        SendStep::NotRunning { log } => assert_eq!(log, "[tidal] not running -- boot it first"),
        _ => panic!("sent"),
    }
    let slot = ProcSlot { running: true };
    match slot.send_line("tidal", ":{") {
        SendStep::Send(w) => {
            assert_eq!(w.log, "[tidal] > :{");
            assert_eq!(w.line, ":{\n");
        }
        _ => panic!("not sent"),
    }
}

#[test]
fn troubles_are_logged() {
    assert_eq!(trouble_log("x", Trouble::Launch, "e"), "[x] failed to launch: e");
    assert_eq!(trouble_log("x", Trouble::BootWrite, "e"), "[x] boot write failed: e");
    assert_eq!(trouble_log("x", Trouble::Write, "e"), "[x] write failed: e");
    assert_eq!(trouble_log("x", Trouble::Flush, "e"), "[x] flush failed: e");
}

#[test]
fn servers_are_found_and_ended_by_their_port() {
    assert_eq!(server_pattern("6110"), "scsynth.*-u 6110");
    assert_eq!(kill_server("6111"), "scsynth -u 6111");
    assert_eq!(kill_orbits(), vec!["scsynth -u 6110", "sclang -u 6120"]);
    assert_eq!(kill_log("scsynth -u 6111"), "$ pkill -f \"scsynth -u 6111\"");
    assert!(is_process_running(Some(b"1\n")));
    assert!(!is_process_running(Some(b"")));
    assert!(!is_process_running(None));
}

#[test]
fn pids_are_read() {
    assert_eq!(orbits_scsynth_pid(Some(b"4242\n4243\n")), Some(4242));
    assert_eq!(orbits_scsynth_pid(Some(b"\n")), None);
    assert_eq!(orbits_scsynth_pid(Some(b"\xff\n")), None);
    assert_eq!(orbits_scsynth_pid(None), None);
    assert_eq!(pid_in("  7 8"), Some(7));
    assert_eq!(pid_in("x 8"), None);
}

#[test]
fn a_server_on_the_port_is_not_booted_again() {
    match boot_server("orbits", "6110", Some(b"99\n")) {
        BootStep::Skip { log } => {
            assert_eq!(log, "[orbits] already running on 6110, skipping boot")
        }
        _ => panic!("booted"),
    }
    match boot_server("orbits", "6110", None) {
        BootStep::Boot { log } => assert_eq!(log, "[orbits] booting on port 6110..."),
        _ => panic!("skipped"),
    }
}

#[test]
fn the_marker_makes_the_node_ready_once() {
    let mut watch = Watch::new(&boot_tidal());
    let mut chain = Chain::new();
    let mut rec = Recording::new();
    let step = watch.watch_line(&mut chain, &mut rec, "loading");
    assert_eq!(step.log, "[tidal] loading");
    assert_eq!(chain.tidal, Off);
    watch.watch_line(&mut chain, &mut rec, "tidal: Connected to SuperDirt. ok");
    assert_eq!(chain.tidal, Ready);
    chain.mark_spawned(Some(NodeId::Sclang));
    watch.watch_line(&mut chain, &mut rec, "Connected to SuperDirt.");
    assert_eq!(chain.tidal, Off);
}

#[test]
fn only_the_orbits_tell_of_recordings() {
    let line = "HUB REC: recording 18 stems -> /r/x";
    let mut chain = Chain::new();
    let mut rec = Recording::new();
    let step = Watch::new(&boot_tidal()).watch_line(&mut chain, &mut rec, line);
    assert!(step.rec.is_none());
    assert!(!rec.active);
    let step = Watch::new(&boot_orbits_sclang()).watch_line(&mut chain, &mut rec, line);
    assert_eq!(step.rec.unwrap().path.unwrap(), "/r/x");
    assert!(rec.active);
    assert_eq!(chain, Chain::new());
}

#[test]
fn threads_are_sent_to_their_cpus() {
    let t = pin_target("data-loop.0\n");
    assert_eq!((t.comm.as_str(), t.is_dsp, t.cpu), ("data-loop.0", true, "4"));
    assert_eq!(t.taskset_args("77"), vec!["-cp", "4", "77"]);
    let t = pin_target("scsynth\n");
    assert_eq!((t.comm.as_str(), t.is_dsp, t.cpu), ("scsynth", false, "10"));
    assert!(!pin_target("").is_dsp);
    assert_eq!(task_dir(42), "/proc/42/task");
}

fn run_of(pid: u32, chain: &mut Chain) -> PinRun {
    let lookup = pin_orbits_threads(chain);
    match lookup.pin_start(chain, Some(pid)) {
        PinStart::Run(run) => run,
        PinStart::NoServer { log } => panic!("{log}"),
    }
}

#[test]
fn pinning_is_ready_with_the_rendering_thread() {
    let mut chain = Chain::new();
    let mut run = run_of(42, &mut chain);
    assert_eq!(chain.pin, Running);
    assert_eq!(
        run.pinned(&pin_target("data-loop.0"), "77", true).unwrap(),
        "[pin] data-loop.0 (tid 77) -> cpu 4"
    );
    assert_eq!(run.pinned(&pin_target("scsynth"), "78", true), None);
    assert_eq!(run.pinned(&pin_target("osc"), "79", true), None);
    let report = run.finish(&mut chain);
    assert!(report.warning.is_none());
    assert_eq!(report.summary, "[pin] scsynth 42: 1 dsp on cpu 4, 2 aux on cpu 10");
    assert_eq!(chain.pin, Ready);
}

#[test]
fn pinning_is_off_without_the_rendering_thread() {
    let mut chain = Chain::new();
    let mut run = run_of(42, &mut chain);
    assert_eq!(run.pinned(&pin_target("data-loop.0"), "77", false), None);
    assert_eq!(run.pinned(&pin_target("scsynth"), "78", true), None);
    let report = run.finish(&mut chain);
    assert_eq!(
        report.warning.unwrap(),
        "[pin] WARNING: no data-loop.0 thread -- is the server connected?"
    );
    assert_eq!(report.summary, "[pin] scsynth 42: 0 dsp on cpu 4, 1 aux on cpu 10, 1 failed");
    assert_eq!(chain.pin, Off);
    assert_eq!(run.dsp + run.aux + run.failed, 2);
}

#[test]
fn pinning_needs_a_server() {
    let mut chain = Chain::new();
    let lookup = pin_orbits_threads(&mut chain);
    assert_eq!(chain.pin, Running);
    match lookup.pin_start(&mut chain, None) {
        PinStart::NoServer { log } => assert_eq!(log, "[pin] no orbits scsynth running"),
        PinStart::Run(_) => panic!("started"),
    }
    assert_eq!(chain.pin, Off);
    let run = run_of(9, &mut chain);
    assert_eq!(run.unreadable(&mut chain, "denied"), "[pin] cannot read /proc/9/task: denied");
    assert_eq!(chain.pin, Off);
}

fn serve(relay: &mut Relay) -> u64 {
    match relay.relay_start() {
        StartStep::Serve { generation } => generation,
        StartStep::AlreadyUp { log } => panic!("{log}"),
    }
}

#[test]
fn the_relay_starts_and_stops() {
    assert_eq!(relay_addr(), "127.0.0.1:6140");
    let mut relay = Relay::new();
    match relay.relay_stop() {
        StopStep::NotRunning { log } => assert_eq!(log, "[edit] relay not running"),
        _ => panic!("stopped"),
    }
    let generation = serve(&mut relay);
    match relay.relay_start() {
        StartStep::AlreadyUp { log } => assert_eq!(log, "[edit] relay already up"),
        _ => panic!("started twice"),
    }
    let step = relay.serve_editor(generation, &ServeEvent::Bound);
    assert_eq!((step.log.as_str(), step.goes_on), ("[edit] listening on 127.0.0.1:6140", true));
    assert!(relay.up);
    assert!(matches!(relay.relay_stop(), StopStep::Shutdown { generation: g } if g == generation));
    let step = relay.serve_editor(generation, &ServeEvent::Shutdown);
    assert_eq!((step.log.as_str(), step.goes_on), ("[edit] relay stopped", false));
    assert!(!relay.up);
}

#[test]
fn a_late_cleanup_leaves_the_new_relay_alone() {
    let mut relay = Relay::new();
    let first = serve(&mut relay);
    relay.relay_stop();
    let second = serve(&mut relay);
    assert_ne!(first, second);
    relay.clear_relay(first);
    assert_eq!(relay.current, Some(second));
    relay.clear_relay(second);
    assert_eq!(relay.current, None);
}

#[test]
fn a_port_that_is_taken_frees_the_relay() {
    let mut relay = Relay::new();
    let generation = serve(&mut relay);
    let step = relay.serve_editor(generation, &ServeEvent::BindFailed("in use".to_string()));
    assert_eq!(step.log, "[edit] cannot bind 127.0.0.1:6140: in use");
    assert!(!step.goes_on);
    assert_eq!(relay.current, None);
    assert!(!relay.up);
}

#[test]
fn a_listener_goes_on_with_connections() {
    let mut relay = Relay::new();
    let generation = serve(&mut relay);
    let step = relay.serve_editor(generation, &ServeEvent::AcceptFailed("reset".to_string()));
    assert_eq!((step.log.as_str(), step.goes_on), ("[edit] accept failed: reset", true));
    let step = relay.serve_editor(generation, &ServeEvent::Connected("1.2.3.4:5".to_string()));
    assert_eq!((step.log.as_str(), step.goes_on), ("[edit] connected: 1.2.3.4:5", true));
    assert_eq!(relay.current, Some(generation));
}

#[test]
fn a_block_reaches_tidal_line_by_line() {
    let tidal = ProcSlot { running: true };
    let mut conn = EditorConn::new("peer".to_string());
    let block = [":{", "d1 $ s \"bd*4\"", ":}"];
    let mut stdin = String::new();
    for line in block {
        match conn.line(&tidal, line) {
            SendStep::Send(w) => stdin.push_str(&w.line),
            SendStep::NotRunning { log } => panic!("{log}"),
        }
    }
    assert_eq!(stdin, ":{\nd1 $ s \"bd*4\"\n:}\n");
    assert_eq!(stdin.lines().collect::<Vec<_>>(), block);
    assert_eq!(conn.closed(), "[edit] peer disconnected after 3 lines");
    assert_eq!(conn.read_failed("reset"), "[edit] read error from peer: reset");
}

#[test]
fn lines_without_tidal_are_counted_and_reported() {
    let mut conn = EditorConn::new("peer".to_string());
    match conn.line(&ProcSlot::new(), "hush") {
        SendStep::NotRunning { log } => assert_eq!(log, "[tidal] not running -- boot it first"),
        SendStep::Send(_) => panic!("sent"),
    }
    assert_eq!(conn.count, 1);
}
