//! The rig: ports, command lines and wiring.

use vstd::prelude::*;

use crate::number::{decimal, decimal_text, digits_value};

verus! {

// The ports are held out of the SuperCollider and SuperDirt defaults, so that a stray
// sclang can never take a socket that this stack depends on.

/// The orbits' scsynth. Tidal writes its control busses here.
pub const ORBITS_PORT: &'static str = "6110";

/// The vocals' scsynth.
pub const VOCALS_PORT: &'static str = "6111";

/// sclang's own port.
pub const SCLANG_PORT: &'static str = "6120";

/// The port of the editor relay.
pub const EDITOR_PORT: u16 = 6140;

/// The JACK client of the orbits' scsynth, in either way of booting it.
pub const ORBITS_JACK_CLIENT: &'static str = "orbits";

/// The JACK client of the sound card.
pub const ONYX_CLIENT: &'static str = "Onyx Artist 1-2 Pro";

/// Two channels per orbit.
pub const ORBITS_OUT_CHANNELS: u32 = 36;

/// The letters of the orbit groups.
pub const MUTE_GROUP_SLUGS: [char; 3] = ['b', 'l', 'a'];

pub const ORBITS_PER_GROUP: usize = 6;

/// sclang's realtime priority. It has to stay below scsynth's 80, so that scsynth can
/// always preempt it.
pub const SCLANG_RT_PRIO: &'static str = "73";

pub const TIDAL_BOOT_FILE: &'static str = "/home/endo/Studio/Hub/BootTidal.hs";

/// What boots the engine. It goes to sclang's stdin: given a file as an argument,
/// sclang would never read its stdin.
pub const ORBITS_BOOT_CMD: &'static str = "\"/home/endo/Studio/Hub/startup.scd\".load;";

/// Has sclang print the server's node tree.
pub const DUMP_TREE_CODE: &'static str = "s.queryAllNodes;";

/// Has sclang build the node tree anew.
pub const INIT_TREE_CODE: &'static str = "s.initTree;";

/// A pattern for Tidal to try the rig with.
pub const TEST_PATTERN_CODE: &'static str = "b2 $ s \"bd(3, 4)\" ";

/// Silences Tidal.
pub const HUSH_CODE: &'static str = "hush";

/// Ends ghci cleanly.
pub const QUIT_CODE: &'static str = ":quit";

/// The texts of a vector of strings.
pub open spec fn texts(v: Seq<String>) -> Seq<Seq<char>> {
    v.map_values(|s: String| s@)
}

/// The texts of string slices.
pub open spec fn str_texts(v: Seq<&str>) -> Seq<Seq<char>> {
    v.map_values(|s: &str| s@)
}

/// Owned copies of the arguments.
pub fn owned(args: &[&str]) -> (r: Vec<String>)
    ensures
        texts(r@) == str_texts(args@),
        r@.len() == args@.len(),
        forall|i: int| 0 <= i < r@.len() ==> (#[trigger] r@[i])@ == args@[i]@,
{
    let mut out: Vec<String> = Vec::new();
    let mut i: usize = 0;
    while i < args.len()
        invariant
            i <= args@.len(),
            texts(out@) == str_texts(args@.take(i as int)),
        decreases args@.len() - i,
    {
        out.push(args[i].to_owned());
        assert(texts(out@) == texts(out@.drop_last()).push(args@[i as int]@));
        assert(str_texts(args@.take(i + 1)) == str_texts(args@.take(i as int)).push(
            args@[i as int]@,
        ));
        i += 1;
    }
    assert(args@.take(i as int) == args@);
    assert(texts(out@).len() == out@.len() && str_texts(args@).len() == args@.len());
    assert forall|k: int| 0 <= k < out@.len() implies (#[trigger] out@[k])@ == args@[k]@ by {
        assert(texts(out@)[k] == str_texts(args@)[k]);
    }
    out
}

/// The command line of sclang.
pub open spec fn sclang_command() -> Seq<Seq<char>> {
    seq!["chrt"@, "-f"@, SCLANG_RT_PRIO@, "sclang"@, "-u"@, SCLANG_PORT@]
}

/// sclang boots scsynth itself. It runs in realtime, below scsynth, and on no CPU of
/// its own.
pub fn orbits_sclang_args() -> (r: Vec<String>)
    ensures
        texts(r@) == sclang_command(),
{
    owned(&["chrt", "-f", SCLANG_RT_PRIO, "sclang", "-u", SCLANG_PORT])
}

/// The command line of the vocals' scsynth.
pub open spec fn vocals_command() -> Seq<Seq<char>> {
    seq![
        "taskset"@,
        "-c"@,
        "5"@,
        "chrt"@,
        "-f"@,
        "80"@,
        "pw-jack"@,
        "-p"@,
        "64"@,
        "scsynth"@,
        "-u"@,
        VOCALS_PORT@,
        "-H"@,
        "vocals"@,
        "-S"@,
        "48000"@,
        "-z"@,
        "64"@,
        "-i"@,
        "2"@,
        "-o"@,
        "2"@,
        "-a"@,
        "64"@,
        "-m"@,
        "65536"@,
        "-L"@,
    ]
}

/// The vocals' scsynth. It has a CPU of its own and a quantum of 64.
pub fn vocals_args() -> (r: Vec<String>)
    ensures
        texts(r@) == vocals_command(),
{
    owned(
        &[
            "taskset",
            "-c",
            "5",
            "chrt",
            "-f",
            "80",
            "pw-jack",
            "-p",
            "64",
            "scsynth",
            "-u",
            VOCALS_PORT,
            "-H",
            "vocals",
            "-S",
            "48000",
            "-z",
            "64",
            "-i",
            "2",
            "-o",
            "2",
            "-a",
            "64",
            "-m",
            "65536",
            "-L",
        ],
    )
}

/// The command line of Tidal.
pub open spec fn tidal_command() -> Seq<Seq<char>> {
    seq![
        "taskset"@,
        "-c"@,
        "6"@,
        "ghci"@,
        "-ghci-script"@,
        TIDAL_BOOT_FILE@,
    ]
}

/// ghci has a CPU of its own, clear of the audio, and no realtime priority: a pause of
/// its garbage collector would starve everything below it.
pub fn tidal_args() -> (r: Vec<String>)
    ensures
        texts(r@) == tidal_command(),
{
    owned(&["taskset", "-c", "6", "ghci", "-ghci-script", TIDAL_BOOT_FILE])
}

/// How many audio busses the outputs need: the outputs themselves, eight per orbit and
/// headroom, and no fewer than 1024.
pub open spec fn audio_busses(out_channels: nat) -> nat {
    let need = out_channels + (out_channels / 2) * 8 + 128;
    if need < 1024 {
        1024
    } else {
        need
    }
}

pub fn audio_bus_channels(out_channels: u32) -> (r: u32)
    requires
        audio_busses(out_channels as nat) <= u32::MAX,
    ensures
        r == audio_busses(out_channels as nat),
{
    let need: u32 = out_channels + (out_channels / 2) * 8 + 128;
    if need < 1024 {
        1024
    } else {
        need
    }
}

/// The command line of an orbits' scsynth that is booted without sclang. The flags are
/// the server's only configuration.
pub open spec fn scsynth_command(quantum: nat) -> Seq<Seq<char>> {
    seq![
        "taskset"@,
        "-c"@,
        "4"@,
        "chrt"@,
        "-f"@,
        "80"@,
        "pw-jack"@,
        "-p"@,
        decimal(quantum),
        "scsynth"@,
        "-u"@,
        ORBITS_PORT@,
        "-H"@,
        ORBITS_JACK_CLIENT@,
        "-S"@,
        "48000"@,
        "-z"@,
        decimal(quantum),
        "-Z"@,
        decimal(quantum),
        "-i"@,
        "0"@,
        "-o"@,
        decimal(ORBITS_OUT_CHANNELS as nat),
        "-a"@,
        decimal(audio_busses(ORBITS_OUT_CHANNELS as nat)),
        "-b"@,
        "524288"@,
        "-n"@,
        "524288"@,
        "-w"@,
        "256"@,
        "-m"@,
        "524288"@,
        "-l"@,
        "3"@,
        "-L"@,
    ]
}

pub fn orbits_scsynth_args(quantum: u32) -> (r: Vec<String>)
    ensures
        texts(r@) == scsynth_command(quantum as nat),
{
    let quantum = decimal_text(quantum as u64);
    let out_chans = decimal_text(ORBITS_OUT_CHANNELS as u64);
    let audio_bus = decimal_text(audio_bus_channels(ORBITS_OUT_CHANNELS) as u64);
    owned(
        &[
            "taskset",
            "-c",
            "4",
            "chrt",
            "-f",
            "80",
            "pw-jack",
            "-p",
            quantum.as_str(),
            "scsynth",
            "-u",
            ORBITS_PORT,
            "-H",
            ORBITS_JACK_CLIENT,
            "-S",
            "48000",
            "-z",
            quantum.as_str(),
            "-Z",
            quantum.as_str(),
            "-i",
            "0",
            "-o",
            out_chans.as_str(),
            "-a",
            audio_bus.as_str(),
            "-b",
            "524288",
            "-n",
            "524288",
            "-w",
            "256",
            "-m",
            "524288",
            "-l",
            "3",
            "-L",
        ],
    )
}

// ---- wiring ---------------------------------------------------------------------

/// The JACK port of the orbits' output `i`, counted from 1.
pub open spec fn orbit_output(i: nat) -> Seq<char> {
    ORBITS_JACK_CLIENT@ + ":out_"@ + decimal(i)
}

/// The JACK port that output `i` goes to: odd ones are left, even ones right.
pub open spec fn card_input(i: nat) -> Seq<char> {
    if i % 2 == 1 {
        ONYX_CLIENT@ + ":playback_AUX0"@
    } else {
        ONYX_CLIENT@ + ":playback_AUX1"@
    }
}

/// The connections between the orbits and the sound card, one per output channel.
pub fn orbits_connect_pairs() -> (r: Vec<(String, String)>)
    ensures
        r@.len() == ORBITS_OUT_CHANNELS,
        forall|i: int|
            0 <= i < r@.len() ==> (#[trigger] r@[i]).0@ == orbit_output((i + 1) as nat) && r@[i].1@
                == card_input((i + 1) as nat),
        r@.len() == 36,
        forall|i: int|
            0 <= i < r@.len() ==> (#[trigger] r@[i]).0@ == "orbits:out_"@ + decimal((i + 1) as nat),
        forall|n: int|
            #![trigger r@[2 * n]]
            0 <= n < 18 ==> r@[2 * n].1@ == "Onyx Artist 1-2 Pro:playback_AUX0"@,
        forall|n: int|
            #![trigger r@[2 * n + 1]]
            0 <= n < 18 ==> r@[2 * n + 1].1@ == "Onyx Artist 1-2 Pro:playback_AUX1"@,
        r@.filter(|p: (String, String)| p.1@ == "Onyx Artist 1-2 Pro:playback_AUX0"@).len() == 18,
        r@.filter(|p: (String, String)| p.1@ == "Onyx Artist 1-2 Pro:playback_AUX1"@).len() == 18,
{
    let mut out: Vec<(String, String)> = Vec::new();
    let mut i: u32 = 1;
    while i <= ORBITS_OUT_CHANNELS
        invariant
            1 <= i <= ORBITS_OUT_CHANNELS + 1,
            out@.len() == i - 1,
            forall|k: int|
                0 <= k < out@.len() ==> (#[trigger] out@[k]).0@ == orbit_output((k + 1) as nat)
                    && out@[k].1@ == card_input((k + 1) as nat),
        decreases ORBITS_OUT_CHANNELS + 1 - i,
    {
        let mut src = ORBITS_JACK_CLIENT.to_owned();
        src.append(":out_");
        src.append(decimal_text(i as u64).as_str());
        let mut dst = ONYX_CLIENT.to_owned();
        if i % 2 == 1 {
            dst.append(":playback_AUX0");
        } else {
            dst.append(":playback_AUX1");
        }
        out.push((src, dst));
        i += 1;
    }
    proof {
        assert forall|k: int| 0 <= k < out@.len() implies (#[trigger] out@[k]).0@ == "orbits:out_"@
            + decimal((k + 1) as nat) by {
            law_output_names((k + 1) as nat);
        }
        assert forall|n: int|
            #![trigger out@[2 * n]]
            0 <= n < 18 implies out@[2 * n].1@ == "Onyx Artist 1-2 Pro:playback_AUX0"@ by {
            law_left_and_right(n as nat);
        }
        assert forall|n: int|
            #![trigger out@[2 * n + 1]]
            0 <= n < 18 implies out@[2 * n + 1].1@ == "Onyx Artist 1-2 Pro:playback_AUX1"@ by {
            law_left_and_right(n as nat);
        }
        law_half_go_to_each_side(out@);
    }
    out
}

// ---- laws -----------------------------------------------------------------------

/// The quantum reaches a directly booted scsynth: its `-p`, `-z` and `-Z` are the
/// quantum that it is booted with, and no two quanta give the same command line.
pub proof fn law_scsynth_follows_quantum(quantum: u32, other: u32)
    ensures
        scsynth_command(quantum as nat)[7] == "-p"@,
        scsynth_command(quantum as nat)[8] == decimal(quantum as nat),
        scsynth_command(quantum as nat)[16] == "-z"@,
        scsynth_command(quantum as nat)[17] == decimal(quantum as nat),
        scsynth_command(quantum as nat)[18] == "-Z"@,
        scsynth_command(quantum as nat)[19] == decimal(quantum as nat),
        scsynth_command(quantum as nat) == scsynth_command(other as nat) ==> quantum == other,
{
    if scsynth_command(quantum as nat) == scsynth_command(other as nat) {
        assert(scsynth_command(quantum as nat)[8] == scsynth_command(other as nat)[8]);
        crate::number::law_decimal_injective(quantum as nat, other as nat);
    }
}

/// There are two output channels for each orbit of each group.
pub proof fn law_two_outputs_per_orbit()
    ensures
        ORBITS_OUT_CHANNELS == MUTE_GROUP_SLUGS@.len() * ORBITS_PER_GROUP * 2,
{
}

/// sclang's priority is below that of every scsynth, whatever the quantum, so that a server
/// can always preempt it.
pub proof fn law_sclang_below_scsynth(quantum: nat)
    ensures
        sclang_command()[1] == "-f"@,
        scsynth_command(quantum)[4] == "-f"@,
        vocals_command()[4] == "-f"@,
        digits_value(sclang_command()[2]) < digits_value(scsynth_command(quantum)[5]),
        digits_value(sclang_command()[2]) < digits_value(vocals_command()[5]),
{
    reveal_strlit("73");
    reveal_strlit("80");
    reveal_with_fuel(digits_value, 3);
    assert("73"@.drop_last() == seq!['7']);
    assert("80"@.drop_last() == seq!['8']);
    assert(seq!['7'].drop_last() == Seq::<char>::empty());
    assert(seq!['8'].drop_last() == Seq::<char>::empty());
}

/// No output is wired twice.
pub proof fn law_outputs_distinct(i: nat, j: nat)
    requires
        orbit_output(i) == orbit_output(j),
    ensures
        i == j,
{
    let head = ORBITS_JACK_CLIENT@ + ":out_"@;
    assert(orbit_output(i).skip(head.len() as int) == decimal(i));
    assert(orbit_output(j).skip(head.len() as int) == decimal(j));
    crate::number::law_decimal_injective(i, j);
}

/// The two sides of the sound card.
pub open spec fn goes_left(pair: (String, String)) -> bool {
    pair.1@ == "Onyx Artist 1-2 Pro:playback_AUX0"@
}

pub open spec fn goes_right(pair: (String, String)) -> bool {
    pair.1@ == "Onyx Artist 1-2 Pro:playback_AUX1"@
}

/// The outputs of an orbit go one to each side of the sound card, the first to the left and
/// the second to the right. Orbits are counted from 0, and outputs from 1.
pub proof fn law_left_and_right(orbit: nat)
    ensures
        card_input(2 * orbit + 1) == "Onyx Artist 1-2 Pro:playback_AUX0"@,
        card_input(2 * orbit + 2) == "Onyx Artist 1-2 Pro:playback_AUX1"@,
        card_input(2 * orbit + 1) != card_input(2 * orbit + 2),
{
    reveal_strlit("Onyx Artist 1-2 Pro");
    reveal_strlit(":playback_AUX0");
    reveal_strlit(":playback_AUX1");
    reveal_strlit("Onyx Artist 1-2 Pro:playback_AUX0");
    reveal_strlit("Onyx Artist 1-2 Pro:playback_AUX1");
    assert(ONYX_CLIENT@ + ":playback_AUX0"@ == "Onyx Artist 1-2 Pro:playback_AUX0"@);
    assert(ONYX_CLIENT@ + ":playback_AUX1"@ == "Onyx Artist 1-2 Pro:playback_AUX1"@);
    assert("Onyx Artist 1-2 Pro:playback_AUX0"@[32] != "Onyx Artist 1-2 Pro:playback_AUX1"@[32]);
}

/// The outputs are named by the JACK client of the orbits and their number.
pub proof fn law_output_names(i: nat)
    ensures
        orbit_output(i) == "orbits:out_"@ + decimal(i),
{
    reveal_strlit("orbits");
    reveal_strlit(":out_");
    reveal_strlit("orbits:out_");
    assert("orbits"@ + ":out_"@ == "orbits:out_"@);
}

/// Of outputs that go to the left and to the right in turn, half go to each side.
pub proof fn law_half_go_to_each_side(pairs: Seq<(String, String)>)
    requires
        pairs.len() % 2 == 0,
        forall|n: int|
            #![trigger pairs[2 * n]]
            0 <= 2 * n < pairs.len() ==> goes_left(pairs[2 * n]),
        forall|n: int|
            #![trigger pairs[2 * n + 1]]
            0 <= 2 * n < pairs.len() ==> goes_right(pairs[2 * n + 1]),
    ensures
        pairs.filter(
            |p: (String, String)| p.1@ == "Onyx Artist 1-2 Pro:playback_AUX0"@,
        ).len() * 2 == pairs.len(),
        pairs.filter(
            |p: (String, String)| p.1@ == "Onyx Artist 1-2 Pro:playback_AUX1"@,
        ).len() * 2 == pairs.len(),
    decreases pairs.len(),
{
    reveal(Seq::filter);
    law_left_and_right(0);
    if pairs.len() > 0 {
        let one = pairs.drop_last();
        let rest = one.drop_last();
        let n = rest.len() as int / 2;
        assert(rest.len() == 2 * n);
        assert(goes_left(pairs[2 * n]) && goes_right(pairs[2 * n + 1]));
        assert(one.last() == pairs[2 * n]);
        assert(pairs.last() == pairs[2 * n + 1]);
        assert forall|k: int|
            #![trigger rest[2 * k]]
            0 <= 2 * k < rest.len() implies goes_left(rest[2 * k]) by {
            assert(rest[2 * k] == pairs[2 * k]);
        }
        assert forall|k: int|
            #![trigger rest[2 * k + 1]]
            0 <= 2 * k < rest.len() implies goes_right(rest[2 * k + 1]) by {
            assert(rest[2 * k + 1] == pairs[2 * k + 1]);
        }
        law_half_go_to_each_side(rest);
        let left = |p: (String, String)| p.1@ == "Onyx Artist 1-2 Pro:playback_AUX0"@;
        let right = |p: (String, String)| p.1@ == "Onyx Artist 1-2 Pro:playback_AUX1"@;
        assert("Onyx Artist 1-2 Pro:playback_AUX0"@ != "Onyx Artist 1-2 Pro:playback_AUX1"@);
        assert(left(one.last()) && !right(one.last()));
        assert(right(pairs.last()) && !left(pairs.last()));
        assert(one.filter(left) == rest.filter(left).push(one.last()));
        assert(pairs.filter(left) == one.filter(left));
        assert(one.filter(right) == rest.filter(right));
        assert(pairs.filter(right) == one.filter(right).push(pairs.last()));
    }
}

/// Copies of texts are the texts, one for each and in their order.
pub proof fn law_texts(v: Seq<String>, w: Seq<&str>, i: int)
    ensures
        texts(v).len() == v.len(),
        0 <= i < v.len() ==> texts(v)[i] == v[i]@,
        str_texts(w).len() == w.len(),
        0 <= i < w.len() ==> str_texts(w)[i] == w[i]@,
{
}

/// The quantum changes nothing else of scsynth's command line: for any two quanta it is the
/// same but for the three places where the quantum stands.
pub proof fn law_quantum_changes_nothing_else(quantum: nat, other: nat, i: int)
    requires
        0 <= i < scsynth_command(quantum).len(),
        i != 8 && i != 17 && i != 19,
    ensures
        scsynth_command(quantum).len() == scsynth_command(other).len(),
        scsynth_command(quantum)[i] == scsynth_command(other)[i],
{
}

/// A directly booted scsynth has the outputs that are wired, and busses for them.
pub proof fn law_scsynth_has_the_outputs(quantum: nat)
    ensures
        scsynth_command(quantum)[22] == "-o"@,
        scsynth_command(quantum)[23] == decimal(36),
        scsynth_command(quantum)[24] == "-a"@,
        scsynth_command(quantum)[25] == decimal(1024),
        scsynth_command(quantum)[10] == "-u"@,
        scsynth_command(quantum)[11] == ORBITS_PORT@,
{
}

/// There are as many busses as the outputs need, which is the outputs, eight for each two of
/// them and 128 more; never fewer than 1024, and no more than either asks for.
pub proof fn law_busses_suffice(out_channels: nat)
    ensures
        audio_busses(out_channels) >= 1024,
        audio_busses(out_channels) >= out_channels + 8 * (out_channels / 2) + 128,
        audio_busses(out_channels) == 1024 || audio_busses(out_channels) == out_channels + 8 * (
        out_channels / 2) + 128,
{
}

} // verus!
