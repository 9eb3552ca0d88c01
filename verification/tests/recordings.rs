use live_audio_control::order::{sort_named, NameOrder};
use live_audio_control::recordings::{
    count_wavs, fmt_duration, is_wav, list_sessions, list_stems, Session, SessionEntry, StemFile,
};
use live_audio_control::stamp::{is_newer, stamp_of};
use std::path::{Path, PathBuf};

fn entry(name: &str, is_dir: bool, files: Option<Vec<&str>>) -> SessionEntry {
    SessionEntry {
        name: name.to_string(),
        path: PathBuf::from(format!("/rec/{name}")),
        is_dir,
        files: files.map(|fs| fs.into_iter().map(|f| f.to_string()).collect()),
    }
}

fn file(name: &str, bytes: u64) -> StemFile {
    StemFile { name: name.to_string(), bytes, size: format!("{bytes} B") }
}

#[test]
fn missing_dir_is_empty() {
    let listing = Path::new("/nonexistent-hub-session").read_dir().ok();
    assert!(list_stems(listing.map(|_| vec![file("b1.wav", 78)])).is_empty());
}

#[test]
fn duration_math() {
    assert_eq!(fmt_duration(60), "00:01:00".to_string());
    assert_eq!(fmt_duration(3661), "01:01:01".to_string());
}

#[test]
fn long_durations_keep_their_hours() {
    assert_eq!(fmt_duration(0), "00:00:00");
    assert_eq!(fmt_duration(59), "00:00:59");
    assert_eq!(fmt_duration(3599), "00:59:59");
    assert_eq!(fmt_duration(100 * 3600), "100:00:00");
    assert_eq!(fmt_duration(u64::MAX), "5124095576030431:00:15");
}

#[test]
fn wav_names() {
    assert!(is_wav("b1.wav"));
    assert!(is_wav("..wav"));
    assert!(is_wav("a.b.wav"));
    for name in ["", ".wav", "wav", "b1.WAV", "b1.wav2", "b1.wav.tmp", "b1wav", "b1."] {
        assert!(!is_wav(name), "{name}");
    }
    for name in ["b1.wav", "..wav", ".wav", "b1.WAV", "a.wav.b", "x.", "wav"] {
        let ext = Path::new(name).extension().is_some_and(|x| x == "wav");
        assert_eq!(is_wav(name), ext, "{name}");
    }
}

#[test]
fn wavs_are_counted() {
    let names = |v: Vec<&str>| Some(v.into_iter().map(|s| s.to_string()).collect::<Vec<_>>());
    assert_eq!(count_wavs(&names(vec!["b1.wav", "notes.txt", "l2.wav", ".wav"])), 2);
    assert_eq!(count_wavs(&names(vec![])), 0);
    assert_eq!(count_wavs(&None), 0);
}

#[test]
fn sessions_newest_first() {
    let got = list_sessions(Some(vec![
        entry("set_240101_200000", true, Some(vec!["b1.wav", "l1.wav"])),
        entry("set_240301_200000", true, Some(vec!["b1.wav", "readme"])),
        entry("notes.txt", false, None),
        entry("set_240201_200000", true, None),
    ]));
    let rows: Vec<(&str, usize)> = got.iter().map(|s| (s.name.as_str(), s.stems)).collect();
    assert_eq!(
        rows,
        vec![("set_240301_200000", 1), ("set_240201_200000", 0), ("set_240101_200000", 2)]
    );
    assert_eq!(got[0].path, PathBuf::from("/rec/set_240301_200000"));
    assert!(list_sessions(None).is_empty());
}

fn session_names(names: &[&str]) -> Vec<String> {
    let entries = names.iter().map(|name| entry(name, true, None)).collect();
    list_sessions(Some(entries)).into_iter().map(|s| s.name).collect()
}

#[test]
fn newest_first_whatever_the_label() {
    assert_eq!(session_names(&["a_20260102", "b_20260101"]), vec!["a_20260102", "b_20260101"]);
    assert_eq!(session_names(&["b_20260101", "a_20260102"]), vec!["a_20260102", "b_20260101"]);
    assert_eq!(
        session_names(&["take_2_20260101", "jam_260103_010000", "take_1_20260102"]),
        vec!["jam_260103_010000", "take_1_20260102", "take_2_20260101"]
    );
    assert_eq!(
        session_names(&["z_260101_230000", "a_260102_010000"]),
        vec!["a_260102_010000", "z_260101_230000"]
    );
}

#[test]
fn one_timestamp_goes_by_the_name() {
    assert_eq!(
        session_names(&["a_20260101", "c_20260101", "b_20260101"]),
        vec!["c_20260101", "b_20260101", "a_20260101"]
    );
    assert_eq!(session_names(&["a", "b", "x_1"]), vec!["x_1", "b", "a"]);
}

#[test]
fn a_dated_label_is_in_order_with_itself() {
    assert_eq!(
        session_names(&["jam_20251231_20260101", "jam_20251231_20260102"]),
        vec!["jam_20251231_20260102", "jam_20251231_20260101"]
    );
}

#[test]
fn names_of_one_label_descend_whatever_the_format() {
    for times in [
        ["2026_01_02", "2025_12_31", "2025_01_31"],
        ["2026-01-03_09:00:00", "2026-01-02_10:30:00", "2025-12-31_23:59:59"],
        ["2026-01-02T10:11:12", "2026-01-02T09:59:59", "2025-12-31T23:00:00"],
        ["2026.01.02_10.00", "2026.01.02_09.00", "2025.12.31_23.00"],
        ["2026_0102_010000", "2025_1231_230000", "2025_0101_235959"],
        ["2026_0102_010000_000001", "2025_1231_230000_999999", "2025_0101_235959_000000"],
        ["20260102_010000_000001", "20251231_230000_999999", "20250101_235959_000000"],
        ["260102_010000", "251231_230000", "250101_235959"],
        ["26_01_02_010000", "25_12_31_230000", "25_01_01_235959"],
        ["2026-W02-1_010000", "2025-W52-7_230000", "2025-W01-1_235959"],
        ["2026-002_010000", "2025-365_230000", "2025-001_235959"],
        ["2026-01-02_01h00m00s", "2025-12-31_23h00m00s", "2025-01-01_23h59m59s"],
        ["1767312000", "1767225600", "1735689600"],
        ["9", "5", "1"],
    ] {
        for label in ["set", "take_2", "jam_20251231", "live2025", "a_b_260101", "", "x_2024"] {
            let names: Vec<String> = times.iter().map(|t| format!("{label}_{t}")).collect();
            let refs: Vec<&str> = names.iter().rev().map(|n| n.as_str()).collect();
            assert_eq!(session_names(&refs), names);
        }
    }
}

#[test]
fn undated_sessions_come_last_by_name() {
    assert_eq!(
        session_names(&["zzz", "a_7", "a_20260101", "b_6", "a_x_y"]),
        vec!["a_20260101", "zzz", "b_6", "a_x_y", "a_7"]
    );
}

#[test]
fn a_date_in_the_label_is_not_the_timestamp() {
    assert_eq!(
        session_names(&["jam_20251231_20260102", "b_20260101"]),
        vec!["jam_20251231_20260102", "b_20260101"]
    );
    assert_eq!(
        session_names(&["b_20260103_090000", "jam_20271231_20260102_100000"]),
        vec!["b_20260103_090000", "jam_20271231_20260102_100000"]
    );
    assert_eq!(
        session_names(&["take_2_260101_120000", "take_1_260102_110000"]),
        vec!["take_1_260102_110000", "take_2_260101_120000"]
    );
}

#[test]
fn timestamps_in_names() {
    for (name, stamp) in [
        ("_20260101", "20260101"),
        ("a_20260102", "20260102"),
        ("a_20260102101112", "20260102101112"),
        ("a_2026_01_02_10", "2026_01_02_10"),
        ("a_2026-01-02T10:11:12", "2026-01-02T10:11:12"),
        ("a_2026.01.02", "2026.01.02"),
        ("set-1_2026-01-02_10-11-12", "2026-01-02_10-11-12"),
        ("take_2_20260101_120000", "20260101_120000"),
        ("jam_20251231_20260102", "20260102"),
        ("a_260102", "260102"),
        ("a_26-01-02_10:11", "26-01-02_10:11"),
        ("take_123_260102_120000", "260102_120000"),
        ("a_1767312000", "1767312000"),
        ("jam_20251231_260102_120000", "20251231_260102_120000"),
    ] {
        let chars: Vec<char> = name.chars().collect();
        let found = stamp_of(&chars).map(|s| s.iter().collect::<String>());
        assert_eq!(found.as_deref(), Some(stamp), "{name}");
    }
    for name in [
        "", "session", "session_", "20260101", "a_7", "my_set_7", "a_12345", "a_2026_1_2",
        "a_2026-W01-5_101010", "2026_0102_101010", "live2025_260102", "a_26_01_02", "a_2026/01/02",
    ] {
        let chars: Vec<char> = name.chars().collect();
        assert!(stamp_of(&chars).is_none(), "{name}");
    }
}

#[test]
fn newer_sessions() {
    let newer = |a: &str, b: &str| {
        let (a, b): (Vec<char>, Vec<char>) = (a.chars().collect(), b.chars().collect());
        is_newer(&a, &b)
    };
    assert!(newer("a_20260102", "b_20260101"));
    assert!(!newer("b_20260101", "a_20260102"));
    assert!(newer("b_20260101", "a_20260101"));
    assert!(!newer("a_20260101", "a_20260101"));
}

#[test]
fn stems_by_name_with_durations() {
    let second = 288_000;
    let got = list_stems(Some(vec![
        file("l1.wav", 78 + 61 * second),
        file("b1.wav", 78 + 60 * second + second - 1),
        file("log.txt", 10_000_000),
        file("a1.wav", 10),
    ]));
    let rows: Vec<(&str, &str, &str)> = got
        .iter()
        .map(|s| (s.name.as_str(), s.size.as_str(), s.duration.as_str()))
        .collect();
    assert_eq!(
        rows,
        vec![
            ("a1.wav", "10 B", "00:00:00"),
            ("b1.wav", "17568077 B", "00:01:00"),
            ("l1.wav", "17568078 B", "00:01:01"),
        ]
    );
}

#[test]
fn the_sort_is_stable_and_orders_by_code_point() {
    let s = |name: &str, stems: usize| Session {
        name: name.to_string(),
        path: PathBuf::new(),
        stems,
    };
    let items = vec![s("b", 1), s("a", 2), s("\u{e9}", 3), s("b", 4), s("B", 5), s("", 6)];
    let up: Vec<usize> =
        sort_named(items, NameOrder::Alphabetical).iter().map(|x| x.stems).collect();
    assert_eq!(up, vec![6, 5, 2, 1, 4, 3]);
    let items = vec![s("b", 1), s("a", 2), s("\u{e9}", 3), s("b", 4), s("B", 5), s("", 6)];
    let down: Vec<usize> =
        sort_named(items, NameOrder::NewestFirst).iter().map(|x| x.stems).collect();
    assert_eq!(down, vec![3, 1, 4, 2, 5, 6]);
}
