use live_audio_control::lates::{has_late_word, is_late, LateCounter};
use live_audio_control::panel::{
    midi_reconnect_log, mute_model, open_folder, orbit_mute, panic_log, row_index, session_rows,
    selected_folder, song_index, song_log, song_title, Button, Setter,
};
use live_audio_control::rec::{rec_label, rec_start_code, Recording};
use live_audio_control::recordings::Session;
use std::path::PathBuf;

#[test]
fn late_is_a_whole_word_in_any_case() {
    for line in ["late", "LATE", "late 0.02", "[orbits] Late: 3ms", "x,lAtE!", "too_late", "d1-late"]
    {
        assert!(is_late(line), "{line}");
    }
    for line in ["", "lat", "later", "translate", "late2", "2late", "lat e", "\u{e9}late", "la te"] {
        assert!(!is_late(line), "{line}");
    }
}

#[test]
fn ascii_neighbours_of_late() {
    for u in 0..128_u8 {
        let c = u as char;
        assert_eq!(is_late(&format!("late{c}")), !c.is_ascii_alphanumeric(), "{c:?}");
        assert_eq!(is_late(&format!("{c}late")), !c.is_ascii_alphanumeric(), "{c:?}");
    }
}

#[test]
fn lateness_agrees_with_splitting() {
    for line in ["a late b", "alate", "late.late", "l\u{e1}te", "late\u{661}", "late\u{2014}", "LATe"] {
        let want = line
            .split(|c: char| !c.is_alphanumeric())
            .any(|word| word.eq_ignore_ascii_case("late"));
        assert_eq!(is_late(line), want, "{line}");
    }
}

#[test]
fn word_characters_decide() {
    let line = ['l', 'a', 't', 'e', '.'];
    assert!(has_late_word(&line, &[true, true, true, true, false]));
    assert!(!has_late_word(&line, &[true, true, true, true, true]));
    assert!(!has_late_word(&line, &[true, false, true, true, false]));
    assert!(!has_late_word(&[], &[]));
}

#[test]
fn late_lines_are_tallied() {
    let mut lates = LateCounter::new();
    assert_eq!(lates.log_line("late 0.1"), 1);
    assert_eq!(lates.log_line("later"), 1);
    assert_eq!(lates.log_line("LATE"), 2);
    assert_eq!(lates.count, 2);
    assert_eq!(lates.try_log_line("late"), Some(3));
    let mut full = LateCounter { count: u32::MAX };
    assert_eq!(full.log_line("later"), u32::MAX);
    assert_eq!(full.try_log_line("later"), Some(u32::MAX));
    assert_eq!(full.try_log_line("late"), None);
    assert_eq!(full.count, u32::MAX);
}

#[test]
fn recordings_follow_the_announcements() {
    let mut rec = Recording::new();
    assert!(rec.handle_rec_line("REC START pressed").is_none());
    assert!(!rec.active);
    let u = rec.handle_rec_line("HUB REC: recording 18 stems -> /home/x/set_1 ").unwrap();
    assert!(u.active && u.start_ticker);
    assert_eq!(u.elapsed, "00:00:00");
    assert_eq!(u.path.unwrap(), "/home/x/set_1");
    assert_eq!(rec, Recording { active: true, ticker: Some(0) });
    assert_eq!(rec.tick().unwrap(), "00:00:01");
    assert_eq!(rec.tick().unwrap(), "00:00:02");
    let u = rec.handle_rec_line("HUB REC: stopped -> /home/x/set_1").unwrap();
    assert!(!u.active && !u.start_ticker);
    assert_eq!(u.elapsed, "00:00:00");
    assert!(u.path.is_none());
    assert_eq!(rec.tick(), None);
    assert_eq!(rec, Recording { active: false, ticker: None });
    let mut rec = Recording { active: false, ticker: Some(u64::MAX) };
    assert_eq!(rec.tick(), None);
    assert_eq!(rec.ticker, None);
}

#[test]
fn the_last_announcement_decides() {
    let mut rec = Recording::new();
    for line in ["HUB REC: stopped -> /a", "HUB REC: recording 18 stems -> /b", "late", "REC"] {
        rec.handle_rec_line(line);
    }
    assert!(rec.active);
    for line in ["HUB REC: stopped -> /b", "recording"] {
        rec.handle_rec_line(line);
    }
    assert!(!rec.active);
}

#[test]
fn one_ticker_counts_at_a_time() {
    let mut rec = Recording { active: true, ticker: Some(41) };
    let u = rec.handle_rec_line("HUB REC: recording").unwrap();
    assert!(!u.start_ticker);
    assert_eq!(rec.ticker, Some(41));
    assert_eq!(u.path.unwrap(), "HUB REC: recording");
}

#[test]
fn the_last_arrow_names_the_path() {
    let mut rec = Recording::new();
    let u = rec.handle_rec_line("HUB REC: recording -> a -> b").unwrap();
    assert_eq!(u.path.unwrap(), "b");
    let u = rec.handle_rec_line("HUB REC: recording ->   ").unwrap();
    assert!(u.path.is_none());
    let u = rec.handle_rec_line("HUB REC: recording, HUB REC: stopped -> c").unwrap();
    assert!(u.active);
}

#[test]
fn session_names_are_made_safe() {
    assert_eq!(rec_label("My set/\"2\"; \u{e9}-_"), "Myset2-_");
    assert_eq!(rec_label("set-1_a"), "set-1_a");
    assert_eq!(rec_label("\"/;\u{e9}"), "session");
    assert_eq!(rec_label(""), "session");
    assert_eq!(rec_start_code("a b"), "~hubRecStart.value(\"ab\");");
    for name in ["a\"b", "../x", "\\", "ok"] {
        let label = rec_label(name);
        assert!(!label.is_empty());
        assert!(label.chars().all(|c| c.is_ascii_alphanumeric() || c == '-' || c == '_'));
    }
}

#[test]
fn buttons_light_up() {
    let mut b = Button::new();
    assert_eq!(b.press(true), vec![Setter::Done(false), Setter::Working(true)]);
    assert_eq!((b.working, b.done), (true, false));
    assert_eq!(b.finish(true), vec![Setter::Working(false), Setter::Done(true)]);
    assert_eq!((b.working, b.done), (false, true));
    b.press(true);
    assert_eq!((b.working, b.done), (true, false));
    assert!(b.finish(false).is_empty());
    assert!(b.press(false).is_empty());
    assert_eq!((b.working, b.done), (true, false));
}

#[test]
fn rows_of_the_panel() {
    assert_eq!(row_index(0, 1), Some(0));
    assert_eq!(row_index(1, 1), None);
    assert_eq!(row_index(-1, 5), None);
    assert_eq!(row_index(0, 0), None);
}

#[test]
fn songs_repeat() {
    assert_eq!(song_index(0, 0), None);
    assert_eq!(song_index(2, 3), Some(2));
    assert_eq!(song_index(3, 3), Some(0));
    for row in [-1, -2, i32::MIN, i32::MAX, 0, 5] {
        assert_eq!(song_index(row, 7), (row as usize).checked_rem(7));
    }
}

#[test]
fn songs_are_titled() {
    assert_eq!(song_title("s4", true, "", 0, "0"), "s4: no .sections.json yet (run the bench)");
    assert_eq!(song_title("s4", false, "Song", 12, "301"), "Song \u{b7} 12 tracks \u{b7} 301s");
    assert_eq!(song_log("s4", 12, "301"), "[song] s4: 12 tracks, 301s");
}

#[test]
fn log_lines_of_the_panel() {
    assert_eq!(midi_reconnect_log("Keys", "20:0"), "[midi] reconnect Keys (20:0): not wired yet");
    assert_eq!(panic_log("orbits", "6110"), "[orbits] panic triggered: ending port 6110");
    let step = open_folder("/rec", true);
    assert_eq!((step.log.as_str(), step.open), ("[rec] opening /rec", true));
    let step = open_folder("/rec", false);
    assert_eq!((step.log.as_str(), step.open), ("[rec] nothing to open yet: /rec", false));
}

#[test]
fn session_rows_show_their_stems() {
    let sessions = vec![
        Session { name: "b".to_string(), path: PathBuf::from("/r/b"), stems: 18 },
        Session { name: "a".to_string(), path: PathBuf::from("/r/a"), stems: 0 },
    ];
    let list = session_rows(&sessions);
    let rows: Vec<(&str, &str)> =
        list.rows.iter().map(|r| (r.name.as_str(), r.info.as_str())).collect();
    assert_eq!(rows, vec![("b", "18 stems"), ("a", "0 stems")]);
    assert_eq!(list.paths, vec![PathBuf::from("/r/b"), PathBuf::from("/r/a")]);
}

#[test]
fn the_selected_folder_is_opened() {
    let paths = vec![PathBuf::from("/r/b"), PathBuf::from("/r/a")];
    let folder = |row: i32| selected_folder(row, &paths, PathBuf::from("/r"));
    assert_eq!(folder(1), PathBuf::from("/r/a"));
    assert_eq!(folder(-1), PathBuf::from("/r"));
    assert_eq!(folder(2), PathBuf::from("/r"));
}

#[test]
fn the_mute_grid() {
    let groups = mute_model();
    let names: Vec<&str> = groups.iter().map(|g| g.name).collect();
    assert_eq!(names, vec!["BEATS", "LEADS", "AMBIENTS"]);
    let labels: Vec<&str> =
        groups.iter().flat_map(|g| g.items.iter().map(|i| i.label.as_str())).collect();
    assert_eq!(
        labels,
        vec![
            "b1", "b2", "b3", "b4", "b5", "b6", "l1", "l2", "l3", "l4", "l5", "l6", "a1", "a2",
            "a3", "a4", "a5", "a6",
        ]
    );
    assert!(groups.iter().all(|g| g.items.iter().all(|i| !i.muted)));
}

#[test]
fn mutes_turn_and_turn_back() {
    let mut groups = mute_model();
    assert_eq!(
        orbit_mute(&mut groups, 1, 2).unwrap(),
        "[mutes] l3 muted=true (not wired yet)"
    );
    let muted: Vec<&str> = groups
        .iter()
        .flat_map(|g| g.items.iter().filter(|i| i.muted).map(|i| i.label.as_str()))
        .collect();
    assert_eq!(muted, vec!["l3"]);
    assert_eq!(
        orbit_mute(&mut groups, 1, 2).unwrap(),
        "[mutes] l3 muted=false (not wired yet)"
    );
    assert!(groups.iter().all(|g| g.items.iter().all(|i| !i.muted)));
    for (g, i) in [(-1, 0), (3, 0), (0, 6), (0, -1)] {
        assert!(orbit_mute(&mut groups, g, i).is_none());
    }
}
