use live_audio_control::number::{decimal_text, parse_u32};
use live_audio_control::order::is_text_less;
use live_audio_control::text::{
    behind_last, chars_of, has_text, split_first, split_lines, strip_space, text_of, word_first,
    word_last, CharClass,
};

const SAMPLES: [&str; 12] = [
    "",
    " ",
    "a",
    " a b ",
    "\t\u{a0}x\u{3000}y\u{2003}",
    "one\ntwo\r\nthree\r",
    "\n\n",
    "\r\n",
    "x\r\r\ny",
    "-> a -> b -> ",
    "caf\u{e9} \u{1f3b5}",
    "trailing\n",
];

#[test]
fn white_space_is_unicodes() {
    for u in 0..=0x10ffff_u32 {
        if let Some(c) = char::from_u32(u) {
            assert_eq!(CharClass::WhiteSpace.contains(c), c.is_whitespace(), "U+{u:04X}");
        }
    }
}

#[test]
fn trimming_agrees_with_std() {
    for s in SAMPLES {
        assert_eq!(text_of(strip_space(&chars_of(s))), s.trim(), "{s:?}");
    }
}

#[test]
fn lines_agree_with_std() {
    for s in SAMPLES {
        let chars = chars_of(s);
        let got: Vec<String> = split_lines(&chars).into_iter().map(text_of).collect();
        let want: Vec<String> = s.lines().map(|l| l.to_string()).collect();
        assert_eq!(got, want, "{s:?}");
    }
}

#[test]
fn words_agree_with_std() {
    for s in SAMPLES {
        let chars = chars_of(s);
        assert_eq!(
            word_first(&chars).map(text_of),
            s.split_whitespace().next().map(|w| w.to_string()),
            "{s:?}"
        );
        assert_eq!(
            word_last(&chars).map(text_of),
            s.split_whitespace().last().map(|w| w.to_string()),
            "{s:?}"
        );
    }
}

#[test]
fn searching_agrees_with_std() {
    for s in SAMPLES {
        for pat in ["-> ", "a", "", "two", "\n", "b -> "] {
            let (sc, pc) = (chars_of(s), chars_of(pat));
            assert_eq!(has_text(&sc, &pc), s.contains(pat), "{s:?} {pat:?}");
        }
        assert_eq!(
            text_of(behind_last(&chars_of(s), &chars_of("-> "))),
            s.rsplit("-> ").next().unwrap(),
            "{s:?}"
        );
        let chars = chars_of(s);
        let (head, tail) = split_first(&chars, CharClass::WhiteSpace);
        assert_eq!(
            (text_of(head).as_str(), text_of(tail).as_str()),
            s.split_once(char::is_whitespace).unwrap_or((s, "")),
            "{s:?}"
        );
    }
}

#[test]
fn order_agrees_with_std() {
    for a in SAMPLES {
        for b in SAMPLES {
            assert_eq!(is_text_less(&chars_of(a), &chars_of(b)), a < b, "{a:?} {b:?}");
        }
    }
}

#[test]
fn numerals_are_written_and_read() {
    for n in [0, 7, 10, 99, 100, 512, 4294967295_u64, 4294967296, u64::MAX] {
        assert_eq!(decimal_text(n), n.to_string());
    }
    for s in [
        "0", "7", "+7", "007", "4294967295", "4294967296", "99999999999", "", "+", "-", "-0", "++1",
        "1_0", " 1", "1 ", "\u{661}", "0x10", "00000000000000000001",
    ] {
        assert_eq!(parse_u32(&chars_of(s)), s.parse::<u32>().ok(), "{s:?}");
    }
    for n in [0, 1, 32, 2048, u32::MAX] {
        assert_eq!(parse_u32(&chars_of(&decimal_text(n as u64))), Some(n));
    }
}

#[test]
fn a_common_start_does_not_count() {
    assert!(is_text_less(&chars_of("set_240101"), &chars_of("set_240201")));
    assert!(is_text_less(&chars_of("240101"), &chars_of("240201")));
}
