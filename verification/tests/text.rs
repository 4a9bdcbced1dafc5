use screenguard::clock::TimeOfDay;
use screenguard::text::{
    begins, chars_of, decimal_of, has_char, has_end, is_white_space, join, limited, lowercase, same,
    split_at, string_of, trimmed_end_char, trimmed_end_text, trimmed_str, u32_of, with_removed, with_replaced,
    with_replaced_all,
};

const SAMPLES: [&str; 12] = [
    "",
    " ",
    "a",
    "  A b\t\n",
    "\u{a0}x\u{3000}",
    "wss://host/ws/ws",
    "wws://",
    "a,b,,c,",
    "...",
    "Dot.Com..",
    "na\u{ef}ve \u{1f600}",
    "ABCxyz-09",
];

#[test]
fn white_space_is_unicode_white_space() {
    for code in 0..=0x10ffffu32 {
        if let Some(c) = char::from_u32(code) {
            assert_eq!(is_white_space(c), c.is_whitespace(), "{code:x}");
        }
    }
}

#[test]
fn texts_are_handled_as_std_does() {
    for s in SAMPLES {
        assert_eq!(string_of(&chars_of(s)), s);
        assert_eq!(trimmed_str(s), s.trim());
        assert_eq!(lowercase(s), s.to_ascii_lowercase());
        assert_eq!(string_of(&with_replaced(&chars_of(s), '-', ':')), s.replace('-', ":"));
        assert_eq!(string_of(&with_removed(&chars_of(s), 'a')), s.replace('a', ""));
        assert_eq!(string_of(&trimmed_end_char(&chars_of(s), '.')), s.trim_end_matches('.'));
        assert_eq!(
            string_of(&trimmed_end_text(&chars_of(s), &chars_of("/ws"))),
            s.trim_end_matches("/ws")
        );
        assert_eq!(
            string_of(&with_replaced_all(&chars_of(s), &chars_of("ws://"), &chars_of("http://"))),
            s.replace("ws://", "http://")
        );
        let parts: Vec<String> = split_at(&chars_of(s), ',').iter().map(string_of).collect();
        let expected: Vec<String> = s.split(',').map(|p| p.to_string()).collect();
        assert_eq!(parts, expected);
        assert_eq!(limited(s, 3), s.chars().take(3).collect::<String>());
        for t in SAMPLES {
            assert_eq!(same(s, t), s == t);
            assert_eq!(begins(s, t), s.starts_with(t));
            assert_eq!(has_end(&chars_of(s), &chars_of(t)), s.ends_with(t));
            assert_eq!(join(s, t), format!("{s}{t}"));
        }
        assert_eq!(has_char(s, 'b'), s.contains('b'));
    }
}

#[test]
fn numbers_are_handled_as_std_does() {
    for n in [0, 7, 10, 99, 100, 12345, u64::MAX] {
        assert_eq!(decimal_of(n), n.to_string());
    }
    for s in ["", "+", "-", "0", "+0", "007", "4294967295", "4294967296", "99999999999", "1a", "++1", "\u{661}"] {
        assert_eq!(u32_of(&chars_of(s)), s.parse::<u32>().ok(), "{s}");
    }
}

#[test]
fn seconds_between_times_as_chrono_has_them() {
    let times: Vec<(u32, u32)> = vec![
        (0, 0),
        (0, 999_999_999),
        (59, 0),
        (59, 500_000_000),
        (59, 1_000_000_000),
        (59, 1_999_999_999),
        (60, 0),
        (60, 1),
        (3600, 999_999_999),
        (86_399, 0),
        (86_399, 1_500_000_000),
    ];
    for a in &times {
        for b in &times {
            let x = TimeOfDay { secs: a.0, nanos: a.1 };
            let y = TimeOfDay { secs: b.0, nanos: b.1 };
            let p = chrono::NaiveTime::from_num_seconds_from_midnight_opt(a.0, a.1).unwrap();
            let q = chrono::NaiveTime::from_num_seconds_from_midnight_opt(b.0, b.1).unwrap();
            assert_eq!(x.up_to(&y), p <= q);
            if p <= q {
                assert_eq!(x.until(&y), (q - p).num_seconds(), "{a:?} {b:?}");
            }
        }
    }
}
