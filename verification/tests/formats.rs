//! Numbers, times and texts as they are shown.

use overseer::digits::{
    bound, dec_string, int_string, is_digits, push_dec2, push_hex, read_digits, read_nanos,
    read_signed, read_unsigned, TIME_LIMIT,
};
use overseer::format::{
    fmt_age, fmt_bytes, fmt_clock, fmt_dur, fmt_dur_short, fmt_rel, fmt_tokens, quotient_tenths,
    round_quotient, to_double, SECOND,
};
use overseer::panel::{Hue, Ink};
use overseer::status::{fmt_rate_short, footer, Chip, Readings, FULL, UNIT};
use overseer::text::{
    contains, find, is_before, is_blank, is_control, is_space, join_strings, lines, repeat, rfind,
    same_str, split, trim, trim_str, words,
};
use unicode_width::{UnicodeWidthChar, UnicodeWidthStr};
use overseer::width::{align_right, fit_members, fit_width, pad_width, truncate, wrap_text};

fn chars(s: &str) -> Vec<char> {
    s.chars().collect()
}

fn strings(list: Vec<&[char]>) -> Vec<String> {
    list.into_iter().map(|s| s.iter().collect()).collect()
}

/// Numbers around every boundary of the units, and many between them.
fn samples() -> Vec<u64> {
    let mut v: Vec<u64> = vec![0, 1, 999, 1000, 1049, 1050, 1051, u64::MAX, u64::MAX - 1];
    for unit in [1_000u64, 1_000_000, 1_000_000_000, 1 << 20, 1 << 30] {
        for k in [1u64, 2, 3, 9, 10, 99, 1023] {
            for d in [0u64, 1, unit / 20, unit / 20 + 1, unit / 2, unit - 1] {
                v.push(unit * k + d);
                v.push((unit * k).saturating_sub(d));
            }
        }
    }
    let mut x: u64 = 1;
    for _ in 0..400 {
        x = x.wrapping_mul(6364136223846793005).wrapping_add(1442695040888963407);
        v.push(x);
        v.push(x >> 20);
        v.push(x >> 34);
        v.push(x >> 44);
    }
    v
}

#[test]
fn bytes_agree_with_doubles() {
    for b in samples() {
        let gb = b as f64 / 1_073_741_824.0;
        let want =
            if gb >= 1.0 { format!("{gb:.1}G") } else { format!("{:.0}M", b as f64 / 1_048_576.0) };
        assert_eq!(fmt_bytes(b), want, "{}", b);
    }
    assert_eq!(fmt_bytes(1_610_612_736), "1.5G");
    assert_eq!(fmt_bytes(524_288), "0M");
    assert_eq!(fmt_bytes(1_572_864), "2M");
}

#[test]
fn tokens_agree_with_doubles() {
    for t in samples() {
        let want = if t >= 1_000_000_000 {
            format!("{:.1}B", t as f64 / 1e9)
        } else if t >= 1_000_000 {
            format!("{:.1}M", t as f64 / 1e6)
        } else if t >= 1_000 {
            format!("{:.1}K", t as f64 / 1e3)
        } else {
            format!("{t}")
        };
        assert_eq!(fmt_tokens(t), want, "{}", t);
    }
    assert_eq!(fmt_tokens(999), "999");
    assert_eq!(fmt_tokens(1_250), "1.2K");
    assert_eq!(fmt_tokens(999_999), "1000.0K");
}

#[test]
fn doubles_are_rounded_to_even() {
    for n in samples() {
        assert_eq!(to_double(n), (n as f64) as u128, "{}", n);
    }
    assert_eq!(round_quotient(5, 2), 2);
    assert_eq!(round_quotient(7, 2), 4);
    assert_eq!(round_quotient(8, 3), 3);
    assert_eq!(quotient_tenths(1_250, 1_000), 12);
}

#[test]
fn clocks_have_minutes_and_seconds() {
    assert_eq!(fmt_clock(0), "0:00");
    assert_eq!(fmt_clock(61_999_999_999), "1:01");
    assert_eq!(fmt_clock(-5), "0:00");
    assert_eq!(fmt_clock(3_600_000_000_000), "60:00");
}

#[test]
fn durations_are_long_and_short() {
    assert_eq!(fmt_dur(59), "0m");
    assert_eq!(fmt_dur(3_661), "1h 1m");
    assert_eq!(fmt_dur(90_061), "1d 1h 1m");
    assert_eq!(fmt_dur_short(12), "12s");
    assert_eq!(fmt_dur_short(540), "9m");
    assert_eq!(fmt_dur_short(7_860), "2h11m");
    assert_eq!(fmt_dur_short(4 * 86_400 + 6 * 3_600), "4d6h");
}

#[test]
fn message_times_are_relative() {
    let secs = |n: i64| n * SECOND as i64;
    assert_eq!(fmt_rel(0), "now");
    assert_eq!(fmt_rel(secs(-10)), "now");
    assert_eq!(fmt_rel(secs(45) - 1), "now");
    assert_eq!(fmt_rel(secs(45)), "1m");
    assert_eq!(fmt_rel(secs(3_599)), "59m");
    assert_eq!(fmt_rel(secs(3_600)), "1h");
    assert_eq!(fmt_rel(secs(86_400)), "yesterday");
    assert_eq!(fmt_rel(secs(172_800)), "2d");
}

#[test]
fn ages_are_seconds_then_minutes() {
    assert_eq!(fmt_age(SECOND - 1), "now");
    assert_eq!(fmt_age(SECOND), "1s");
    assert_eq!(fmt_age(60 * SECOND - 1), "59s");
    assert_eq!(fmt_age(150 * SECOND), "2m");
}

#[test]
fn numbers_are_written_and_read() {
    assert_eq!(dec_string(0), "0");
    assert_eq!(dec_string(u64::MAX), "18446744073709551615");
    assert_eq!(int_string(i64::MIN), "-9223372036854775808");
    let mut s = String::new();
    push_dec2(&mut s, 7);
    push_dec2(&mut s, 123);
    push_hex(&mut s, 0xAB, 4);
    assert_eq!(s, "0712300ab");
    assert_eq!(read_digits(&chars("0042"), 100), Some(42));
    assert_eq!(read_digits(&chars("101"), 100), None);
    assert_eq!(read_digits(&chars(""), 100), None);
    assert_eq!(read_unsigned(&chars("+5"), 100), Some(5));
    assert_eq!(read_unsigned(&chars("-5"), 100), None);
    assert_eq!(read_signed(&chars("-5"), 100), Some(-5));
    assert_eq!(read_signed(&chars("5x"), 100), None);
    assert!(is_digits(&chars("123")) && !is_digits(&chars("12a")));
}

#[test]
fn seconds_are_read_as_nanoseconds() {
    for (s, want) in [
        ("1.5", Some(1_500_000_000i64)),
        (".5", Some(500_000_000)),
        ("5.", Some(5_000_000_000)),
        ("-0.25", Some(-250_000_000)),
        ("+2", Some(2_000_000_000)),
        ("1e3", Some(1_000_000_000_000)),
        ("25E-1", Some(2_500_000_000)),
        ("", None),
        (".", None),
        ("1.2.3", None),
        ("1e", None),
        ("x", None),
    ] {
        assert_eq!(read_nanos(&chars(s)), want, "{}", s);
    }
    assert_eq!(bound(i128::MAX), TIME_LIMIT as i64);
    assert_eq!(bound(-5), -5);
    assert_eq!(read_nanos(&chars("1e30")), Some(TIME_LIMIT as i64));
}

#[test]
fn spaces_and_controls_are_those_of_unicode() {
    for c in ['\u{0}', '\t', '\u{b}', ' ', '\u{85}', '\u{a0}', '\u{1680}', '\u{2003}', '\u{3000}', 'a', '\u{200b}', '\u{9f}'] {
        assert_eq!(is_space(c), c.is_whitespace(), "{:?}", c);
        assert_eq!(is_control(c), c.is_control(), "{:?}", c);
    }
}

#[test]
fn texts_are_cut_as_the_standard_library_cuts_them() {
    for s in ["", "a\r\nb\n", "\n\n", " x  y\t", "a\rb", "one", "ä ö\u{2003}ü"] {
        let v = chars(s);
        assert_eq!(strings(lines(&v)), s.lines().map(|l| l.to_string()).collect::<Vec<_>>(), "{:?}", s);
        assert_eq!(strings(words(&v)), s.split_whitespace().map(|l| l.to_string()).collect::<Vec<_>>());
        assert_eq!(strings(split(&v, ' ')), s.split(' ').map(|l| l.to_string()).collect::<Vec<_>>());
        assert_eq!(trim_str(s), s.trim());
        assert_eq!(trim(&v).iter().collect::<String>(), s.trim());
        assert_eq!(is_blank(&v), s.trim().is_empty());
    }
}

#[test]
fn texts_are_searched_and_ordered() {
    assert_eq!(find(&chars("abcabc"), &chars("ca")), Some(2));
    assert_eq!(rfind(&chars("abcabc"), &chars("bc")), Some(4));
    assert_eq!(find(&chars("abc"), &chars("x")), None);
    assert!(contains("hello", "") && contains("hello", "ell") && !contains("hello", "elo"));
    assert!(same_str("é", "é") && !same_str("a", "ab"));
    assert!(is_before("a", "b") && is_before("a", "ab") && !is_before("b", "a") && !is_before("a", "a"));
    assert_eq!(repeat('─', 3), "───");
    assert_eq!(join_strings(&vec!["a".to_string(), "b".to_string(), "c".to_string()], 2, ", "), "a, b");
}

#[test]
fn wide_characters_take_two_cells() {
    assert_eq!(fit_width("你好世界", 8), "你好世界");
    assert_eq!(fit_width("你好世界", 7), "你好世…");
    assert_eq!(fit_width("你好世界", 6), "你好…");
    assert_eq!(fit_width("abcdef", 4), "abc…");
    assert_eq!(fit_width("ab", 0), "");
    assert_eq!(pad_width("你", 5), "你   ");
    assert_eq!(pad_width("abcdef", 4), "abc…");
    assert_eq!(truncate("你好世界", 3), "你好…");
    assert_eq!(truncate("abc", 3), "abc");
    assert_eq!(truncate("abc", 0), "…");
    assert_eq!(align_right("7", 4), "   7");
    assert_eq!(align_right("12345", 4), "12345");
}

#[test]
fn members_that_do_not_fit_are_counted() {
    let m: Vec<String> = ["ann", "bob", "cyd"].iter().map(|s| s.to_string()).collect();
    assert_eq!(fit_members(&m, 13), "ann, bob, cyd");
    assert_eq!(fit_members(&m, 12), "ann, bob +1");
    assert_eq!(fit_members(&m, 6), "ann +2");
    assert_eq!(fit_members(&m, 4), "ann…");
    assert_eq!(fit_members(&vec![], 4), "");
}

#[test]
fn text_is_wrapped_at_words() {
    assert_eq!(wrap_text("the quick brown fox", 9), vec!["the quick", "brown fox"]);
    assert_eq!(wrap_text("abcdefghij kl", 4), vec!["abcd", "efgh", "ij", "kl"]);
    assert_eq!(wrap_text("abcdefghi k", 4), vec!["abcd", "efgh", "i k"]);
    assert!(wrap_text("   ", 4).is_empty());
    assert_eq!(wrap_text("ab", 0), vec!["a", "b"]);
}

#[test]
fn wrapping_keeps_every_word_within_the_width() {
    let text = "a bb ccc dddd eeeee ffffff ggggggg";
    for width in 1..12 {
        let rows = wrap_text(text, width);
        assert!(rows.iter().all(|r| r.chars().count() <= width));
        let letters: String = rows.concat().split_whitespace().collect();
        assert_eq!(letters, text.split_whitespace().collect::<String>());
    }
}

#[test]
fn short_rates() {
    assert_eq!(fmt_rate_short(2_400_000, SECOND), "2.3M");
    assert_eq!(fmt_rate_short(1_048_576, SECOND), "1.0M");
    assert_eq!(fmt_rate_short(1_048_575, SECOND), "1024K");
    assert_eq!(fmt_rate_short(180_000, SECOND), "176K");
    assert_eq!(fmt_rate_short(1024, SECOND), "1K");
    assert_eq!(fmt_rate_short(1023, SECOND), "1023B");
    assert_eq!(fmt_rate_short(1, 2 * SECOND), "0B");
    assert_eq!(fmt_rate_short(3, 2 * SECOND), "2B");
    assert_eq!(fmt_rate_short(2048, SECOND / 2), "4K");
}

#[test]
fn the_status_bar() {
    let mut m = Readings {
        chip: None,
        cpu: 37 * UNIT as i64,
        load: 2_310_000_000,
        cores: 14,
        mem_used: 26_190_610_432,
        mem_total: 38_654_705_664,
        received: 2_400_000,
        sent: 180_000,
        over: SECOND,
        uptime: 367_200,
        processes: 612,
    };
    let text = |m: &Readings, cost: Option<u128>| -> String {
        footer(m, "tokens", cost).iter().map(|p| p.text.as_str()).collect()
    };
    assert_eq!(
        text(&m, None),
        format!(
            " q  quit  │  CPU  37%  │  MEM  68%  │  NET ▼ 2.3M ▲ 176K  │  ↑ {:>9}  │  612 procs",
            fmt_dur(367_200),
        ),
    );
    assert!(text(&m, Some(410_000_000)).contains("  │  tokens today $ 4.10  │  "));
    m.chip = Some(Chip {
        cpu: 12_500_000_000,
        gpu: 31 * UNIT as i64,
        power: 18_450_000_000,
        temp: 81 * UNIT as i64,
    });
    assert!(text(&m, None).contains("CPU  12%  │  GPU  31%  │  PWR  18.4W  │  TEMP  81°  │  MEM"));
    let line = footer(&m, "tokens", None);
    let ink = |s: &str| line.iter().find(|p| p.text.contains(s)).unwrap().ink;
    assert_eq!(ink("81°"), Ink::Flat(Hue::Red));
    assert!(matches!(ink("31%"), Ink::Jazz(s) if s.den == FULL && s.num == 31 * UNIT));
    assert!(matches!(ink("12%"), Ink::Jazz(_)));
    m.load = 14_000_000_001;
    assert_eq!(footer(&m, "tokens", None)[4].ink, Ink::Flat(Hue::Red));
    m.mem_total = 0;
    assert!(text(&m, None).contains("MEM   0%"));
}

#[test]
fn short_durations_are_capped() {
    let days = |d: u64, h: u64| fmt_dur_short(d * 86_400 + h * 3_600);
    assert_eq!(days(4, 6), "4d6h");
    assert_eq!(days(99, 23), "99d23h");
    assert_eq!(days(100, 9), "100d9h");
    assert_eq!(days(100, 10), "100d");
    assert_eq!(fmt_dur_short(8_676_000), "100d");
    assert_eq!(days(1000, 1), "1000d");
    assert_eq!(days(99_999, 1), "99999d");
    assert_eq!(fmt_dur_short(u64::MAX), "99999d");
    assert_eq!((fmt_dur_short(7_860), fmt_dur_short(540)), ("2h11m".to_string(), "9m".to_string()));
    for secs in (0..40_000_000u64).step_by(7_919) {
        assert!(fmt_dur_short(secs).chars().count() <= 6);
    }
}

#[test]
fn padded_text_takes_its_width() {
    for s in ["", "a", "abcdef", "日本語", "a日b", "naïve…"] {
        for w in 0usize..9 {
            let p = pad_width(s, w);
            assert_eq!(p.width(), w, "{:?} {}", s, w);
            if s.width() <= w {
                assert_eq!(p, format!("{}{}", s, " ".repeat(w - s.width())));
            }
        }
    }
    assert_eq!(fit_width("abc", 0), "");
    assert_eq!(fit_width("", 0), "");
    assert_eq!(fit_width("abc", 1), "…");
    assert_eq!('…'.width(), Some(1));
}
