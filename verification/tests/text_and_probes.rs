use tg_unblock::bypass::{entry_step, outcome_with_text, EntryStep};
use tg_unblock::diagnostics::{
    adapter_from_output, adapter_from_text, benchmark_https_urls, benchmark_in_range, benchmark_tcp_targets,
    dns_from_text, is_whitespace, line_time, ping_outcome_text, split_lines, trim_chars, trim_with,
    TCP_ROUNDS,
};
use tg_unblock::text::{chars_of, contains_chars, index_of, leading_u64, same_text, string_from_chars};

fn chars(s: &str) -> Vec<char> {
    s.chars().collect()
}

#[test]
fn chars_and_strings_round_trip() {
    assert_eq!(chars_of("время"), chars("время"));
    assert_eq!(string_from_chars(&chars("мс ms")), "мс ms");
}

#[test]
fn index_of_finds_the_first_occurrence() {
    assert_eq!(index_of(&chars("a=b=c"), &chars("=")), Some(1));
    assert_eq!(index_of(&chars("time<1 time=2"), &chars("time=")), Some(7));
    assert_eq!(index_of(&chars("abc"), &chars("abcd")), None);
    assert_eq!(index_of(&chars("abc"), &chars("")), Some(0));
    assert!(contains_chars(&chars("12мс"), &chars("мс")));
    assert!(!contains_chars(&chars("12ms"), &chars("мс")));
}

#[test]
fn leading_u64_reads_digit_runs() {
    assert_eq!(leading_u64(&chars("x46ms"), 1), Some(46));
    assert_eq!(leading_u64(&chars("ms"), 0), None);
    assert_eq!(leading_u64(&chars("18446744073709551615"), 0), Some(u64::MAX));
    assert_eq!(leading_u64(&chars("18446744073709551616"), 0), None);
    assert_eq!(leading_u64(&chars("007"), 0), Some(7));
    assert_eq!(leading_u64(&chars("12"), 2), None);
}

#[test]
fn lines_split_like_str_lines() {
    let l = split_lines(&chars("a\r\nb\n\nc\rd"));
    assert_eq!(l, vec![chars("a"), chars("b"), chars(""), chars("c\rd")]);
    assert_eq!(split_lines(&chars("")), Vec::<Vec<char>>::new());
    assert_eq!(split_lines(&chars("\n")), vec![chars("")]);
    assert_eq!(split_lines(&chars("x\n")), vec![chars("x")]);
    assert_eq!(split_lines(&chars("x\r")), vec![chars("x\r")]);
}

#[test]
fn trimming_white_space() {
    assert_eq!(trim_chars(&chars("\u{3000} a b\t\n")), chars("a b"));
    assert_eq!(trim_chars(&chars("  ")), chars(""));
    assert_eq!(trim_with(&chars("xaxx"), &[true, false, true, true]), chars("a"));
    assert_eq!(trim_with(&chars("xax"), &[false, false, true]), chars("xa"));
    assert_eq!(trim_with(&chars("xx"), &[true, true]), chars(""));
}

#[test]
fn white_space_characters() {
    for c in ['\t', '\n', '\u{0B}', '\u{0C}', '\r', ' ', '\u{85}', '\u{A0}', '\u{1680}', '\u{2000}', '\u{200A}', '\u{2028}', '\u{2029}', '\u{202F}', '\u{205F}', '\u{3000}'] {
        assert!(is_whitespace(c));
    }
    for c in ['a', '\u{08}', '\u{0E}', '\u{200B}', '\u{FEFF}', '\u{180E}', 'ж'] {
        assert!(!is_whitespace(c));
    }
}

#[test]
fn directory_entries_in_a_search() {
    assert_eq!(entry_step(true, false, Some("goodbyedpi.exe"), "goodbyedpi.exe"), EntryStep::Keep);
    assert_eq!(entry_step(true, false, Some("readme.txt"), "goodbyedpi.exe"), EntryStep::Skip);
    assert_eq!(entry_step(false, true, Some("x86_64"), "goodbyedpi.exe"), EntryStep::Descend);
    assert_eq!(entry_step(false, true, Some("goodbyedpi.exe"), "goodbyedpi.exe"), EntryStep::Descend);
    assert_eq!(entry_step(true, false, None, "goodbyedpi.exe"), EntryStep::Skip);
    assert!(same_text("мс", "мс"));
    assert!(!same_text("ms", "ms "));
    assert!(!same_text("ab", "ac"));
}

#[test]
fn outputs_read_as_text() {
    assert_eq!(adapter_from_text("\tWi-Fi \r\n"), Some("Wi-Fi".to_string()));
    assert_eq!(adapter_from_text(""), None);
    assert_eq!(adapter_from_output(b"\xffab"), Some("\u{FFFD}ab".to_string()));
    assert_eq!(dns_from_text(" 1.1.1.1\r\n8.8.4.4 "), Some("1.1.1.1, 8.8.4.4".to_string()));
    assert_eq!(dns_from_text("   "), Some("Не определено".to_string()));
}

#[test]
fn ping_line_and_text() {
    assert_eq!(line_time(&chars("reply: time=7ms ttl=1")), Some(7));
    assert_eq!(line_time(&chars("a=12 ms")), Some(12));
    assert_eq!(line_time(&chars("a=12")), None);
    assert_eq!(ping_outcome_text(true, "x TTL=3\ny time=8ms", 50), (true, Some(8)));
    assert_eq!(ping_outcome_text(true, "nothing", 50), (false, None));
}

#[test]
fn command_failures_carry_their_stderr() {
    assert_eq!(outcome_with_text(false, "P: ", "why"), Err("P: why".to_string()));
    assert_eq!(outcome_with_text(true, "P: ", "why"), Ok(()));
}

#[test]
fn benchmark_probes_and_range() {
    let t = benchmark_tcp_targets();
    assert_eq!(t.len(), 4);
    assert_eq!(t[0], ("149.154.167.51".to_string(), 443));
    assert_eq!(t[3], ("91.108.56.100".to_string(), 443));
    assert_eq!(benchmark_https_urls(), vec!["https://web.telegram.org", "https://t.me"]);
    assert_eq!(TCP_ROUNDS, 2);
    assert!(benchmark_in_range(&[(true, Some(5))], &[(false, None)]));
    assert!(!benchmark_in_range(&[(true, Some(u64::MAX)), (true, Some(1))], &[]));
    assert!(!benchmark_in_range(&[], &[(true, Some(u64::MAX / 2))]));
    assert!(!benchmark_in_range(&[(false, None); 3], &[(true, Some(u64::MAX - 1000))]));
    assert!(benchmark_in_range(&[(false, None); 3], &[(true, Some(u64::MAX / 3))]));
}
