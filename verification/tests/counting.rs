use zhwc::config::{Config, IgnoreSet};
use zhwc::counter::{
    count_all, count_chinese_only, count_with_ignore, count_words, is_chinese, is_cjk, Totals,
};

#[test]
fn scenario_plain_english() {
    let stats = count_all("hello world");
    assert_eq!(stats.lines, 1);
    assert_eq!(stats.words, 2);
    assert_eq!(stats.bytes, 11);
}

#[test]
fn scenario_cjk_comma_separated() {
    let stats = count_all("你好,世界");
    assert_eq!(stats.words, 4);
    assert_eq!(stats.lines, 1);
    assert_eq!(stats.bytes, 13);
}

#[test]
fn scenario_apostrophe_and_hyphen() {
    let stats = count_all("don't stop-go");
    assert_eq!(stats.words, 2);
}

#[test]
fn scenario_ignored_letter_splits_run() {
    let mut ignore = IgnoreSet::new();
    ignore.insert('e');
    let stats = count_with_ignore("hello", &ignore);
    assert_eq!(stats.words, 2);
}

#[test]
fn scenario_cjk_only_mode() {
    let stats = count_chinese_only("abc你好123");
    assert_eq!(stats.words, 2);
    assert_eq!(stats.lines, 1);
    assert_eq!(stats.bytes, 12);
}

#[test]
fn scenario_totals_sum_two_files() {
    let a = count_all("hello world\n");
    let b = count_all("你好,世界");
    let mut totals = Totals::new();
    totals.add(&a);
    totals.add(&b);
    assert_eq!(totals.lines, a.lines + b.lines);
    assert_eq!(totals.words, a.words + b.words);
    assert_eq!(totals.bytes, a.bytes + b.bytes);
    assert_eq!(totals.files, 2);
}

#[test]
fn words_at_most_character_count() {
    let empty = IgnoreSet::new();
    for content in ["", "a", "hello world", "你好世界", "a-b c'd 你 1 2 3!!!"] {
        let n = count_words(content, &empty);
        assert!(n <= content.chars().count());
    }
}

#[test]
fn whitespace_and_punctuation_only_counts_zero() {
    let empty = IgnoreSet::new();
    assert_eq!(count_words("", &empty), 0);
    assert_eq!(count_words("   \t\n", &empty), 0);
    assert_eq!(count_words(",.;!?(){}[]", &empty), 0);
    assert_eq!(count_words(" ,. !? \t", &empty), 0);
}

#[test]
fn cjk_separated_by_spaces_counts_each() {
    let empty = IgnoreSet::new();
    assert_eq!(count_words("你 好 世", &empty), 3);
    assert_eq!(count_words("你", &empty), 1);
}

#[test]
fn adjacent_cjk_count_individually() {
    let empty = IgnoreSet::new();
    assert_eq!(count_words("你好世界", &empty), 4);
    assert_eq!(count_words("abc你def", &empty), 3);
}

#[test]
fn scanner_is_pure() {
    let mut ignore = IgnoreSet::new();
    ignore.insert('o');
    let first = count_words("hello world 你好", &ignore);
    let second = count_words("hello world 你好", &ignore);
    assert_eq!(first, second);
}

#[test]
fn ignored_char_never_counts_whatever_its_category() {
    // An ignored word character splits a run instead of continuing it.
    let mut ignore_x = IgnoreSet::new();
    ignore_x.insert('x');
    assert_eq!(count_words("axb", &ignore_x), 2);
    assert_eq!(count_words("axb", &IgnoreSet::new()), 1);
    // An ignored CJK character is not counted as a word.
    let mut ignore_cjk = IgnoreSet::new();
    ignore_cjk.insert('你');
    assert_eq!(count_words("你好", &ignore_cjk), 1);
    // An ignored space still closes the run, like the whitespace it was.
    let mut ignore_space = IgnoreSet::new();
    ignore_space.insert(' ');
    assert_eq!(count_words("a b", &ignore_space), 2);
}

#[test]
fn line_counting_conventions() {
    let empty = IgnoreSet::new();
    assert_eq!(count_with_ignore("", &empty).lines, 0);
    assert_eq!(count_all("a").lines, 1);
    assert_eq!(count_all("a\n").lines, 1);
    assert_eq!(count_all("a\nb").lines, 2);
    assert_eq!(count_all("\n\n").lines, 2);
    assert_eq!(count_all("a\r\nb").lines, 2);
}

#[test]
fn bytes_count_encoded_length() {
    assert_eq!(count_all("你").bytes, 3);
    assert_eq!(count_all("").bytes, 0);
    assert_eq!(count_chinese_only("a你\u{20000}").bytes, 8);
}

#[test]
fn cjk_range_boundaries() {
    assert!(is_cjk('\u{4E00}'));
    assert!(is_cjk('\u{9FFF}'));
    assert!(is_cjk('\u{3400}'));
    assert!(is_cjk('\u{4DBF}'));
    assert!(is_cjk('\u{F900}'));
    assert!(is_cjk('\u{FAFF}'));
    assert!(is_cjk('\u{20000}'));
    assert!(is_cjk('\u{2FA1F}'));
    assert!(!is_cjk('\u{A000}'));
    assert!(!is_cjk('a'));
    assert!(!is_cjk('あ'));
    assert!(!is_cjk('。'));
    assert!(is_chinese('中'));
    assert!(!is_chinese('9'));
}

#[test]
fn word_runs_with_digits_and_hyphens() {
    let empty = IgnoreSet::new();
    assert_eq!(count_words("abc123", &empty), 1);
    assert_eq!(count_words("-x-", &empty), 1);
    assert_eq!(count_words("one,two", &empty), 2);
    assert_eq!(count_words("a b", &empty), 2);
    assert_eq!(count_words("ab", &empty), 1);
}

#[test]
fn ignore_set_membership() {
    let mut ignore = IgnoreSet::new();
    assert!(!ignore.contains('a'));
    ignore.insert('a');
    ignore.insert('a');
    assert!(ignore.contains('a'));
    assert!(!ignore.contains('b'));
}

#[test]
fn config_from_empty_text() {
    let cfg = Config::from_text("");
    assert!(!cfg.ignore_chars.contains('a'));
    let empty = Config::empty();
    assert!(!empty.ignore_chars.contains('#'));
}

#[test]
fn config_skips_comments_and_blank_lines() {
    let cfg = Config::from_text("abc\n#comment\n\n e f\n");
    assert!(cfg.ignore_chars.contains('a'));
    assert!(cfg.ignore_chars.contains('b'));
    assert!(cfg.ignore_chars.contains('c'));
    assert!(cfg.ignore_chars.contains('e'));
    assert!(cfg.ignore_chars.contains('f'));
    // The space between `e` and `f` sits inside a kept line.
    assert!(cfg.ignore_chars.contains(' '));
    // The comment line contributes nothing.
    assert!(!cfg.ignore_chars.contains('m'));
    assert!(!cfg.ignore_chars.contains('#'));
}

#[test]
fn config_trims_each_line() {
    let cfg = Config::from_text("  xy\t\n");
    assert!(cfg.ignore_chars.contains('x'));
    assert!(cfg.ignore_chars.contains('y'));
    assert!(!cfg.ignore_chars.contains(' '));
    assert!(!cfg.ignore_chars.contains('\t'));
}

#[test]
fn config_feeds_the_scanner() {
    let cfg = Config::from_text("e\n");
    let stats = count_with_ignore("hello", &cfg.ignore_chars);
    assert_eq!(stats.words, 2);
}

#[test]
fn cjk_only_mode_never_consults_ignore_set() {
    // The same content, with a configuration that would ignore a CJK
    // character, still counts every CJK character.
    let stats = count_chinese_only("abc你好123");
    assert_eq!(stats.words, 2);
    let cfg = Config::from_text("你\n");
    assert!(cfg.ignore_chars.contains('你'));
    let again = count_chinese_only("abc你好123");
    assert_eq!(again.words, 2);
}

#[test]
fn totals_start_at_zero() {
    let totals = Totals::new();
    assert_eq!(totals.lines, 0);
    assert_eq!(totals.words, 0);
    assert_eq!(totals.bytes, 0);
    assert_eq!(totals.files, 0);
}
