use str_split::until_char;
use str_split::Delimiter;
use str_split::StrSplit;

fn collect_segments<'a, D: Delimiter>(mut it: StrSplit<'a, D>) -> Vec<&'a str> {
    let mut out: Vec<&'a str> = Vec::new();
    while let Some(seg) = it.next() {
        out.push(seg);
    }
    out
}

#[test]
fn test_simple_str_split() {
    let haystack = "a b c d e";
    let letters: Vec<_> = collect_segments(StrSplit::new(haystack, " "));
    assert_eq!(letters, vec!["a", "b", "c", "d", "e"]);
}

#[test]
fn test_delimiter_at_the_end() {
    let haystack = "a b c d e ";
    let letters: Vec<_> = collect_segments(StrSplit::new(haystack, " "));
    assert_eq!(letters, vec!["a", "b", "c", "d", "e", ""]);
}

#[test]
fn test_until_char_fn() {
    assert_eq!(until_char("Hello World!", 'o'), "Hell");
}

#[test]
fn test_empty_text_yields_one_empty_segment() {
    let letters: Vec<_> = collect_segments(StrSplit::new("", " "));
    assert_eq!(letters, vec![""]);
}

#[test]
fn test_absent_substring_yields_whole_text() {
    let letters: Vec<_> = collect_segments(StrSplit::new("abc", "xyz"));
    assert_eq!(letters, vec!["abc"]);
}

#[test]
fn test_multibyte_char_delimiter() {
    let letters: Vec<_> = collect_segments(StrSplit::new("a\u{1F642}b\u{1F642}c", '\u{1F642}'));
    assert_eq!(letters, vec!["a", "b", "c"]);
}

#[test]
fn test_single_pass_exhaustion_is_final() {
    let mut it = StrSplit::new("x y", ' ');
    assert_eq!(it.next(), Some("x"));
    assert_eq!(it.next(), Some("y"));
    assert_eq!(it.next(), None);
    assert_eq!(it.next(), None);
    assert_eq!(it.next(), None);
}

#[test]
fn test_reconstruction_of_source() {
    let haystack = "ab--cd--ef";
    let segments = collect_segments(StrSplit::new(haystack, "--"));
    assert_eq!(segments, vec!["ab", "cd", "ef"]);
    let rejoined = segments.join("--");
    assert_eq!(rejoined, haystack);
}

#[test]
fn test_trailing_char_delimiter_gives_empty_segment() {
    let letters: Vec<_> = collect_segments(StrSplit::new("abc,", ','));
    assert_eq!(letters, vec!["abc", ""]);
}

#[test]
fn test_empty_pattern_never_matches() {
    let letters: Vec<_> = collect_segments(StrSplit::new("abc", ""));
    assert_eq!(letters, vec!["abc"]);
}

#[test]
fn test_until_char_absent_returns_whole_text() {
    assert_eq!(until_char("abc", 'z'), "abc");
}

#[test]
fn test_until_char_at_start_returns_empty() {
    assert_eq!(until_char("abc", 'a'), "");
}

#[test]
fn test_overlapping_pattern_takes_leftmost_match() {
    let letters: Vec<_> = collect_segments(StrSplit::new("aaa", "aa"));
    assert_eq!(letters, vec!["", "a"]);
}

#[test]
fn test_adjacent_delimiters_give_empty_middle_segment() {
    let letters: Vec<_> = collect_segments(StrSplit::new("a,,b", ','));
    assert_eq!(letters, vec!["a", "", "b"]);
}
