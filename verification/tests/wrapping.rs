use todo_wallpaper::layout::wrap_words;
use todo_wallpaper::strings::{join_char, split_char, u64_to_dec};

fn s(v: &[&str]) -> Vec<String> {
    v.iter().map(|x| x.to_string()).collect()
}

#[test]
fn wrap_keeps_fitting_line_whole() {
    let lines = wrap_words(&s(&["hello", "world"]), &vec![50, 50], 200);
    assert_eq!(lines, s(&["hello world"]));
}

#[test]
fn wrap_closes_line_when_budget_reached() {
    let lines = wrap_words(&s(&["aa", "bb", "cc"]), &vec![60, 60, 60], 130);
    assert_eq!(lines, s(&["aa bb", "cc"]));
}

#[test]
fn wrap_closes_at_exact_budget() {
    // Reaching the budget exactly already closes the line.
    let lines = wrap_words(&s(&["a", "b"]), &vec![50, 50], 100);
    assert_eq!(lines, s(&["a", "b"]));
}

#[test]
fn wrap_overlong_word_stands_alone() {
    // A single word wider than the budget is never split; it closes the
    // (empty) open line and stands alone, overflowing the bound.
    let lines = wrap_words(&s(&["gigantic"]), &vec![500], 100);
    assert_eq!(lines, s(&["", "gigantic"]));
}

#[test]
fn wrap_empty_paragraph_emits_one_empty_line() {
    let lines = wrap_words(&s(&[""]), &vec![0], 100);
    assert_eq!(lines, s(&[""]));
}

#[test]
fn wrap_emits_each_paragraph_tail() {
    let lines = wrap_words(&s(&["one", "two", "three"]), &vec![40, 40, 40], 1000);
    assert_eq!(lines, s(&["one two three"]));
}

#[test]
fn wrap_line_count_at_least_paragraphs() {
    // Three paragraphs, wrapped one by one as the engine does after its
    // newline split: at least one line each, exactly one when it fits.
    let paragraphs = ["alpha beta", "", "gamma"];
    let mut total = 0;
    for p in paragraphs.iter() {
        let words: Vec<String> = p.split(' ').map(|w| w.to_string()).collect();
        let widths: Vec<u32> = words.iter().map(|w| 10 * w.len() as u32).collect();
        let lines = wrap_words(&words, &widths, 1000);
        assert_eq!(lines.len(), 1);
        total += lines.len();
    }
    assert_eq!(total, paragraphs.len());
}

#[test]
fn split_keeps_empty_tokens() {
    let parts = split_char("a\nb\n", '\n');
    assert_eq!(parts, s(&["a", "b", ""]));
    assert_eq!(split_char("", '\n'), s(&[""]));
    assert_eq!(split_char("one two", ' '), s(&["one", "two"]));
}

#[test]
fn join_is_inverse_of_split() {
    let parts = split_char("a\n\nbc", '\n');
    assert_eq!(parts, s(&["a", "", "bc"]));
    assert_eq!(join_char(&parts, '\n', "\n"), "a\n\nbc");
}

#[test]
fn decimal_formatting() {
    assert_eq!(u64_to_dec(0), "0");
    assert_eq!(u64_to_dec(1), "1");
    assert_eq!(u64_to_dec(10), "10");
    assert_eq!(u64_to_dec(123), "123");
    assert_eq!(u64_to_dec(9007), "9007");
}
