use gatetrader::console::{eprint_msg, print_help, print_msg, show};
use gatetrader::text::{begins_with, comes_before};

#[test]
fn messages_end_their_line() {
    assert_eq!(print_msg("[OK] Bye"), "[OK] Bye\r\n");
    assert_eq!(eprint_msg(""), "\r\n");
}

#[test]
fn line_feeds_get_carriage_returns() {
    assert_eq!(print_msg("a\nb\n"), "a\r\nb\r\n\r\n");
    assert_eq!(eprint_msg("\n\n"), "\r\n\r\n\r\n");
    assert_eq!(print_msg("a\r\nb"), "a\r\r\nb\r\n");
    assert_eq!(print_msg("caf\u{e9} \u{1f600}\n"), "caf\u{e9} \u{1f600}\r\n\r\n");
}

#[test]
fn every_line_feed_follows_a_carriage_return() {
    let shown = print_msg("x\ny\n\nz");
    let chars: Vec<char> = shown.chars().collect();
    for i in 0..chars.len() {
        if chars[i] == '\n' {
            assert_eq!(chars[i - 1], '\r');
        }
    }
}

#[test]
fn messages_are_shown_in_turn() {
    let mut shown = String::new();
    show(&mut shown, "one");
    show(&mut shown, "two\nthree");
    assert_eq!(shown, "one\r\ntwo\r\nthree\r\n");
}

#[test]
fn help_names_the_keys() {
    assert_eq!(
        print_help(),
        "The following keyboard shortcuts are available:\r\n  - Hit \"p\" to print current balance\r\n  - Hit \"s\" to sell all available balance for trading coins\r\n  - Hit \"h\" or \"?\" to print this help\r\n  - Hit Esc or Ctrl-C to quit\r\n"
    );
}

#[test]
fn strings_are_ordered_like_strings() {
    let names = ["", "a", "aa", "ab", "b", "spot.balances", "spot.orders", "\u{e9}", "\u{1f600}"];
    for a in names.iter() {
        for b in names.iter() {
            assert_eq!(comes_before(a, b), a < b);
        }
    }
}

#[test]
fn line_feeds_part_messages() {
    assert_eq!(print_msg("a\n\nb"), format!("{}{}", print_msg("a\n"), print_msg("b")));
    assert_eq!(print_msg("\nb"), format!("{}{}", print_msg(""), print_msg("b")));
}

#[test]
fn prefixes_are_found() {
    for (text, prefix) in [("abc", ""), ("abc", "ab"), ("abc", "abc"), ("abc", "abcd"), ("abc", "b"), ("", "")] {
        assert_eq!(begins_with(text, prefix), text.starts_with(prefix));
    }
}
