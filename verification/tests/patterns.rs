//! The pattern language for log lines.

use wdctl::pattern::regex_lite;

#[test]
fn sbsa_gwdt_matches_init_log_pattern() {
    let r = regex_lite("Initialized with [0-9]+s timeout @ [0-9]+ Hz, action=[01]");
    assert!(r.is_match(
        "sbsa-gwdt sbsa-gwdt.0: Initialized with 10s timeout @ 50000000 Hz, action=0."
    ));
    assert!(!r.is_match("Hello world"));
}

#[test]
fn sp5100_tco_matches_init_log_pattern() {
    let r = regex_lite("[RUST] Initialized. heartbeat=[0-9]+ sec (nowayout=[01])");
    assert!(r.is_match("kernel: [RUST] Initialized. heartbeat=60 sec (nowayout=0)"));
    assert!(!r.is_match("Hello world"));
}

#[test]
fn the_empty_pattern_matches_everything() {
    assert!(regex_lite("").is_match(""));
    assert!(regex_lite("").is_match("abc"));
    assert!(regex_lite("").try_at("abc"));
}

#[test]
fn digits_need_at_least_one_and_give_none_back() {
    assert!(!regex_lite("a[0-9]+b").is_match("ab"));
    assert!(regex_lite("a[0-9]+b").is_match("a0123456789b"));
    // The item takes all the digits, so none is left for the rest of the pattern.
    assert!(!regex_lite("[0-9]+1").is_match("111"));
    assert!(!regex_lite("[0-9]+[01]").is_match("1010"));
}

#[test]
fn a_bit_is_one_character() {
    assert!(regex_lite("n=[01];").is_match("n=0;"));
    assert!(regex_lite("n=[01];").is_match("n=1;"));
    assert!(!regex_lite("n=[01];").is_match("n=2;"));
    assert!(!regex_lite("n=[01];").is_match("n=10;"));
    assert!(!regex_lite("n=[01]").is_match("n="));
}

#[test]
fn a_beginning_is_not_any_place() {
    assert!(regex_lite("b").is_match("abc"));
    assert!(!regex_lite("b").try_at("abc"));
    assert!(regex_lite("a").try_at("abc"));
}

#[test]
fn plain_characters_mean_themselves() {
    // Neither a dot nor a bracket that begins no item is special.
    assert!(!regex_lite("a.c").is_match("abc"));
    assert!(regex_lite("a.c").is_match("xa.cx"));
    assert!(regex_lite("[RUST]").is_match("x [RUST] y"));
    assert!(!regex_lite("[RUST]").is_match("R"));
    assert!(regex_lite("[0-9]").is_match("[0-9]"));
    assert!(!regex_lite("[0-9]").is_match("5"));
}

#[test]
fn text_around_a_match_does_not_matter() {
    let r = regex_lite("v=[0-9]+");
    assert!(r.is_match("v=1"));
    assert!(r.is_match("before v=1"));
    assert!(r.is_match("v=1 after"));
    assert!(r.is_match("before v=12345 after"));
    // A match in front of a character of more than one byte is found.
    assert!(r.is_match("v=1 \u{2014} caf\u{e9}"));
}
