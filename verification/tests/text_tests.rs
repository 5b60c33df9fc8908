use bogoforge::net::{next_backoff_ms, INITIAL_BACKOFF_MS, MAX_BACKOFF_MS};
use bogoforge::text::{parse_u64, u64_to_decimal};
use bogoforge::tui::{best_char, fmt_best, fmt_uptime, sparkline};
use std::collections::VecDeque;

#[test]
fn decimal_rendering() {
    assert_eq!(u64_to_decimal(0), "0");
    assert_eq!(u64_to_decimal(7), "7");
    assert_eq!(u64_to_decimal(1234567890), "1234567890");
    assert_eq!(u64_to_decimal(u64::MAX), "18446744073709551615");
}

#[test]
fn parse_u64_like_std() {
    for s in ["0", "42", "+42", "", "+", "-1", "12a", " 1", "18446744073709551615", "18446744073709551616", "000123", "99999999999999999999999"] {
        assert_eq!(parse_u64(s), s.parse::<u64>().ok(), "input {s:?}");
    }
}

#[test]
fn decimal_round_trip() {
    for n in [0u64, 1, 9, 10, 99, 100, 4096, 123456789012345678, u64::MAX] {
        assert_eq!(parse_u64(&u64_to_decimal(n)), Some(n));
    }
}

#[test]
fn best_text() {
    assert_eq!(fmt_best(-1), "— / 25");
    assert_eq!(fmt_best(0), "0 / 25");
    assert_eq!(fmt_best(13), "13 / 25");
}

#[test]
fn uptime_text() {
    assert_eq!(fmt_uptime(0), "0h 0m 0s");
    assert_eq!(fmt_uptime(3725), "1h 2m 5s");
    assert_eq!(fmt_uptime(90061), "25h 1m 1s");
}

#[test]
fn best_chars() {
    assert_eq!(best_char(-1), '?');
    assert_eq!(best_char(0), '0');
    assert_eq!(best_char(9), '9');
    assert_eq!(best_char(10), 'a');
    assert_eq!(best_char(25), 'p');
    assert_eq!(best_char(35), 'z');
    assert_eq!(best_char(36), '*');
    for b in -3..40 {
        let expected = if b < 0 { '?' } else { char::from_digit(b as u32, 36).unwrap_or('*') };
        assert_eq!(best_char(b), expected);
    }
}

#[test]
fn sparkline_shows_last_ten() {
    let empty: VecDeque<i32> = VecDeque::new();
    assert_eq!(sparkline(&empty), "");
    let h: VecDeque<i32> = (0..12).map(|v| v as i32 - 1).collect();
    assert_eq!(sparkline(&h), "123456789a");
    let short: VecDeque<i32> = vec![-1, 3, 11].into_iter().collect();
    assert_eq!(sparkline(&short), "?3b");
}

#[test]
fn backoff_doubles_up_to_cap() {
    let mut b = INITIAL_BACKOFF_MS;
    let mut seen = vec![b];
    for _ in 0..6 {
        b = next_backoff_ms(b);
        seen.push(b);
    }
    assert_eq!(seen, vec![2000, 4000, 8000, 16000, 30000, 30000, 30000]);
    assert!(seen.iter().all(|&w| w >= INITIAL_BACKOFF_MS && w <= MAX_BACKOFF_MS));
}

#[test]
fn sparkline_row_and_quit_keys() {
    use_sparkline_row();
    assert!(bogoforge::tui::is_quit_key('q', false));
    assert!(bogoforge::tui::is_quit_key('Q', true));
    assert!(bogoforge::tui::is_quit_key('c', true));
    assert!(!bogoforge::tui::is_quit_key('c', false));
    assert!(!bogoforge::tui::is_quit_key('x', true));
}

fn use_sparkline_row() {
    let empty: VecDeque<i32> = VecDeque::new();
    assert_eq!(bogoforge::tui::sparkline_row(&empty), "—");
    let h: VecDeque<i32> = vec![2, 3].into_iter().collect();
    assert_eq!(bogoforge::tui::sparkline_row(&h), "23");
}
