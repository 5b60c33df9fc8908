//! The dashboard's text: scores, uptime and the recent-bests sparkline.
//! Drawing it on the terminal happens outside this crate.

use std::collections::VecDeque;
use vstd::prelude::*;

use crate::text::{decimal, push_char, push_decimal, push_str};

verus! {

/// The text of a score out of 25; "—" when there is none (negative).
pub open spec fn best_text(best: i32) -> Seq<char> {
    if best < 0 {
        "— / 25"@
    } else {
        decimal(best as nat) + " / 25"@
    }
}

pub fn fmt_best(best: i32) -> (s: String)
    ensures
        s@ == best_text(best),
{
    if best < 0 {
        String::from_str("— / 25")
    } else {
        let mut s = String::new();
        push_decimal(&mut s, best as u64);
        push_str(&mut s, " / 25");
        assert(s@ =~= best_text(best));
        s
    }
}

/// Uptime as hours, minutes and seconds: "{h}h {m}m {s}s".
pub open spec fn uptime_text(secs: u64) -> Seq<char> {
    decimal((secs / 3600) as nat) + "h "@ + decimal(((secs % 3600) / 60) as nat) + "m "@ + decimal((secs % 60) as nat) + "s"@
}

pub fn fmt_uptime(secs: u64) -> (s: String)
    ensures
        s@ == uptime_text(secs),
{
    let h = secs / 3600;
    let m = (secs % 3600) / 60;
    let sec = secs % 60;
    let mut s = String::new();
    push_decimal(&mut s, h);
    push_str(&mut s, "h ");
    push_decimal(&mut s, m);
    push_str(&mut s, "m ");
    push_decimal(&mut s, sec);
    push_str(&mut s, "s");
    assert(s@ =~= uptime_text(secs));
    s
}

/// One character per score: '?' for none, the base-36 digit of scores up
/// to 35, '*' above.
pub open spec fn best_char_spec(best: i32) -> char {
    if best < 0 {
        '?'
    } else if best < 10 {
        ((48 + best) as u32) as char
    } else if best < 36 {
        ((87 + best) as u32) as char
    } else {
        '*'
    }
}

pub fn best_char(best: i32) -> (c: char)
    ensures
        c == best_char_spec(best),
{
    if best < 0 {
        '?'
    } else if best < 10 {
        (48u8 + best as u8) as char
    } else if best < 36 {
        (87u8 + best as u8) as char
    } else {
        '*'
    }
}

/// How many recent scores the sparkline shows.
pub const SPARKLINE_LEN: usize = 10;

/// The sparkline of a score history: the characters of its last
/// `SPARKLINE_LEN` scores, oldest first.
pub open spec fn sparkline_text(h: Seq<i32>) -> Seq<char> {
    let n = if h.len() < SPARKLINE_LEN { h.len() as int } else { SPARKLINE_LEN as int };
    Seq::new(n as nat, |k: int| best_char_spec(h[h.len() - n + k]))
}

pub fn sparkline(history: &VecDeque<i32>) -> (s: String)
    ensures
        s@ == sparkline_text(history@),
{
    let len = history.len();
    let n = if len < SPARKLINE_LEN { len } else { SPARKLINE_LEN };
    let mut s = String::new();
    let mut k: usize = 0;
    while k < n
        invariant
            0 <= k <= n,
            len == history@.len(),
            n == (if len < SPARKLINE_LEN { len } else { SPARKLINE_LEN }),
            s@ =~= sparkline_text(history@).take(k as int),
        decreases n - k,
    {
        let c = best_char(history[len - n + k]);
        push_char(&mut s, c);
        assert(sparkline_text(history@).take(k + 1) =~= sparkline_text(history@).take(k as int).push(c));
        k = k + 1;
    }
    assert(sparkline_text(history@).take(n as int) =~= sparkline_text(history@));
    s
}

/// The sparkline as the dashboard shows it: "—" while there is no history.
pub open spec fn sparkline_shown(h: Seq<i32>) -> Seq<char> {
    if h.len() == 0 { "—"@ } else { sparkline_text(h) }
}

pub fn sparkline_row(history: &VecDeque<i32>) -> (s: String)
    ensures
        s@ == sparkline_shown(history@),
{
    if history.len() == 0 {
        String::from_str("—")
    } else {
        sparkline(history)
    }
}

/// The keys that quit the dashboard: 'q' or 'Q' with any modifiers, or
/// 'c' with exactly the control modifier.
pub open spec fn quit_key_spec(c: char, control_only: bool) -> bool {
    c == 'q' || c == 'Q' || (c == 'c' && control_only)
}

/// Whether a key press quits the dashboard; `control_only` says the
/// modifiers are exactly control.
pub fn is_quit_key(c: char, control_only: bool) -> (r: bool)
    ensures
        r == quit_key_spec(c, control_only),
{
    c == 'q' || c == 'Q' || (c == 'c' && control_only)
}

} // verus!
