use vstd::prelude::*;

use crate::progress::{percentage_hundredths, spec_percentage_hundredths};

verus! {

/// The decimal digit `d` (for `d < 10`) as a character.
pub open spec fn digit_char(d: nat) -> char {
    if d == 0 { '0' }
    else if d == 1 { '1' }
    else if d == 2 { '2' }
    else if d == 3 { '3' }
    else if d == 4 { '4' }
    else if d == 5 { '5' }
    else if d == 6 { '6' }
    else if d == 7 { '7' }
    else if d == 8 { '8' }
    else { '9' }
}

/// Decimal notation of `n`: no sign, no leading zero.
pub open spec fn decimal_digits(n: nat) -> Seq<char>
    decreases n,
{
    if n < 10 {
        seq![digit_char(n)]
    } else {
        decimal_digits(n / 10).push(digit_char(n % 10))
    }
}

/// The decimal digit `d` as a one-character text.
fn digit_text(d: u128) -> (r: &'static str)
    requires
        d < 10,
    ensures
        r@ == seq![digit_char(d as nat)],
{
    match d {
        0 => {
            proof {
                reveal_strlit("0");
            }
            assert("0"@ =~= seq![digit_char(0)]);
            "0"
        },
        1 => {
            proof {
                reveal_strlit("1");
            }
            assert("1"@ =~= seq![digit_char(1)]);
            "1"
        },
        2 => {
            proof {
                reveal_strlit("2");
            }
            assert("2"@ =~= seq![digit_char(2)]);
            "2"
        },
        3 => {
            proof {
                reveal_strlit("3");
            }
            assert("3"@ =~= seq![digit_char(3)]);
            "3"
        },
        4 => {
            proof {
                reveal_strlit("4");
            }
            assert("4"@ =~= seq![digit_char(4)]);
            "4"
        },
        5 => {
            proof {
                reveal_strlit("5");
            }
            assert("5"@ =~= seq![digit_char(5)]);
            "5"
        },
        6 => {
            proof {
                reveal_strlit("6");
            }
            assert("6"@ =~= seq![digit_char(6)]);
            "6"
        },
        7 => {
            proof {
                reveal_strlit("7");
            }
            assert("7"@ =~= seq![digit_char(7)]);
            "7"
        },
        8 => {
            proof {
                reveal_strlit("8");
            }
            assert("8"@ =~= seq![digit_char(8)]);
            "8"
        },
        _ => {
            proof {
                reveal_strlit("9");
            }
            assert("9"@ =~= seq![digit_char(9)]);
            "9"
        },
    }
}

/// Decimal notation of `n`, with no sign or padding.
pub(crate) fn decimal_text(n: u128) -> (r: String)
    ensures
        r@ == decimal_digits(n as nat),
    decreases n,
{
    if n < 10 {
        String::from_str(digit_text(n))
    } else {
        let mut s = decimal_text(n / 10);
        s.append(digit_text(n % 10));
        assert(s@ =~= decimal_digits(n as nat));
        s
    }
}

/// Two-place decimal notation of `h` hundredths, as in `12.05`.
pub open spec fn hundredths_text(h: nat) -> Seq<char> {
    decimal_digits(h / 100) + seq!['.'] + if h % 100 < 10 {
        seq!['0'] + decimal_digits(h % 100)
    } else {
        decimal_digits(h % 100)
    }
}

fn hundredths(h: u128) -> (r: String)
    ensures
        r@ == hundredths_text(h as nat),
{
    let mut s = decimal_text(h / 100);
    s.append(".");
    if h % 100 < 10 {
        s.append("0");
    }
    let frac = decimal_text(h % 100);
    s.append(frac.as_str());
    proof {
        reveal_strlit(".");
        reveal_strlit("0");
    }
    assert(s@ =~= hundredths_text(h as nat));
    s
}

/// Log record: `{"level": "INFO", "message": "<message>"}`.
pub fn log_payload(message: &str) -> (r: String)
    ensures
        r@ == "{\"level\": \"INFO\", \"message\": \""@ + message@ + "\"}"@,
{
    let mut s = String::from_str("{\"level\": \"INFO\", \"message\": \"");
    s.append(message);
    s.append("\"}");
    s
}

/// Status record: `{"status": "<status>", "details": "<details>"}`.
pub fn status_payload(status: &str, details: &str) -> (r: String)
    ensures
        r@ == "{\"status\": \""@ + status@ + "\", \"details\": \""@ + details@ + "\"}"@,
{
    let mut s = String::from_str("{\"status\": \"");
    s.append(status);
    s.append("\", \"details\": \"");
    s.append(details);
    s.append("\"}");
    s
}

/// Analytics record: `{"event": "<event>", "details": "<details>"}`.
pub fn analytics_payload(event: &str, details: &str) -> (r: String)
    ensures
        r@ == "{\"event\": \""@ + event@ + "\", \"details\": \""@ + details@ + "\"}"@,
{
    let mut s = String::from_str("{\"event\": \"");
    s.append(event);
    s.append("\", \"details\": \"");
    s.append(details);
    s.append("\"}");
    s
}

/// Progress record:
/// `{"progress": <progress>, "total": <total>, "percentage": <p>}`, with the
/// percentage to two places, rounded to nearest, and 0.00 where `total` is 0.
pub fn progress_payload(progress: u64, total: u64) -> (r: String)
    ensures
        r@ == "{\"progress\": "@ + decimal_digits(progress as nat) + ", \"total\": "@
            + decimal_digits(total as nat) + ", \"percentage\": "@ + hundredths_text(
            spec_percentage_hundredths(progress, total) as nat,
        ) + "}"@,
{
    let mut s = String::from_str("{\"progress\": ");
    let p = decimal_text(progress as u128);
    s.append(p.as_str());
    s.append(", \"total\": ");
    let t = decimal_text(total as u128);
    s.append(t.as_str());
    s.append(", \"percentage\": ");
    let h = hundredths(percentage_hundredths(progress, total));
    s.append(h.as_str());
    s.append("}");
    s
}

/// Periodic status of a running service:
/// `{"status": "running", "message": "<name> is operational"}`.
pub fn running_payload(name: &str) -> (r: String)
    ensures
        r@ == "{\"status\": \"running\", \"message\": \""@ + name@ + " is operational\"}"@,
{
    let mut s = String::from_str("{\"status\": \"running\", \"message\": \"");
    s.append(name);
    s.append(" is operational\"}");
    s
}

/// Status of a service that is shutting down:
/// `{"status": "shutdown", "message": "<name> is shutting down..."}`.
pub fn shutdown_payload(name: &str) -> (r: String)
    ensures
        r@ == "{\"status\": \"shutdown\", \"message\": \""@ + name@ + " is shutting down...\"}"@,
{
    let mut s = String::from_str("{\"status\": \"shutdown\", \"message\": \"");
    s.append(name);
    s.append(" is shutting down...\"}");
    s
}

/// Status of a service whose termination signal could not be awaited:
/// `{"status": "error", "message": "Termination signal failed for <name>"}`.
pub fn signal_failure_payload(name: &str) -> (r: String)
    ensures
        r@ == "{\"status\": \"error\", \"message\": \"Termination signal failed for "@ + name@
            + "\"}"@,
{
    let mut s = String::from_str("{\"status\": \"error\", \"message\": \"Termination signal failed for ");
    s.append(name);
    s.append("\"}");
    s
}

} // verus!
