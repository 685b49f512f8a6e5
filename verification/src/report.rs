//! The head of the report that a run prints: a title, the time the run took
//! and the heading of the list of infected files.

use crate::scanner::texts;
use crate::summary::ScanData;
use vstd::prelude::*;
use vstd::string::*;

verus! {

/// The character that stands for the digit `d`.
pub open spec fn digit(d: nat) -> char {
    if d == 0 {
        '0'
    } else if d == 1 {
        '1'
    } else if d == 2 {
        '2'
    } else if d == 3 {
        '3'
    } else if d == 4 {
        '4'
    } else if d == 5 {
        '5'
    } else if d == 6 {
        '6'
    } else if d == 7 {
        '7'
    } else if d == 8 {
        '8'
    } else {
        '9'
    }
}

/// `n` in decimal digits, without leading zeros.
pub open spec fn decimal(n: nat) -> Seq<char>
    decreases n,
{
    if n < 10 {
        seq![digit(n)]
    } else {
        decimal(n / 10).push(digit(n % 10))
    }
}

/// `n` in decimal digits, filled with zeros on the left to three digits.
pub open spec fn three_digits(n: nat) -> Seq<char> {
    if n < 10 {
        seq!['0', '0'] + decimal(n)
    } else if n < 100 {
        seq!['0'] + decimal(n)
    } else {
        decimal(n)
    }
}

/// The line that tells how long a run took: the seconds, a point, and the
/// milliseconds in three digits.
pub open spec fn time_line(secs: nat, millis: nat) -> Seq<char> {
    "Time: "@ + decimal(secs) + seq!['.'] + three_digits(millis) + " sec"@
}

/// The lines above the list of infected files.
pub open spec fn heading(secs: nat, millis: nat) -> Seq<Seq<char>> {
    seq!["----------- SCAN SUMMARY -----------"@, time_line(secs, millis), "May be infected:"@]
}

/// The text of one decimal digit.
fn digit_text(d: u8) -> (text: &'static str)
    requires
        d < 10,
    ensures
        text@ == seq![digit(d as nat)],
{
    proof {
        reveal_strlit("0");
        reveal_strlit("1");
        reveal_strlit("2");
        reveal_strlit("3");
        reveal_strlit("4");
        reveal_strlit("5");
        reveal_strlit("6");
        reveal_strlit("7");
        reveal_strlit("8");
        reveal_strlit("9");
    }
    let text = match d {
        0 => "0",
        1 => "1",
        2 => "2",
        3 => "3",
        4 => "4",
        5 => "5",
        6 => "6",
        7 => "7",
        8 => "8",
        _ => "9",
    };
    assert(text@ =~= seq![digit(d as nat)]);
    text
}

/// Writes `n` in decimal digits at the end of `text`.
fn push_decimal(text: &mut String, n: u64)
    ensures
        final(text)@ == old(text)@ + decimal(n as nat),
    decreases n,
{
    if n >= 10 {
        push_decimal(text, n / 10);
    }
    let last: u8 = (n % 10) as u8;
    text.append(digit_text(last));
    assert(final(text)@ =~= old(text)@ + decimal(n as nat)) by {
        if n >= 10 {
            assert(decimal(n as nat) =~= decimal((n / 10) as nat) + seq![digit((n % 10) as nat)]);
        }
    }
}

impl ScanData {
    /// The line of the report that tells how long the run took.
    pub fn time_line(&self) -> (line: String)
        ensures
            line@ == time_line(self.time_secs as nat, self.time_subsec_nanos as nat),
    {
        let mut line = String::from_str("Time: ");
        push_decimal(&mut line, self.time_secs);
        line.append(".");
        if self.time_subsec_nanos < 100 {
            line.append("0");
        }
        if self.time_subsec_nanos < 10 {
            line.append("0");
        }
        push_decimal(&mut line, self.time_subsec_nanos as u64);
        line.append(" sec");
        proof {
            reveal_strlit(".");
            reveal_strlit("0");
            assert("."@ =~= seq!['.']);
            assert("0"@ =~= seq!['0']);
            assert(line@ =~= time_line(self.time_secs as nat, self.time_subsec_nanos as nat));
        }
        line
    }

    /// The lines of the report that stand above the list of infected files.
    pub fn heading(&self) -> (lines: Vec<String>)
        ensures
            texts(lines@) == heading(self.time_secs as nat, self.time_subsec_nanos as nat),
    {
        let mut lines: Vec<String> = Vec::new();
        lines.push(String::from_str("----------- SCAN SUMMARY -----------"));
        lines.push(self.time_line());
        lines.push(String::from_str("May be infected:"));
        assert(texts(lines@) =~= heading(
            self.time_secs as nat,
            self.time_subsec_nanos as nat,
        ));
        lines
    }
}

} // verus!
