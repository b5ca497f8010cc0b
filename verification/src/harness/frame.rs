//! The line of text that stands for one decoded log frame.
//!
//! A frame is shown as its level in capitals, padded to five characters and
//! set in square brackets, followed by the message. Where the place of the
//! log statement is known, the line starts with the file name and the line
//! number.

use vstd::prelude::*;
use vstd::string::StringExecFns;

verus! {

/// The level of a log frame.
#[derive(Debug, Clone, Copy, PartialEq, Eq, Structural)]
pub enum Level {
    /// Fine-grained tracing.
    Trace,
    /// Debugging output.
    Debug,
    /// Information.
    Info,
    /// A warning.
    Warn,
    /// An error.
    Error,
}

/// The decimal digit that stands for a number below ten.
pub open spec fn digit(value: nat) -> char {
    if value == 0 {
        '0'
    } else if value == 1 {
        '1'
    } else if value == 2 {
        '2'
    } else if value == 3 {
        '3'
    } else if value == 4 {
        '4'
    } else if value == 5 {
        '5'
    } else if value == 6 {
        '6'
    } else if value == 7 {
        '7'
    } else if value == 8 {
        '8'
    } else {
        '9'
    }
}

/// A number written in decimal, without leading zeros.
pub open spec fn decimal(value: nat) -> Seq<char>
    decreases value,
{
    if value < 10 {
        seq![digit(value)]
    } else {
        decimal(value / 10).push(digit(value % 10))
    }
}

/// The level of a frame as it is shown: in capitals and padded to five
/// characters. A frame without a level is a plain print.
pub open spec fn tag(level: Option<Level>) -> Seq<char> {
    match level {
        Some(Level::Trace) => "TRACE"@,
        Some(Level::Debug) => "DEBUG"@,
        Some(Level::Info) => "INFO "@,
        Some(Level::Warn) => "WARN "@,
        Some(Level::Error) => "ERROR"@,
        None => "PRINT"@,
    }
}

/// The line for a frame of which the place is not known.
pub open spec fn plain_line(level: Option<Level>, message: Seq<char>) -> Seq<char> {
    "["@ + tag(level) + "] "@ + message
}

/// The line for a frame.
pub open spec fn frame_line(
    level: Option<Level>,
    location: Option<(Seq<char>, nat)>,
    message: Seq<char>,
) -> Seq<char> {
    match location {
        Some((file, line)) => file + ":"@ + decimal(line) + ": "@ + plain_line(level, message),
        None => plain_line(level, message),
    }
}

/// Every tag is five characters wide.
pub proof fn lemma_tag_width(level: Option<Level>)
    ensures
        tag(level).len() == 5,
{
    reveal_strlit("TRACE");
    reveal_strlit("DEBUG");
    reveal_strlit("INFO ");
    reveal_strlit("WARN ");
    reveal_strlit("ERROR");
    reveal_strlit("PRINT");
}

/// The digit for a number below ten, as a string.
fn digit_text(value: u64) -> (text: &'static str)
    requires
        value < 10,
    ensures
        text@ == seq![digit(value as nat)],
{
    proof {
        reveal_strlit("0");
        reveal_strlit("1");
        reveal_strlit("2");
        reveal_strlit("3");
        reveal_strlit("4");
        reveal_strlit("5");
        reveal_strlit("6");
        reveal_strlit("7");
        reveal_strlit("8");
        reveal_strlit("9");
    }
    let text = if value == 0 {
        "0"
    } else if value == 1 {
        "1"
    } else if value == 2 {
        "2"
    } else if value == 3 {
        "3"
    } else if value == 4 {
        "4"
    } else if value == 5 {
        "5"
    } else if value == 6 {
        "6"
    } else if value == 7 {
        "7"
    } else if value == 8 {
        "8"
    } else {
        "9"
    };
    proof {
        assert(text@ =~= seq![digit(value as nat)]);
    }
    text
}

/// Appends a number in decimal to a text.
pub fn push_decimal(text: &mut String, value: u64)
    ensures
        final(text)@ == old(text)@ + decimal(value as nat),
    decreases value,
{
    if value >= 10 {
        push_decimal(text, value / 10);
    }
    text.append(digit_text(value % 10));
    proof {
        if value >= 10 {
            assert(final(text)@ =~= old(text)@ + decimal(value as nat));
        } else {
            assert(final(text)@ =~= old(text)@ + decimal(value as nat));
        }
    }
}

/// The tag of a level.
fn tag_text(level: Option<Level>) -> (text: &'static str)
    ensures
        text@ == tag(level),
{
    match level {
        Some(Level::Trace) => "TRACE",
        Some(Level::Debug) => "DEBUG",
        Some(Level::Info) => "INFO ",
        Some(Level::Warn) => "WARN ",
        Some(Level::Error) => "ERROR",
        None => "PRINT",
    }
}

/// Writes the line that stands for a frame. `location` is the name of the
/// file and the number of the line of the log statement, where they are
/// known.
pub fn format_frame(level: Option<Level>, location: Option<(&str, u64)>, message: &str) -> (line:
    String)
    ensures
        line@ == frame_line(
            level,
            match location {
                Some((file, number)) => Some((file@, number as nat)),
                None => None,
            },
            message@,
        ),
{
    let mut line = String::new();
    match location {
        Some((file, number)) => {
            line.append(file);
            line.append(":");
            push_decimal(&mut line, number);
            line.append(": ");
        },
        None => {},
    }
    let ghost head = line@;
    line.append("[");
    line.append(tag_text(level));
    line.append("] ");
    line.append(message);
    proof {
        assert(line@ =~= head + plain_line(level, message@));
        match location {
            Some((file, number)) => {
                assert(head =~= file@ + ":"@ + decimal(number as nat) + ": "@);
                assert(line@ =~= file@ + ":"@ + decimal(number as nat) + ": "@ + plain_line(
                    level,
                    message@,
                ));
            },
            None => {
                assert(head =~= Seq::<char>::empty());
            },
        }
    }
    line
}

} // verus!
