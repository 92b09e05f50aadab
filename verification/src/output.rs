//! Colored log output decisions.
//!
//! Each process gets a deterministic color keyed by its port; the painting
//! itself is terminal work outside the core.

use vstd::prelude::*;
use vstd::string::*;

use crate::text;

verus! {

/// The palette used for process log prefixes.
#[derive(Clone, Copy, Debug, PartialEq, Eq, Structural)]
pub enum LogColor {
    Blue,
    Green,
    Purple,
    Cyan,
    Red,
    Yellow,
}

pub open spec fn spec_pick_color(idx: u16) -> LogColor {
    if idx % 6 == 0 {
        LogColor::Blue
    } else if idx % 6 == 1 {
        LogColor::Green
    } else if idx % 6 == 2 {
        LogColor::Purple
    } else if idx % 6 == 3 {
        LogColor::Cyan
    } else if idx % 6 == 4 {
        LogColor::Red
    } else {
        LogColor::Yellow
    }
}

/// Deterministic palette pick: the same index always gets the same color.
pub fn pick_color(idx: u16) -> (c: LogColor)
    ensures
        c == spec_pick_color(idx),
{
    let m = idx % 6;
    if m == 0 {
        LogColor::Blue
    } else if m == 1 {
        LogColor::Green
    } else if m == 2 {
        LogColor::Purple
    } else if m == 3 {
        LogColor::Cyan
    } else if m == 4 {
        LogColor::Red
    } else {
        LogColor::Yellow
    }
}

/// One log line as printed: the labelled prefix, a separator, the line.
pub fn log_line(name: &str, line: &str) -> (r: String)
    ensures
        r@ == name@ + ": "@ + line@,
{
    let mut v = text::chars_of(name);
    text::append_str(&mut v, ": ");
    text::append_str(&mut v, line);
    proof {
        assert(v@ =~= name@ + ": "@ + line@);
    }
    text::string_of(&v)
}

} // verus!
