//! A point in time as the literal gives it, and the text it is written as.

use crate::text::{push_zero_padded, zero_padded};
use vstd::prelude::*;
use vstd::string::*;

verus! {

/// The fields of a literal. No field is held to a range: a month of 13 is kept and
/// written as it stands.
#[derive(Clone, Copy, Debug, PartialEq, Eq, Structural)]
pub struct Timestamp {
    pub year: u32,
    pub month: u32,
    pub day: u32,
    pub hour: u32,
    pub minute: u32,
    /// 0 where the literal gives no seconds.
    pub second: u32,
    /// 0 where the literal gives no microseconds.
    pub microsecond: u32,
}

/// The three forms in which a timestamp is written.
#[derive(Clone, Copy, Debug, PartialEq, Eq, Structural)]
pub enum Shape {
    /// `YYYY-MM-DDThh:mm:ss.mmmZ`
    Milliseconds,
    /// `YYYY-MM-DDThh:mm:ssZ`
    Seconds,
    /// `YYYY-MM-DDThh:mmZ`
    Minutes,
}

impl Timestamp {
    /// The milliseconds of the timestamp: its microseconds divided by 1000, the remainder
    /// dropped.
    pub open spec fn milliseconds(self) -> nat {
        (self.microsecond / 1000) as nat
    }

    /// The form in which the timestamp is written. What counts is whether a value is above
    /// zero, not whether the literal gave it: with milliseconds above zero the timestamp is
    /// written with milliseconds, else with seconds above zero it is written with seconds,
    /// else with neither.
    pub open spec fn shape_of(self) -> Shape {
        if self.milliseconds() > 0 {
            Shape::Milliseconds
        } else if self.second > 0 {
            Shape::Seconds
        } else {
            Shape::Minutes
        }
    }

    /// The date and the time of day up to the minute: `YYYY-MM-DDThh:mm`.
    pub open spec fn minutes_text(self) -> Seq<char> {
        zero_padded(self.year as nat, 4) + seq!['-'] + zero_padded(self.month as nat, 2)
            + seq!['-'] + zero_padded(self.day as nat, 2) + seq!['T'] + zero_padded(
            self.hour as nat,
            2,
        ) + seq![':'] + zero_padded(self.minute as nat, 2)
    }

    /// The text of the timestamp. Every field is at least as wide as its form says, with
    /// zeros in front, and wider where its value needs it.
    pub open spec fn iso(self) -> Seq<char> {
        match self.shape_of() {
            Shape::Milliseconds => self.minutes_text() + seq![':'] + zero_padded(
                self.second as nat,
                2,
            ) + seq!['.'] + zero_padded(self.milliseconds(), 3) + seq!['Z'],
            Shape::Seconds => self.minutes_text() + seq![':'] + zero_padded(self.second as nat, 2)
                + seq!['Z'],
            Shape::Minutes => self.minutes_text() + seq!['Z'],
        }
    }

    /// The milliseconds of the timestamp.
    pub fn millisecond(&self) -> (ms: u32)
        ensures
            ms == self.milliseconds(),
    {
        self.microsecond / 1000
    }

    /// The form in which the timestamp is written.
    pub fn shape(&self) -> (shape: Shape)
        ensures
            shape == self.shape_of(),
    {
        if self.millisecond() > 0 {
            Shape::Milliseconds
        } else if self.second > 0 {
            Shape::Seconds
        } else {
            Shape::Minutes
        }
    }

    /// Appends the text of the timestamp to `out`.
    pub fn push_iso(&self, out: &mut String)
        ensures
            final(out)@ == old(out)@ + self.iso(),
    {
        let ghost before = out@;
        proof {
            reveal_strlit("-");
            reveal_strlit("T");
            reveal_strlit(":");
            reveal_strlit(".");
            reveal_strlit("Z");
        }
        push_zero_padded(out, self.year as u64, 4);
        out.append("-");
        push_zero_padded(out, self.month as u64, 2);
        out.append("-");
        push_zero_padded(out, self.day as u64, 2);
        out.append("T");
        push_zero_padded(out, self.hour as u64, 2);
        out.append(":");
        push_zero_padded(out, self.minute as u64, 2);
        assert(out@ =~= before + self.minutes_text());
        match self.shape() {
            Shape::Milliseconds => {
                out.append(":");
                push_zero_padded(out, self.second as u64, 2);
                out.append(".");
                push_zero_padded(out, self.millisecond() as u64, 3);
            },
            Shape::Seconds => {
                out.append(":");
                push_zero_padded(out, self.second as u64, 2);
            },
            Shape::Minutes => {},
        }
        out.append("Z");
    }

    /// The text of the timestamp.
    pub fn render(&self) -> (text: String)
        ensures
            text@ == self.iso(),
    {
        let mut text = String::new();
        self.push_iso(&mut text);
        text
    }
}

/// The form of a timestamp goes by its values alone: milliseconds are written from 1000
/// microseconds on, and below that seconds are written unless they are zero. Seconds of
/// zero and microseconds below 1000 are not shown, whether the literal gave them or not.
pub proof fn law_shape_by_values(stamp: Timestamp)
    ensures
        stamp.shape_of() == Shape::Milliseconds <==> stamp.microsecond >= 1000,
        stamp.shape_of() == Shape::Seconds <==> stamp.microsecond < 1000 && stamp.second > 0,
        stamp.shape_of() == Shape::Minutes <==> stamp.microsecond < 1000 && stamp.second == 0,
        stamp.microsecond < 1000 && stamp.second == 0 ==> stamp.iso() == stamp.minutes_text()
            + seq!['Z'],
{
}

} // verus!
