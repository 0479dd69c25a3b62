//! Texts for the lists that show the match: times, names cut to length and
//! the titles of the tabs.

use crate::decimal::{decimal_digits, digit_char, push_decimal};
use vstd::prelude::*;
use vstd::string::{StrSliceExecFns, StringExecFns};

verus! {

/// How many characters of a name are shown.
pub const TRUNC_LEN: usize = 40;

/// The parts of the window.
#[derive(Clone, Copy, Debug, PartialEq, Eq, Structural)]
pub enum GuiTab {
    Settings,
    Players,
    ChatLog,
    DeathLog,
    FriendGraph,
}

impl GuiTab {
    /// The title of the tab.
    pub open spec fn title(self) -> Seq<char> {
        match self {
            GuiTab::Settings => "Settings"@,
            GuiTab::Players => "Players"@,
            GuiTab::ChatLog => "Chat"@,
            GuiTab::DeathLog => "Death Log"@,
            GuiTab::FriendGraph => "Friend Graph"@,
        }
    }

    /// The title of the tab.
    pub fn to_string(&self) -> (text: String)
        ensures
            text@ == self.title(),
    {
        match self {
            GuiTab::Settings => String::from_str("Settings"),
            GuiTab::Players => String::from_str("Players"),
            GuiTab::ChatLog => String::from_str("Chat"),
            GuiTab::DeathLog => String::from_str("Death Log"),
            GuiTab::FriendGraph => String::from_str("Friend Graph"),
        }
    }
}

/// A time in seconds as minutes and seconds: the minutes take two places at
/// least, with a space in front of a single digit; the seconds take two
/// digits.
pub open spec fn time_text(time: u32) -> Seq<char> {
    let minutes = (time / 60) as nat;
    let seconds = (time % 60) as nat;
    let lead = if minutes < 10 {
        seq![' ']
    } else {
        Seq::empty()
    };
    lead + decimal_digits(minutes) + seq![':', digit_char(seconds / 10), digit_char(seconds % 10)]
}

/// Writes a time in seconds as minutes and seconds, such as ` 1:05`.
pub fn format_time(time: u32) -> (text: String)
    ensures
        text@ == time_text(time),
{
    let minutes: u32 = time / 60;
    let seconds: u32 = time % 60;
    let mut text = String::new();
    if minutes < 10 {
        text.push(' ');
    }
    push_decimal(&mut text, minutes as u64);
    text.push(':');
    let tens: u8 = (seconds / 10) as u8;
    let units: u8 = (seconds % 10) as u8;
    text.push((tens + 48u8) as char);
    text.push((units + 48u8) as char);
    proof {
        assert(text@ =~= time_text(time));
    }
    text
}

/// The first `max_chars` characters of `s`, or all of `s` where it has no
/// more.
pub fn truncate(s: &str, max_chars: usize) -> (r: &str)
    ensures
        r@ == s@.take(if max_chars <= s@.len() {
            max_chars as int
        } else {
            s@.len() as int
        }),
{
    let len = s.unicode_len();
    if max_chars >= len {
        proof {
            assert(s@.take(s@.len() as int) =~= s@);
        }
        s
    } else {
        s.substring_char(0, max_chars)
    }
}

} // verus!
