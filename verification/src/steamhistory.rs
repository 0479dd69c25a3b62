//! Bans that game servers have recorded of an identity, and how grave they
//! are taken to be.

use crate::color::Color;
use crate::text::same_text;
use vstd::prelude::*;
use vstd::string::StringExecFns;

verus! {

/// The state that a ban is in.
#[derive(Debug)]
pub enum BanReason {
    Permanent,
    TempBan,
    Expired,
    Unbanned,
    /// A state that the service names otherwise.
    Other(String),
}

impl BanReason {
    /// How the state is shown.
    pub open spec fn label(self) -> Seq<char> {
        match self {
            BanReason::Permanent => "Permanent"@,
            BanReason::TempBan => "Temp Ban"@,
            BanReason::Expired => "Expired"@,
            BanReason::Unbanned => "Unbanned"@,
            BanReason::Other(state) => "Unknown: \""@ + state@ + "\""@,
        }
    }

    /// The ban is in force.
    pub open spec fn in_force(self) -> bool {
        self is Permanent || self is TempBan
    }

    /// How the state is shown.
    pub fn to_string(&self) -> (text: String)
        ensures
            text@ == self.label(),
    {
        match self {
            BanReason::Permanent => String::from_str("Permanent"),
            BanReason::TempBan => String::from_str("Temp Ban"),
            BanReason::Expired => String::from_str("Expired"),
            BanReason::Unbanned => String::from_str("Unbanned"),
            BanReason::Other(state) => {
                let mut text = String::from_str("Unknown: \"");
                text.append(state.as_str());
                text.append("\"");
                text
            },
        }
    }
}

/// One ban as the service reports it.
#[allow(non_snake_case)]
#[derive(Debug)]
pub struct Ban {
    pub SteamID: String,
    pub Name: Option<String>,
    pub CurrentState: BanReason,
    pub BanReason: Option<String>,
    pub UnbanReason: Option<String>,
    pub BanTimestamp: u64,
    pub UnbanTimestamp: u64,
    pub Server: String,
}

impl Ban {
    /// The ban is in force on a server other than the trading site whose
    /// bans say nothing of how someone plays.
    pub open spec fn counts(self) -> bool {
        self.CurrentState.in_force() && self.Server@ != "Scrap.tf"@
    }

    /// Whether the ban is in force on a server whose bans count.
    pub fn is_counted(&self) -> (r: bool)
        ensures
            r == self.counts(),
    {
        let in_force = match &self.CurrentState {
            BanReason::Permanent => true,
            BanReason::TempBan => true,
            _ => false,
        };
        in_force && !same_text(self.Server.as_str(), "Scrap.tf")
    }
}

/// The bans of one identity and the colour that marks it.
#[derive(Debug)]
pub struct SHBans {
    pub bans: Vec<Ban>,
    pub color: Color,
}

/// The colour for a list of bans: red where one of them counts, else yellow.
pub open spec fn mark_of(bans: Seq<Ban>) -> Color {
    if exists|i: int| 0 <= i < bans.len() && (#[trigger] bans[i]).counts() {
        Color::red()
    } else {
        Color::yellow()
    }
}

impl SHBans {
    /// The bans with their colour: red where a ban is in force on a server
    /// that counts, else yellow.
    pub fn new(bans: Vec<Ban>) -> (record: SHBans)
        ensures
            record.bans == bans,
            record.color == mark_of(bans@),
    {
        let mut color = Color::from_rgb(255, 255, 0);
        let mut i: usize = 0;
        while i < bans.len()
            invariant
                0 <= i <= bans@.len(),
                color == mark_of(bans@.take(i as int)),
            decreases bans@.len() - i,
        {
            let ghost done = bans@.take(i as int);
            let ghost next = bans@.take(i + 1);
            if bans[i].is_counted() {
                color = Color::from_rgb(255, 0, 0);
                proof {
                    assert(next[i as int].counts());
                }
            } else {
                proof {
                    if exists|j: int| 0 <= j < next.len() && (#[trigger] next[j]).counts() {
                        let j = choose|j: int| 0 <= j < next.len() && (#[trigger] next[j]).counts();
                        assert(done[j].counts());
                    }
                    if exists|j: int| 0 <= j < done.len() && (#[trigger] done[j]).counts() {
                        let j = choose|j: int| 0 <= j < done.len() && (#[trigger] done[j]).counts();
                        assert(next[j].counts());
                    }
                }
            }
            i += 1;
        }
        proof {
            assert(bans@.take(bans@.len() as int) =~= bans@);
        }
        SHBans { bans, color }
    }
}

} // verus!
