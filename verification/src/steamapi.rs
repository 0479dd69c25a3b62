//! Looking an identity up with the profile service: what comes back, and
//! the order in which one lookup asks for its parts.
//!
//! A lookup is a small machine. It names the part it wants next; whoever
//! runs it fetches that part and hands in what came back, and the machine
//! answers with the next part or with the response to deliver. The summary
//! and the bans must arrive, or the lookup fails; the friends are asked for
//! only of a public profile; the server bans only where a key for that
//! service is set; the avatar comes last. A failure of one of the last three
//! leaves that part out and the lookup goes on.

use crate::steamhistory::{Ban, SHBans};
use vstd::prelude::*;

verus! {

/// The visibility state of a profile that everyone can see.
pub const VISIBILITY_PUBLIC: i32 = 3;

/// A fetch failed.
#[derive(Debug)]
pub struct NetworkError {
    /// What the transport said.
    pub message: String,
}

/// The summary of an account.
#[derive(Debug)]
pub struct Summary {
    pub steamid: String,
    pub communityvisibilitystate: i32,
    pub personaname: String,
    pub profileurl: String,
    pub avatarmedium: String,
    pub timecreated: Option<i32>,
}

/// The bans that the platform itself has set on an account.
#[derive(Debug)]
pub struct PlatformBans {
    pub community_banned: bool,
    pub vac_banned: bool,
    pub number_of_vac_bans: i32,
    pub days_since_last_ban: i32,
    pub number_of_game_bans: i32,
    pub economy_ban: String,
}

/// One entry of a friends list.
#[derive(Debug)]
pub struct Friend {
    /// The friend's identity, in the long form.
    pub steamid: String,
    pub relationship: String,
    pub friend_since: i32,
}

/// All that a lookup found of an account.
#[derive(Debug)]
pub struct AccountInfo {
    pub summary: Summary,
    pub bans: PlatformBans,
    /// `None` where the profile is not public and the list was not asked
    /// for; an error where it was asked for and did not come.
    pub friends: Option<Result<Vec<Friend>, NetworkError>>,
    /// `None` where no key is set, the service knows nothing, or it failed.
    pub sourcebans: Option<SHBans>,
}

/// What a lookup delivers: what was found, the avatar's bytes where they
/// came, and the identity that was asked for, by which the receiver tells
/// the responses apart. `info` is `None` where the service answered without
/// an account.
#[derive(Debug)]
pub struct Response {
    pub info: Option<Result<AccountInfo, NetworkError>>,
    pub avatar: Option<Vec<u8>>,
    pub steamid: String,
}

/// The part that a lookup wants next.
#[derive(Debug)]
pub enum Request {
    Summary,
    Bans,
    Friends,
    SourceBans,
    /// The image at `url`.
    Avatar { url: String },
}

/// What came back for a part.
#[derive(Debug)]
pub enum Fetched {
    Summary(Result<Vec<Summary>, NetworkError>),
    Bans(Result<Vec<PlatformBans>, NetworkError>),
    Friends(Result<Vec<Friend>, NetworkError>),
    /// The bans that servers recorded of the identity; `Ok(None)` where the
    /// service has none on file.
    SourceBans(Result<Option<Vec<Ban>>, NetworkError>),
    /// The bytes of the image; `None` where they did not come.
    Avatar(Option<Vec<u8>>),
}

/// A lookup under way: what it waits for and what it has.
#[derive(Debug)]
pub enum Lookup {
    AwaitingSummary { steamid: String, history: bool },
    AwaitingBans { steamid: String, history: bool, summary: Summary },
    AwaitingFriends { steamid: String, history: bool, summary: Summary, bans: PlatformBans },
    AwaitingSourceBans {
        steamid: String,
        summary: Summary,
        bans: PlatformBans,
        friends: Option<Result<Vec<Friend>, NetworkError>>,
    },
    AwaitingAvatar { steamid: String, info: AccountInfo },
}

/// How a lookup goes on.
#[derive(Debug)]
pub enum Progress {
    /// The lookup waits for the part that `request` names.
    Fetch { lookup: Lookup, request: Request },
    /// The lookup is over.
    Deliver { response: Response },
}

/// The failure of the lookup of `steamid` with `error`.
pub open spec fn failed(steamid: String, error: NetworkError) -> Progress {
    Progress::Deliver { response: Response { info: Some(Err(error)), avatar: None, steamid } }
}

/// The end of the lookup of `steamid` without an account.
pub open spec fn nothing_found(steamid: String) -> Progress {
    Progress::Deliver { response: Response { info: None, avatar: None, steamid } }
}

/// How the lookup goes on once summary, bans and friends are settled: with
/// the server bans where a key is set, else with the avatar.
pub open spec fn after_friends(
    steamid: String,
    history: bool,
    summary: Summary,
    bans: PlatformBans,
    friends: Option<Result<Vec<Friend>, NetworkError>>,
) -> Progress {
    if history {
        Progress::Fetch {
            lookup: Lookup::AwaitingSourceBans { steamid, summary, bans, friends },
            request: Request::SourceBans,
        }
    } else {
        after_source_bans(steamid, AccountInfo { summary, bans, friends, sourcebans: None })
    }
}

/// How the lookup goes on once all but the avatar is settled.
pub open spec fn after_source_bans(steamid: String, info: AccountInfo) -> Progress {
    Progress::Fetch {
        lookup: Lookup::AwaitingAvatar { steamid, info },
        request: Request::Avatar { url: info.summary.avatarmedium },
    }
}

/// The server bans to keep of what the service sent.
pub open spec fn kept_source_bans(found: Result<Option<Vec<Ban>>, NetworkError>) -> Option<
    Seq<Ban>,
> {
    match found {
        Ok(Some(bans)) => Some(bans@),
        _ => None,
    }
}

impl Lookup {
    /// The identity that is looked up.
    pub open spec fn steamid(self) -> String {
        match self {
            Lookup::AwaitingSummary { steamid, .. } => steamid,
            Lookup::AwaitingBans { steamid, .. } => steamid,
            Lookup::AwaitingFriends { steamid, .. } => steamid,
            Lookup::AwaitingSourceBans { steamid, .. } => steamid,
            Lookup::AwaitingAvatar { steamid, .. } => steamid,
        }
    }

    /// The part that the lookup waits for.
    pub open spec fn wanted(self) -> Request {
        match self {
            Lookup::AwaitingSummary { .. } => Request::Summary,
            Lookup::AwaitingBans { .. } => Request::Bans,
            Lookup::AwaitingFriends { .. } => Request::Friends,
            Lookup::AwaitingSourceBans { .. } => Request::SourceBans,
            Lookup::AwaitingAvatar { info, .. } => Request::Avatar {
                url: info.summary.avatarmedium,
            },
        }
    }

    /// `event` is what came back for the part that the lookup waits for.
    pub open spec fn answered_by(self, event: Fetched) -> bool {
        match (self, event) {
            (Lookup::AwaitingSummary { .. }, Fetched::Summary(_)) => true,
            (Lookup::AwaitingBans { .. }, Fetched::Bans(_)) => true,
            (Lookup::AwaitingFriends { .. }, Fetched::Friends(_)) => true,
            (Lookup::AwaitingSourceBans { .. }, Fetched::SourceBans(_)) => true,
            (Lookup::AwaitingAvatar { .. }, Fetched::Avatar(_)) => true,
            _ => false,
        }
    }

    /// How many parts the lookup may still ask for, the one it waits for
    /// included.
    pub open spec fn parts_left(self) -> nat {
        match self {
            Lookup::AwaitingSummary { .. } => 5,
            Lookup::AwaitingBans { .. } => 4,
            Lookup::AwaitingFriends { .. } => 3,
            Lookup::AwaitingSourceBans { .. } => 2,
            Lookup::AwaitingAvatar { .. } => 1,
        }
    }

    /// A lookup of `steamid` at its start; `history` tells whether a key for
    /// the server bans is set.
    pub open spec fn started(steamid: String, history: bool) -> Progress {
        Progress::Fetch {
            lookup: Lookup::AwaitingSummary { steamid, history },
            request: Request::Summary,
        }
    }

    /// How the lookup goes on when a summary came back. An error fails the
    /// lookup, and an empty list ends it without an account.
    pub open spec fn on_summary(
        steamid: String,
        history: bool,
        found: Result<Vec<Summary>, NetworkError>,
    ) -> Progress {
        match found {
            Err(error) => failed(steamid, error),
            Ok(list) => if list@.len() == 0 {
                nothing_found(steamid)
            } else {
                Progress::Fetch {
                    lookup: Lookup::AwaitingBans { steamid, history, summary: list@[0] },
                    request: Request::Bans,
                }
            },
        }
    }

    /// How the lookup goes on when the bans came back. An error fails the
    /// lookup, and an empty list ends it without an account. The friends
    /// are asked for only of a public profile.
    pub open spec fn on_bans(
        steamid: String,
        history: bool,
        summary: Summary,
        found: Result<Vec<PlatformBans>, NetworkError>,
    ) -> Progress {
        match found {
            Err(error) => failed(steamid, error),
            Ok(list) => if list@.len() == 0 {
                nothing_found(steamid)
            } else if summary.communityvisibilitystate == VISIBILITY_PUBLIC {
                Progress::Fetch {
                    lookup: Lookup::AwaitingFriends { steamid, history, summary, bans: list@[0] },
                    request: Request::Friends,
                }
            } else {
                after_friends(steamid, history, summary, list@[0], None)
            },
        }
    }

    /// The response at the end of a lookup that found an account.
    pub open spec fn on_avatar(steamid: String, info: AccountInfo, found: Option<Vec<u8>>) -> Progress {
        Progress::Deliver { response: Response { info: Some(Ok(info)), avatar: found, steamid } }
    }

    /// Starts the lookup of `steamid`: the summary is wanted first.
    pub fn start(steamid: String, history: bool) -> (progress: Progress)
        ensures
            progress == Lookup::started(steamid, history),
    {
        Progress::Fetch {
            lookup: Lookup::AwaitingSummary { steamid, history },
            request: Request::Summary,
        }
    }

    /// Takes what came back and tells how the lookup goes on.
    ///
    /// What came back for another part than the one the lookup waits for is
    /// passed over: the lookup stays as it is and asks for its part again.
    pub fn advance(self, event: Fetched) -> (progress: Progress)
        ensures
            !self.answered_by(event) ==> progress == (Progress::Fetch {
                lookup: self,
                request: self.wanted(),
            }),
            progress matches Progress::Deliver { response } ==> response.steamid == self.steamid(),
            progress matches Progress::Fetch { lookup, request } ==> lookup.steamid()
                == self.steamid() && request == lookup.wanted() && (self.answered_by(event)
                ==> lookup.parts_left() < self.parts_left()),
            match (self, event) {
                (Lookup::AwaitingSummary { steamid, history }, Fetched::Summary(found)) => progress
                    == Lookup::on_summary(steamid, history, found),
                (Lookup::AwaitingBans { steamid, history, summary }, Fetched::Bans(found)) => progress
                    == Lookup::on_bans(steamid, history, summary, found),
                (
                    Lookup::AwaitingFriends { steamid, history, summary, bans },
                    Fetched::Friends(found),
                ) => progress == after_friends(steamid, history, summary, bans, Some(found)),
                (
                    Lookup::AwaitingSourceBans { steamid, summary, bans, friends },
                    Fetched::SourceBans(found),
                ) => progress matches Progress::Fetch {
                    lookup: Lookup::AwaitingAvatar { steamid: id, info },
                    request: Request::Avatar { url },
                } && id == steamid && url == summary.avatarmedium && info.summary == summary
                    && info.bans == bans && info.friends == friends && (match kept_source_bans(
                    found,
                ) {
                    Some(list) => info.sourcebans matches Some(record) && record.bans@ == list
                        && record.color == crate::steamhistory::mark_of(list),
                    None => info.sourcebans is None,
                }),
                (Lookup::AwaitingAvatar { steamid, info }, Fetched::Avatar(found)) => progress
                    == Lookup::on_avatar(steamid, info, found),
                _ => true,
            },
    {
        match (self, event) {
            (Lookup::AwaitingSummary { steamid, history }, Fetched::Summary(found)) => {
                match found {
                    Err(error) => deliver_failure(steamid, error),
                    Ok(mut list) => {
                        if list.len() == 0 {
                            deliver_nothing(steamid)
                        } else {
                            let summary = list.swap_remove(0);
                            Progress::Fetch {
                                lookup: Lookup::AwaitingBans { steamid, history, summary },
                                request: Request::Bans,
                            }
                        }
                    },
                }
            },
            (Lookup::AwaitingBans { steamid, history, summary }, Fetched::Bans(found)) => {
                match found {
                    Err(error) => deliver_failure(steamid, error),
                    Ok(mut list) => {
                        if list.len() == 0 {
                            deliver_nothing(steamid)
                        } else {
                            let bans = list.swap_remove(0);
                            if summary.communityvisibilitystate == VISIBILITY_PUBLIC {
                                Progress::Fetch {
                                    lookup: Lookup::AwaitingFriends { steamid, history, summary, bans },
                                    request: Request::Friends,
                                }
                            } else {
                                go_on_after_friends(steamid, history, summary, bans, None)
                            }
                        }
                    },
                }
            },
            (
                Lookup::AwaitingFriends { steamid, history, summary, bans },
                Fetched::Friends(found),
            ) => go_on_after_friends(steamid, history, summary, bans, Some(found)),
            (
                Lookup::AwaitingSourceBans { steamid, summary, bans, friends },
                Fetched::SourceBans(found),
            ) => {
                let sourcebans = match found {
                    Ok(Some(list)) => Some(SHBans::new(list)),
                    _ => None,
                };
                go_on_after_source_bans(steamid, AccountInfo { summary, bans, friends, sourcebans })
            },
            (Lookup::AwaitingAvatar { steamid, info }, Fetched::Avatar(found)) => {
                Progress::Deliver {
                    response: Response { info: Some(Ok(info)), avatar: found, steamid },
                }
            },
            (lookup, _) => {
                let request = lookup.request();
                Progress::Fetch { lookup, request }
            },
        }
    }

    /// The part that the lookup waits for.
    pub fn request(&self) -> (request: Request)
        ensures
            request == self.wanted(),
    {
        match self {
            Lookup::AwaitingSummary { .. } => Request::Summary,
            Lookup::AwaitingBans { .. } => Request::Bans,
            Lookup::AwaitingFriends { .. } => Request::Friends,
            Lookup::AwaitingSourceBans { .. } => Request::SourceBans,
            Lookup::AwaitingAvatar { info, .. } => Request::Avatar {
                url: info.summary.avatarmedium.clone(),
            },
        }
    }
}

fn deliver_failure(steamid: String, error: NetworkError) -> (progress: Progress)
    ensures
        progress == failed(steamid, error),
{
    Progress::Deliver { response: Response { info: Some(Err(error)), avatar: None, steamid } }
}

fn deliver_nothing(steamid: String) -> (progress: Progress)
    ensures
        progress == nothing_found(steamid),
{
    Progress::Deliver { response: Response { info: None, avatar: None, steamid } }
}

fn go_on_after_friends(
    steamid: String,
    history: bool,
    summary: Summary,
    bans: PlatformBans,
    friends: Option<Result<Vec<Friend>, NetworkError>>,
) -> (progress: Progress)
    ensures
        progress == after_friends(steamid, history, summary, bans, friends),
{
    if history {
        Progress::Fetch {
            lookup: Lookup::AwaitingSourceBans { steamid, summary, bans, friends },
            request: Request::SourceBans,
        }
    } else {
        go_on_after_source_bans(steamid, AccountInfo { summary, bans, friends, sourcebans: None })
    }
}

fn go_on_after_source_bans(steamid: String, info: AccountInfo) -> (progress: Progress)
    ensures
        progress == after_source_bans(steamid, info),
{
    let url = info.summary.avatarmedium.clone();
    Progress::Fetch { lookup: Lookup::AwaitingAvatar { steamid, info }, request: Request::Avatar { url } }
}

} // verus!
