//! The roster of the match, as far as lookups touch it.

use crate::player::Player;
use crate::steamapi::Response;
use crate::steamid::{steamid_64_to_32, steamid_64_to_32_spec, FormatError};
use vstd::prelude::*;
use vstd::string::StringExecFns;

verus! {

/// `i` is the place of the first player of the roster with the identity
/// `steamid32`.
pub open spec fn is_first_with(roster: Seq<Player>, steamid32: Seq<char>, i: int) -> bool {
    &&& 0 <= i < roster.len()
    &&& roster[i].steamid32@ == steamid32
    &&& forall|j: int| 0 <= j < i ==> (#[trigger] roster[j]).steamid32@ != steamid32
}

/// The place of the first player with the identity `steamid32`, if there
/// is one.
pub fn find_player(roster: &Vec<Player>, steamid32: &str) -> (r: Option<usize>)
    ensures
        match r {
            Some(i) => is_first_with(roster@, steamid32@, i as int),
            None => forall|j: int| 0 <= j < roster@.len() ==> (#[trigger] roster@[j]).steamid32@
                != steamid32@,
        },
{
    let id = String::from_str(steamid32);
    let mut i: usize = 0;
    while i < roster.len()
        invariant
            0 <= i <= roster@.len(),
            id@ == steamid32@,
            forall|j: int| 0 <= j < i ==> (#[trigger] roster@[j]).steamid32@ != steamid32@,
        decreases roster@.len() - i,
    {
        if roster[i].steamid32 == id {
            return Some(i);
        }
        i += 1;
    }
    None
}

/// Hands what a lookup delivered to the player it was made for: the first
/// player whose identity is the short form of the identity in the response.
/// Tells the player's place. Where the identity has no short form, or no
/// player bears it, the response is dropped and the roster stays as it is.
pub fn apply_response(roster: &mut Vec<Player>, response: Response) -> (r: Option<usize>)
    ensures
        final(roster)@.len() == old(roster)@.len(),
        match steamid_64_to_32_spec(response.steamid@) {
            Ok(steamid32) => match r {
                Some(i) => is_first_with(old(roster)@, steamid32, i as int),
                None => forall|j: int|
                    0 <= j < old(roster)@.len() ==> (#[trigger] old(roster)@[j]).steamid32@
                        != steamid32,
            },
            Err(_) => r is None,
        },
        match r {
            Some(i) => final(roster)@ == old(roster)@.update(
                i as int,
                Player {
                    account_info: response.info,
                    profile_image: response.avatar,
                    ..old(roster)@[i as int]
                },
            ),
            None => final(roster)@ == old(roster)@,
        },
{
    let steamid32 = match steamid_64_to_32(response.steamid.as_str()) {
        Ok(id) => id,
        Err(_) => { return None; },
    };
    match find_player(roster, steamid32.as_str()) {
        Some(i) => {
            let Response { info, avatar, steamid: _ } = response;
            roster[i].account_info = info;
            roster[i].profile_image = avatar;
            proof {
                assert(roster@ =~= old(roster)@.update(
                    i as int,
                    Player { account_info: info, profile_image: avatar, ..old(roster)@[i as int] },
                ));
            }
            Some(i)
        },
        None => None,
    }
}

/// Empties the list of identities that wait for a lookup and hands out
/// those to look up now: all of them, the last one first, where a key for
/// the profile service is set, and none where it is not.
pub fn take_pending(pending: &mut Vec<String>, key_set: bool) -> (out: Vec<String>)
    ensures
        final(pending)@.len() == 0,
        out@ == if key_set {
            old(pending)@.reverse()
        } else {
            Seq::empty()
        },
{
    let mut out: Vec<String> = Vec::new();
    if !key_set {
        pending.clear();
        return out;
    }
    let ghost all = pending@;
    while pending.len() > 0
        invariant
            pending@.len() + out@.len() == all.len(),
            pending@ == all.take(pending@.len() as int),
            forall|i: int| 0 <= i < out@.len() ==> #[trigger] out@[i] == all[all.len() - 1 - i],
        decreases pending@.len(),
    {
        let ghost rest = pending@;
        match pending.pop() {
            Some(id) => {
                proof {
                    assert(id == all[rest.len() - 1]);
                    assert(pending@ =~= all.take(pending@.len() as int));
                }
                out.push(id);
            },
            None => {},
        }
    }
    proof {
        assert(out@ =~= all.reverse());
    }
    out
}

} // verus!
