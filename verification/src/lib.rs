//! Keeps track of the players of a live match and of what is known of them.
//!
//! - `steamid` converts between the two spellings of an identity, and
//!   `idscan` finds identities in free text.
//! - `player_checker` is the record store: curated records, records from
//!   outside lists and the name patterns that give bots away.
//! - `parties` joins the players who are friends and finds the parties they
//!   form; `components` holds the graph work under it, and `friend_graph`
//!   hands the graph to viewers.
//! - `steamapi` is the protocol of one lookup with the profile service, and
//!   `server` hands what a lookup delivers to the player it was made for.

pub mod color;
pub mod components;
pub mod decimal;
pub mod friend_graph;
pub mod gui;
pub mod idscan;
pub mod lines;
pub mod parties;
pub mod pattern;
pub mod player;
pub mod player_checker;
pub mod record_file;
pub mod record_table;
pub mod server;
pub mod steamapi;
pub mod steamhistory;
pub mod steamid;
pub mod text;
