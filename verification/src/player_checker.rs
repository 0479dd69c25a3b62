//! The record store: what is known of identities, the name patterns that
//! give bots away, and what comes in from lists and files.

use crate::idscan::{find_steamid32, find_steamid64, steamid32_matches, steamid64_matches};
use crate::lines::{filled_lines, find_filled_lines};
use crate::pattern::{regex_compiles, regex_is_match, NamePattern};
use crate::player::{Player, PlayerRecord, PlayerType, RecordView};
use crate::record_file::{
    entries_of, json_error_message, json_record_fields, parse_record_list, ParseError, RawFields,
    RawRecord,
};
use crate::record_table::{lists_table, RecordTable};
use crate::steamid::{steamid_64_to_32, steamid_64_to_32_spec};
use crate::text::{chars_of, lemma_texts_push, texts};
use vstd::prelude::*;
use vstd::string::StringExecFns;

verus! {

/// Where the name patterns are kept.
pub const REGEX_LIST: &'static str = "cfg/regx.txt";

/// Where the records are kept.
pub const PLAYER_LIST: &'static str = "cfg/playerlist.json";

/// A list of reported identities that is kept up to date by others.
pub const HACKERPOLICE_LIST: &'static str =
    "https://raw.githubusercontent.com/AveraFox/Tom/refs/heads/main/reported_ids.txt";

/// Some entries of a batch were of no use; the others were brought in.
#[derive(Debug)]
pub struct PartialImportError {
    /// The kind words of the entries that were rejected, in their order.
    pub rejected: Vec<String>,
}

/// Why a record file was not brought in, or not wholly.
#[derive(Debug)]
pub enum ImportError {
    /// The file is no JSON; nothing was brought in.
    Parse(ParseError),
    /// Some entries were rejected; the others were brought in.
    Partial(PartialImportError),
}

/// The texts of a list of patterns, in order.
pub open spec fn pattern_texts(patterns: Seq<NamePattern>) -> Seq<Seq<char>> {
    patterns.map_values(|p: NamePattern| p@)
}

/// `i` is the place of the first pattern that matches `name`.
pub open spec fn is_first_match(patterns: Seq<Seq<char>>, name: Seq<char>, i: int) -> bool {
    &&& 0 <= i < patterns.len()
    &&& regex_is_match(patterns[i], name)
    &&& forall|j: int| 0 <= j < i ==> !regex_is_match(#[trigger] patterns[j], name)
}

/// What is known of `steamid`: the curated record where there is one, else
/// the record from outside lists.
pub open spec fn lookup(
    players: Map<Seq<char>, RecordView>,
    external_players: Map<Seq<char>, RecordView>,
    steamid: Seq<char>,
) -> Option<RecordView> {
    if players.contains_key(steamid) {
        Some(players[steamid])
    } else if external_players.contains_key(steamid) {
        Some(external_players[steamid])
    } else {
        None
    }
}

/// The table after `record` was put in: a record that says nothing takes
/// the entry of its identity away, any other takes its place.
pub open spec fn upserted(table: Map<Seq<char>, RecordView>, record: RecordView) -> Map<
    Seq<char>,
    RecordView,
> {
    if record.carries_nothing() {
        table.remove(record.steamid)
    } else {
        table.insert(record.steamid, record)
    }
}

/// The note that tells where a record came from.
pub open spec fn import_note(source: Seq<char>, kind: PlayerType) -> Seq<char> {
    "imported from "@ + source + " as "@ + kind.name_text()
}

/// The short form of a long form that was found, where it has one.
pub open spec fn short_form(steamid64: Seq<char>) -> Option<Seq<char>> {
    match steamid_64_to_32_spec(steamid64) {
        Ok(steamid32) => Some(steamid32),
        Err(_) => None,
    }
}

/// The identities that a text lists: its short forms, then the short forms
/// of its long forms, each group in the order of the text.
pub open spec fn listed_identities(text: Seq<char>) -> Seq<Seq<char>> {
    steamid32_matches(text, 0) + steamid64_matches(text, 0).filter_map(
        |id: Seq<char>| short_form(id),
    )
}

/// The table after the identities `ids` were brought in as `kind` with the
/// note `notes`: an identity that had a record keeps it, every other one
/// of `ids` gets the new record.
pub open spec fn with_imported(
    table: Map<Seq<char>, RecordView>,
    ids: Seq<Seq<char>>,
    kind: PlayerType,
    notes: Seq<char>,
) -> Map<Seq<char>, RecordView> {
    Map::new(
        |id: Seq<char>| table.contains_key(id) || ids.contains(id),
        |id: Seq<char>|
            if table.contains_key(id) {
                table[id]
            } else {
                RecordView { steamid: id, player_type: kind, notes }
            },
    )
}

/// The identity of an entry; empty where the entry names none.
pub open spec fn entry_identity(entry: RawFields) -> Seq<char> {
    match entry.0 {
        Some(text) => text,
        None => Seq::empty(),
    }
}

/// The word for the kind of an entry; empty where the entry has none.
pub open spec fn entry_kind_word(entry: RawFields) -> Seq<char> {
    match entry.1 {
        Some(text) => text,
        None => Seq::empty(),
    }
}

/// The notes of an entry; empty where the entry has none.
pub open spec fn entry_notes(entry: RawFields) -> Seq<char> {
    match entry.2 {
        Some(text) => text,
        None => Seq::empty(),
    }
}

/// The entry names an identity, but its kind is none of the four.
pub open spec fn is_rejected(entry: RawFields) -> bool {
    entry_identity(entry).len() > 0 && PlayerType::of_name(entry_kind_word(entry)) is None
}

/// The table after one entry of a record file: an entry without identity or
/// with an unknown kind changes nothing, any other is put in.
pub open spec fn with_entry(table: Map<Seq<char>, RecordView>, entry: RawFields) -> Map<
    Seq<char>,
    RecordView,
> {
    if entry_identity(entry).len() == 0 {
        table
    } else {
        match PlayerType::of_name(entry_kind_word(entry)) {
            Some(kind) => upserted(
                table,
                RecordView {
                    steamid: entry_identity(entry),
                    player_type: kind,
                    notes: entry_notes(entry),
                },
            ),
            None => table,
        }
    }
}

/// The table after the entries of a record file, one after the other.
pub open spec fn with_entries(table: Map<Seq<char>, RecordView>, entries: Seq<RawFields>) -> Map<
    Seq<char>,
    RecordView,
> {
    entries.fold_left(table, |t: Map<Seq<char>, RecordView>, e: RawFields| with_entry(t, e))
}

/// The kind words of the entries that were rejected, in order.
pub open spec fn rejected_words(entries: Seq<RawFields>) -> Seq<Seq<char>> {
    entries.filter(|e: RawFields| is_rejected(e)).map_values(|e: RawFields| entry_kind_word(e))
}

/// The lines of a pattern file that are regular expressions.
pub open spec fn accepted_lines(text: Seq<char>) -> Seq<Seq<char>> {
    filled_lines(text, 0).filter(|line: Seq<char>| regex_compiles(line))
}

/// The lines of a pattern file that hold something else than a regular
/// expression.
pub open spec fn refused_lines(text: Seq<char>) -> Seq<Seq<char>> {
    filled_lines(text, 0).filter(|line: Seq<char>| !regex_compiles(line))
}

/// The patterns, one on each line.
pub open spec fn pattern_file_text(patterns: Seq<Seq<char>>) -> Seq<char>
    decreases patterns.len(),
{
    if patterns.len() == 0 {
        Seq::empty()
    } else {
        pattern_file_text(patterns.drop_last()) + patterns.last() + seq!['\n']
    }
}

/// Bringing the same identities in a second time changes nothing, whatever
/// kind and note the second time gives them.
pub proof fn lemma_import_idempotent(
    table: Map<Seq<char>, RecordView>,
    ids: Seq<Seq<char>>,
    kind: PlayerType,
    notes: Seq<char>,
    kind_again: PlayerType,
    notes_again: Seq<char>,
)
    ensures
        with_imported(with_imported(table, ids, kind, notes), ids, kind_again, notes_again)
            == with_imported(table, ids, kind, notes),
{
    assert(with_imported(with_imported(table, ids, kind, notes), ids, kind_again, notes_again)
        =~= with_imported(table, ids, kind, notes));
}

/// A table without a record that says nothing has none after `upserted`
/// either, whatever record was put in.
pub proof fn lemma_upserted_keeps_informative(table: Map<Seq<char>, RecordView>, record: RecordView)
    requires
        forall|id: Seq<char>| #[trigger] table.contains_key(id) ==> !table[id].carries_nothing(),
    ensures
        forall|id: Seq<char>| #[trigger]
            upserted(table, record).contains_key(id) ==> !upserted(
                table,
                record,
            )[id].carries_nothing(),
        record.carries_nothing() ==> !upserted(table, record).contains_key(record.steamid),
{
}

/// Brings `ids` into `table` as `kind` with `notes`, leaving alone what has a
/// record.
fn import_into(table: &mut RecordTable, ids: &Vec<String>, kind: PlayerType, notes: &str)
    requires
        notes@.len() > 0,
    ensures
        final(table)@ == with_imported(old(table)@, texts(ids@), kind, notes@),
{
    let mut i: usize = 0;
    while i < ids.len()
        invariant
            0 <= i <= ids@.len(),
            notes@.len() > 0,
            table@ == with_imported(old(table)@, texts(ids@.take(i as int)), kind, notes@),
        decreases ids@.len() - i,
    {
        let id = &ids[i];
        let ghost before = table@;
        if !table.contains(id.as_str()) {
            let record = PlayerRecord {
                steamid: id.clone(),
                player_type: kind,
                notes: String::from_str(notes),
            };
            table.upsert(record);
        }
        proof {
            let done = texts(ids@.take(i as int));
            let next = texts(ids@.take(i + 1));
            assert(ids@.take(i + 1) =~= ids@.take(i as int).push(ids@[i as int]));
            lemma_texts_push(ids@.take(i as int), ids@[i as int]);
            assert(next == done.push(id@));
            assert forall|k: Seq<char>| next.contains(k) <==> done.contains(k) || k == id@ by {
                if next.contains(k) {
                    let j = choose|j: int| 0 <= j < next.len() && next[j] == k;
                    if j < done.len() {
                        assert(done[j] == k);
                    }
                }
                if done.contains(k) {
                    let j = choose|j: int| 0 <= j < done.len() && done[j] == k;
                    assert(next[j] == k);
                }
                if k == id@ {
                    assert(next[done.len() as int] == k);
                }
            }
            assert(table@ =~= with_imported(old(table)@, next, kind, notes@));
        }
        i += 1;
    }
    proof {
        assert(ids@.take(ids@.len() as int) =~= ids@);
    }
}

/// The record store.
pub struct PlayerChecker {
    /// The name patterns, in the order in which a name is held against them.
    pub bots_regx: Vec<NamePattern>,
    /// The curated records, which are saved.
    pub players: RecordTable,
    /// Records from outside lists, which are not saved.
    pub external_players: RecordTable,
}

impl Default for PlayerChecker {
    fn default() -> (checker: PlayerChecker)
        ensures
            checker.bots_regx@.len() == 0,
            checker.players@ == Map::<Seq<char>, RecordView>::empty(),
            checker.external_players@ == Map::<Seq<char>, RecordView>::empty(),
    {
        PlayerChecker::new()
    }
}

impl PlayerChecker {
    /// A store without records and patterns.
    pub fn new() -> (checker: PlayerChecker)
        ensures
            checker.bots_regx@.len() == 0,
            checker.players@ == Map::<Seq<char>, RecordView>::empty(),
            checker.external_players@ == Map::<Seq<char>, RecordView>::empty(),
    {
        PlayerChecker {
            bots_regx: Vec::new(),
            players: RecordTable::new(),
            external_players: RecordTable::new(),
        }
    }

    /// The first pattern, in the order of the list, that matches `name`;
    /// `None` where no pattern matches.
    pub fn check_player_name(&self, name: &str) -> (r: Option<&NamePattern>)
        ensures
            r is None <==> forall|i: int|
                0 <= i < self.bots_regx@.len() ==> !regex_is_match(
                    (#[trigger] self.bots_regx@[i])@,
                    name@,
                ),
            r matches Some(pattern) ==> exists|i: int|
                is_first_match(pattern_texts(self.bots_regx@), name@, i) && *pattern
                    == self.bots_regx@[i],
    {
        let mut i: usize = 0;
        while i < self.bots_regx.len()
            invariant
                0 <= i <= self.bots_regx@.len(),
                forall|j: int|
                    0 <= j < i ==> !regex_is_match((#[trigger] self.bots_regx@[j])@, name@),
            decreases self.bots_regx@.len() - i,
        {
            if self.bots_regx[i].is_match(name) {
                proof {
                    assert(is_first_match(pattern_texts(self.bots_regx@), name@, i as int));
                }
                return Some(&self.bots_regx[i]);
            }
            i += 1;
        }
        None
    }

    /// What is known of `steamid`: the curated record where there is one,
    /// else the record from outside lists, else nothing.
    pub fn check_player_steamid(&self, steamid: &str) -> (r: Option<PlayerRecord>)
        ensures
            match r {
                Some(record) => lookup(self.players@, self.external_players@, steamid@) == Some(
                    record@,
                ),
                None => lookup(self.players@, self.external_players@, steamid@) is None,
            },
    {
        match self.players.get(steamid) {
            Some(record) => Some(record.duplicate()),
            None => match self.external_players.get(steamid) {
                Some(record) => Some(record.duplicate()),
                None => None,
            },
        }
    }

    /// Puts what `player` is marked as among the curated records, as
    /// `update_player_record` does with the player's record.
    pub fn update_player(&mut self, player: &Player)
        ensures
            final(self).players@ == upserted(
                old(self).players@,
                RecordView {
                    steamid: player.steamid32@,
                    player_type: player.player_type,
                    notes: player.notes@,
                },
            ),
            final(self).external_players@ == old(self).external_players@,
            final(self).bots_regx == old(self).bots_regx,
    {
        self.update_player_record(player.get_record());
    }

    /// Puts `player` among the curated records, in place of the record of
    /// its identity. A record of kind `Player` without notes is not kept:
    /// the identity is left without a curated record instead. Afterwards no
    /// curated record says nothing.
    pub fn update_player_record(&mut self, player: PlayerRecord)
        ensures
            final(self).players@ == upserted(old(self).players@, player@),
            final(self).external_players@ == old(self).external_players@,
            final(self).bots_regx == old(self).bots_regx,
            forall|id: Seq<char>| #[trigger]
                final(self).players@.contains_key(id)
                    ==> !final(self).players@[id].carries_nothing(),
    {
        self.players.upsert(player);
    }

    /// Brings in every identity that `contents` lists, as `as_player_type`
    /// and with a note that names `filename`: into the curated records where
    /// `saved` is set, else into those from outside lists. An identity that
    /// has a record in that table keeps it. A long form without a short form
    /// is passed over.
    pub fn read_from_steamid_list_string(
        &mut self,
        contents: &str,
        as_player_type: PlayerType,
        filename: &str,
        saved: bool,
    )
        ensures
            final(self).players@ == if saved {
                with_imported(
                    old(self).players@,
                    listed_identities(contents@),
                    as_player_type,
                    import_note(filename@, as_player_type),
                )
            } else {
                old(self).players@
            },
            final(self).external_players@ == if saved {
                old(self).external_players@
            } else {
                with_imported(
                    old(self).external_players@,
                    listed_identities(contents@),
                    as_player_type,
                    import_note(filename@, as_player_type),
                )
            },
            final(self).bots_regx == old(self).bots_regx,
    {
        let text = chars_of(contents);
        let mut ids = find_steamid32(text.as_slice());
        let long_forms = find_steamid64(text.as_slice());
        let ghost found32 = texts(ids@);
        let mut i: usize = 0;
        while i < long_forms.len()
            invariant
                0 <= i <= long_forms@.len(),
                texts(ids@) == found32 + texts(long_forms@).take(i as int).filter_map(
                    |id: Seq<char>| short_form(id),
                ),
            decreases long_forms@.len() - i,
        {
            proof {
                texts(long_forms@).lemma_filter_map_take_succ(
                    |id: Seq<char>| short_form(id),
                    i as int,
                );
            }
            match steamid_64_to_32(long_forms[i].as_str()) {
                Ok(id) => {
                    proof {
                        lemma_texts_push(ids@, id);
                    }
                    ids.push(id);
                },
                Err(_) => {},
            }
            i += 1;
        }
        proof {
            assert(texts(long_forms@).take(long_forms@.len() as int) =~= texts(long_forms@));
            reveal_strlit("imported from ");
        }
        let mut notes = String::from_str("imported from ");
        notes.append(filename);
        notes.append(" as ");
        notes.append(as_player_type.name());
        if saved {
            import_into(&mut self.players, &ids, as_player_type, notes.as_str());
        } else {
            import_into(&mut self.external_players, &ids, as_player_type, notes.as_str());
        }
    }

    /// Adds the lines of `contents` that are regular expressions to the end
    /// of the pattern list, in their order, and hands back the lines that
    /// are none. Lines of white space are passed over, and white space at
    /// the ends of a line is no part of it.
    pub fn read_regex_list(&mut self, contents: &str) -> (refused: Vec<String>)
        ensures
            pattern_texts(final(self).bots_regx@) == pattern_texts(old(self).bots_regx@)
                + accepted_lines(contents@),
            texts(refused@) == refused_lines(contents@),
            final(self).players@ == old(self).players@,
            final(self).external_players@ == old(self).external_players@,
    {
        let text = chars_of(contents);
        let lines = find_filled_lines(text.as_slice());
        let mut refused: Vec<String> = Vec::new();
        let ghost ok = |line: Seq<char>| regex_compiles(line);
        let ghost bad = |line: Seq<char>| !regex_compiles(line);
        let mut i: usize = 0;
        proof {
            assert(texts(lines@).take(0) =~= Seq::<Seq<char>>::empty());
            assert(pattern_texts(self.bots_regx@) + Seq::<Seq<char>>::empty() =~= pattern_texts(
                self.bots_regx@,
            ));
            assert(texts(refused@) =~= Seq::<Seq<char>>::empty());
        }
        while i < lines.len()
            invariant
                0 <= i <= lines@.len(),
                ok == (|line: Seq<char>| regex_compiles(line)),
                bad == (|line: Seq<char>| !regex_compiles(line)),
                pattern_texts(self.bots_regx@) == pattern_texts(old(self).bots_regx@) + texts(
                    lines@,
                ).take(i as int).filter(ok),
                texts(refused@) == texts(lines@).take(i as int).filter(bad),
                self.players@ == old(self).players@,
                self.external_players@ == old(self).external_players@,
            decreases lines@.len() - i,
        {
            let ghost done = texts(lines@).take(i as int);
            proof {
                assert(texts(lines@).take(i + 1) =~= done.push(lines@[i as int]@));
                done.lemma_filter_push(lines@[i as int]@, ok);
                done.lemma_filter_push(lines@[i as int]@, bad);
            }
            match NamePattern::new(lines[i].as_str()) {
                Ok(pattern) => {
                    proof {
                        assert(pattern_texts(self.bots_regx@.push(pattern)) =~= pattern_texts(
                            self.bots_regx@,
                        ).push(pattern@));
                        assert(pattern_texts(old(self).bots_regx@) + done.filter(ok).push(
                            pattern@,
                        ) =~= (pattern_texts(old(self).bots_regx@) + done.filter(ok)).push(
                            pattern@,
                        ));
                    }
                    self.bots_regx.push(pattern);
                },
                Err(_) => {
                    let line = lines[i].clone();
                    proof {
                        lemma_texts_push(refused@, line);
                    }
                    refused.push(line);
                },
            }
            i += 1;
        }
        proof {
            assert(texts(lines@).take(lines@.len() as int) =~= texts(lines@));
        }
        refused
    }

    /// The text of the pattern file: each pattern on a line of its own, in
    /// the order of the list.
    pub fn save_regex(&self) -> (text: String)
        ensures
            text@ == pattern_file_text(pattern_texts(self.bots_regx@)),
    {
        let mut text = String::new();
        let mut i: usize = 0;
        while i < self.bots_regx.len()
            invariant
                0 <= i <= self.bots_regx@.len(),
                text@ == pattern_file_text(pattern_texts(self.bots_regx@).take(i as int)),
            decreases self.bots_regx@.len() - i,
        {
            proof {
                let all = pattern_texts(self.bots_regx@);
                assert(all.take(i + 1).drop_last() =~= all.take(i as int));
                assert(all.take(i + 1).last() == self.bots_regx@[i as int]@);
            }
            text.append(self.bots_regx[i].as_str());
            text.push('\n');
            i += 1;
        }
        proof {
            let all = pattern_texts(self.bots_regx@);
            assert(all.take(all.len() as int) =~= all);
        }
        text
    }

    /// The curated records, each once, as they are to be saved.
    pub fn save_players(&self) -> (list: Vec<PlayerRecord>)
        ensures
            lists_table(list@, self.players@),
    {
        self.players.records()
    }

    /// Puts the entries of a record list among the curated records, one
    /// after the other. An entry without identity is passed over; one whose
    /// kind is none of the four is rejected; the others go in as
    /// `update_player_record` puts them in. An error where an entry was
    /// rejected: it holds the kind words of those entries, and the others
    /// were brought in all the same.
    pub fn import_records(&mut self, entries: &Vec<RawRecord>) -> (r: Result<
        (),
        PartialImportError,
    >)
        ensures
            final(self).players@ == with_entries(old(self).players@, entries_of(entries@)),
            r is Ok <==> rejected_words(entries_of(entries@)).len() == 0,
            r matches Err(error) ==> texts(error.rejected@) == rejected_words(entries_of(entries@)),
            final(self).external_players@ == old(self).external_players@,
            final(self).bots_regx == old(self).bots_regx,
    {
        let mut rejected: Vec<String> = Vec::new();
        let ghost step = |t: Map<Seq<char>, RecordView>, e: RawFields| with_entry(t, e);
        let ghost is_bad = |e: RawFields| is_rejected(e);
        let ghost word = |e: RawFields| entry_kind_word(e);
        let ghost all = entries_of(entries@);
        let mut i: usize = 0;
        proof {
            reveal_strlit("");
            assert(all.take(0) =~= Seq::<RawFields>::empty());
            assert(texts(rejected@) =~= all.take(0).filter(is_bad).map_values(word));
        }
        while i < entries.len()
            invariant
                0 <= i <= entries@.len(),
                ""@.len() == 0,
                all == entries_of(entries@),
                step == (|t: Map<Seq<char>, RecordView>, e: RawFields| with_entry(t, e)),
                is_bad == (|e: RawFields| is_rejected(e)),
                word == (|e: RawFields| entry_kind_word(e)),
                self.players@ == all.take(i as int).fold_left(old(self).players@, step),
                texts(rejected@) == all.take(i as int).filter(is_bad).map_values(word),
                self.external_players@ == old(self).external_players@,
                self.bots_regx == old(self).bots_regx,
            decreases entries@.len() - i,
        {
            let entry = &entries[i];
            let ghost done = all.take(i as int);
            proof {
                assert(all.take(i + 1).drop_last() =~= done);
                assert(all.take(i + 1) =~= done.push(entry@));
                done.lemma_filter_push(entry@, is_bad);
            }
            let steamid: &str = match &entry.steamid {
                Some(text) => text.as_str(),
                None => "",
            };
            let kind_word: &str = match &entry.player_type {
                Some(text) => text.as_str(),
                None => "",
            };
            let notes: &str = match &entry.notes {
                Some(text) => text.as_str(),
                None => "",
            };
            proof {
                assert(steamid@ =~= entry_identity(entry@));
                assert(kind_word@ =~= entry_kind_word(entry@));
                assert(notes@ =~= entry_notes(entry@));
            }
            if !steamid.is_empty() {
                match PlayerType::from_name(kind_word) {
                    Some(kind) => {
                        self.players.upsert(PlayerRecord::new(steamid, kind, notes));
                    },
                    None => {
                        let unknown = String::from_str(kind_word);
                        proof {
                            lemma_texts_push(rejected@, unknown);
                            assert(done.filter(is_bad).push(entry@).map_values(word)
                                =~= done.filter(is_bad).map_values(word).push(kind_word@));
                        }
                        rejected.push(unknown);
                    },
                }
            }
            i += 1;
        }
        proof {
            assert(all.take(entries@.len() as int) =~= all);
        }
        if rejected.len() == 0 {
            Ok(())
        } else {
            Err(PartialImportError { rejected })
        }
    }

    /// Reads `contents` as a record file and puts its entries among the
    /// curated records, as `import_records` does. A file that is JSON but
    /// holds no list brings nothing in. `Parse`, and no change, where
    /// `contents` is no JSON; `Partial` where entries were rejected.
    pub fn read_players(&mut self, contents: &str) -> (r: Result<(), ImportError>)
        ensures
            match json_record_fields(contents@) {
                Some(Some(entries)) => {
                    &&& final(self).players@ == with_entries(old(self).players@, entries)
                    &&& r is Ok <==> rejected_words(entries).len() == 0
                    &&& r matches Err(error) ==> error matches ImportError::Partial(partial)
                        && texts(partial.rejected@) == rejected_words(entries)
                },
                Some(None) => final(self).players@ == old(self).players@ && r is Ok,
                None => final(self).players@ == old(self).players@ && r matches Err(
                    ImportError::Parse(_),
                ),
            },
            final(self).external_players@ == old(self).external_players@,
            final(self).bots_regx == old(self).bots_regx,
    {
        match parse_record_list(contents) {
            Ok(Some(entries)) => match self.import_records(&entries) {
                Ok(()) => Ok(()),
                Err(partial) => Err(ImportError::Partial(partial)),
            },
            Ok(None) => Ok(()),
            Err(error) => Err(ImportError::Parse(ParseError { message: json_error_message(&error) })),
        }
    }
}

} // verus!
