//! Bulk import: what of a source entry goes into the database, and the
//! account that is kept of every line of the source.

use crate::db::{
    insert_definition, insert_etymology, insert_pronunciation, insert_translation, insert_word,
    SCHEMA,
};
use crate::json::texts_of;
use crate::models::{RawExample, RawSense, RawSound, RawTranslation, RawWordEntry};
use crate::store::{
    execute_batch, open_with_flags, OPEN_CREATE, OPEN_NO_MUTEX, OPEN_READ_WRITE, OPEN_URI,
};
use crate::text::{trim, trimmed};
use crate::DictError;
use rusqlite::Connection;
use vstd::prelude::*;

verus! {

/// After how many lines the progress is reported.
pub const PROGRESS_INTERVAL: u64 = 1000;

/// After how many lines what was written is committed.
pub const COMMIT_INTERVAL: u64 = 10000;

/// The account of an import.
#[derive(Debug, Clone, Copy, PartialEq, Eq, Structural)]
pub struct ImportStats {
    /// Total number of lines processed.
    pub lines_processed: u64,
    /// Number of words imported.
    pub words_imported: u64,
    /// Number of definitions imported.
    pub definitions_imported: u64,
    /// Number of pronunciations imported.
    pub pronunciations_imported: u64,
    /// Number of etymologies imported.
    pub etymologies_imported: u64,
    /// Number of translations imported.
    pub translations_imported: u64,
    /// Number of lines that could not be read, parsed or stored.
    pub errors: u64,
    /// Number of lines skipped for being blank.
    pub skipped: u64,
}

/// What one entry brought into the database.
#[derive(Debug, Clone, Copy, PartialEq, Eq, Structural)]
pub struct EntryStats {
    pub definitions: u64,
    pub pronunciations: u64,
    pub etymologies: u64,
    pub translations: u64,
}

/// A line of an import source, as its reader hands it over.
pub struct SourceLine {
    /// The line, or nothing where reading it failed.
    pub text: Option<String>,
    /// The entry that the line holds, or nothing where it holds none that
    /// can be read.
    pub entry: Option<RawWordEntry>,
}

/// What a line of an import source is to the import.
#[derive(Debug, Clone, Copy, PartialEq, Eq, Structural)]
pub enum LineKind {
    /// The line could not be read.
    Unreadable,
    /// The line holds nothing but whitespace.
    Blank,
    /// The line holds no entry that can be read.
    Malformed,
    /// The line holds an entry.
    Entry,
}

/// What became of a line of an import source.
#[derive(Debug, Clone, Copy, PartialEq, Eq, Structural)]
pub enum LineOutcome {
    /// The line was passed over.
    Skipped,
    /// The line could not be read, parsed or stored.
    Failed,
    /// The line's entry went into the database, and brought this.
    Imported(EntryStats),
}

/// The sum of two counts, or the largest count where the sum is beyond it.
pub open spec fn capped_sum(a: u64, b: u64) -> u64 {
    if a + b > u64::MAX {
        u64::MAX
    } else {
        (a + b) as u64
    }
}

/// What a line is to the import: blank lines are told before anything is
/// asked of their content.
pub open spec fn kind_of(line: SourceLine) -> LineKind {
    match line.text {
        None => LineKind::Unreadable,
        Some(text) => if trimmed(text@).len() == 0 {
            LineKind::Blank
        } else if line.entry is None {
            LineKind::Malformed
        } else {
            LineKind::Entry
        },
    }
}

/// The definition that a sense gives: its first gloss, else its first raw
/// gloss, else nothing.
pub open spec fn definition_text_of(sense: RawSense) -> Seq<char> {
    if sense.glosses@.len() > 0 {
        sense.glosses@[0]@
    } else if sense.raw_glosses@.len() > 0 {
        sense.raw_glosses@[0]@
    } else {
        Seq::empty()
    }
}

/// How many of `senses` give a definition.
pub open spec fn defined_senses(senses: Seq<RawSense>) -> nat
    decreases senses.len(),
{
    if senses.len() == 0 {
        0
    } else if definition_text_of(senses.last()).len() > 0 {
        defined_senses(senses.drop_last()) + 1
    } else {
        defined_senses(senses.drop_last())
    }
}

/// How many of `sounds` have a transcription.
pub open spec fn transcribed_sounds(sounds: Seq<RawSound>) -> nat
    decreases sounds.len(),
{
    if sounds.len() == 0 {
        0
    } else if sounds.last().ipa is Some {
        transcribed_sounds(sounds.drop_last()) + 1
    } else {
        transcribed_sounds(sounds.drop_last())
    }
}

/// How many of `translations` name a word.
pub open spec fn worded_translations(translations: Seq<RawTranslation>) -> nat
    decreases translations.len(),
{
    if translations.len() == 0 {
        0
    } else if translations.last().word@.len() > 0 {
        worded_translations(translations.drop_last()) + 1
    } else {
        worded_translations(translations.drop_last())
    }
}

/// Whether an entry has an etymology to store.
pub open spec fn has_etymology(entry: RawWordEntry) -> bool {
    entry.etymology_text matches Some(text) && text@.len() > 0
}

/// What an entry brings into the database when all of it is stored.
pub open spec fn entry_counts(entry: RawWordEntry) -> EntryStats {
    EntryStats {
        definitions: defined_senses(entry.senses@) as u64,
        pronunciations: transcribed_sounds(entry.sounds@) as u64,
        etymologies: if has_etymology(entry) {
            1
        } else {
            0
        },
        translations: worded_translations(entry.translations@) as u64,
    }
}

/// The audio of a sound that is stored: OGG where there is one, else MP3,
/// else whatever audio is named.
pub open spec fn preferred_audio(sound: RawSound) -> Option<String> {
    if sound.ogg_url is Some {
        sound.ogg_url
    } else if sound.mp3_url is Some {
        sound.mp3_url
    } else {
        sound.audio
    }
}

/// The language a translation is stored under: its code, or the language's
/// name where it has no code.
pub open spec fn translation_language_of(translation: RawTranslation) -> Seq<char> {
    if translation.code@.len() == 0 {
        translation.lang@
    } else {
        translation.code@
    }
}

/// Whether `outcome` is one that the line can have: a blank line is
/// skipped, a line that cannot be read or parsed fails, and an entry either
/// fails as a whole or brings all that it holds.
pub open spec fn may_come_of(line: SourceLine, outcome: LineOutcome) -> bool {
    match kind_of(line) {
        LineKind::Blank => outcome == LineOutcome::Skipped,
        LineKind::Unreadable => outcome == LineOutcome::Failed,
        LineKind::Malformed => outcome == LineOutcome::Failed,
        LineKind::Entry => outcome == LineOutcome::Failed || outcome == LineOutcome::Imported(
            entry_counts(line.entry->0),
        ),
    }
}

/// The account with nothing in it.
pub open spec fn empty_account() -> ImportStats {
    ImportStats {
        lines_processed: 0,
        words_imported: 0,
        definitions_imported: 0,
        pronunciations_imported: 0,
        etymologies_imported: 0,
        translations_imported: 0,
        errors: 0,
        skipped: 0,
    }
}

/// The account `stats` after a line with the outcome `outcome`.
pub open spec fn tallied(stats: ImportStats, outcome: LineOutcome) -> ImportStats {
    let counted = ImportStats { lines_processed: capped_sum(stats.lines_processed, 1), ..stats };
    match outcome {
        LineOutcome::Skipped => ImportStats { skipped: capped_sum(stats.skipped, 1), ..counted },
        LineOutcome::Failed => ImportStats { errors: capped_sum(stats.errors, 1), ..counted },
        LineOutcome::Imported(entry) => ImportStats {
            words_imported: capped_sum(stats.words_imported, 1),
            definitions_imported: capped_sum(stats.definitions_imported, entry.definitions),
            pronunciations_imported: capped_sum(
                stats.pronunciations_imported,
                entry.pronunciations,
            ),
            etymologies_imported: capped_sum(stats.etymologies_imported, entry.etymologies),
            translations_imported: capped_sum(stats.translations_imported, entry.translations),
            ..counted
        },
    }
}

/// The account of lines with the outcomes `outcomes`.
pub open spec fn tally(outcomes: Seq<LineOutcome>) -> ImportStats
    decreases outcomes.len(),
{
    if outcomes.len() == 0 {
        empty_account()
    } else {
        tallied(tally(outcomes.drop_last()), outcomes.last())
    }
}

/// How many of `outcomes` are `which`, entries counted as one kind.
pub open spec fn count_outcomes(outcomes: Seq<LineOutcome>, which: LineOutcome) -> nat
    decreases outcomes.len(),
{
    if outcomes.len() == 0 {
        0
    } else {
        let same = match which {
            LineOutcome::Skipped => outcomes.last() is Skipped,
            LineOutcome::Failed => outcomes.last() is Failed,
            LineOutcome::Imported(_) => outcomes.last() is Imported,
        };
        if same {
            count_outcomes(outcomes.drop_last(), which) + 1
        } else {
            count_outcomes(outcomes.drop_last(), which)
        }
    }
}

/// Every line is accounted for once: as a word, an error or a skipped line.
pub proof fn lemma_tally_accounts(outcomes: Seq<LineOutcome>)
    requires
        outcomes.len() <= u64::MAX,
    ensures
        tally(outcomes).lines_processed == outcomes.len(),
        tally(outcomes).words_imported + tally(outcomes).errors + tally(outcomes).skipped
            == outcomes.len(),
        tally(outcomes).skipped == count_outcomes(outcomes, LineOutcome::Skipped),
        tally(outcomes).errors == count_outcomes(outcomes, LineOutcome::Failed),
    decreases outcomes.len(),
{
    if outcomes.len() > 0 {
        lemma_tally_accounts(outcomes.drop_last());
    }
}

impl Default for ImportStats {
    fn default() -> (stats: ImportStats)
        ensures
            stats == empty_account(),
    {
        ImportStats {
            lines_processed: 0,
            words_imported: 0,
            definitions_imported: 0,
            pronunciations_imported: 0,
            etymologies_imported: 0,
            translations_imported: 0,
            errors: 0,
            skipped: 0,
        }
    }
}

impl ImportStats {
    /// Enters a line with the outcome `outcome` into the account.
    pub fn record(&mut self, outcome: LineOutcome)
        ensures
            *final(self) == tallied(*old(self), outcome),
    {
        self.lines_processed = self.lines_processed.saturating_add(1);
        match outcome {
            LineOutcome::Skipped => {
                self.skipped = self.skipped.saturating_add(1);
            },
            LineOutcome::Failed => {
                self.errors = self.errors.saturating_add(1);
            },
            LineOutcome::Imported(entry) => {
                self.words_imported = self.words_imported.saturating_add(1);
                self.definitions_imported = self.definitions_imported.saturating_add(
                    entry.definitions,
                );
                self.pronunciations_imported = self.pronunciations_imported.saturating_add(
                    entry.pronunciations,
                );
                self.etymologies_imported = self.etymologies_imported.saturating_add(
                    entry.etymologies,
                );
                self.translations_imported = self.translations_imported.saturating_add(
                    entry.translations,
                );
            },
        }
    }
}

/// What a line is to the import.
pub fn classify(line: &SourceLine) -> (kind: LineKind)
    ensures
        kind == kind_of(*line),
{
    match &line.text {
        None => LineKind::Unreadable,
        Some(text) => {
            if trim(text.as_str()).as_str().is_empty() {
                LineKind::Blank
            } else if line.entry.is_none() {
                LineKind::Malformed
            } else {
                LineKind::Entry
            }
        },
    }
}

/// The definition that a sense gives: its first gloss, else its first raw
/// gloss, else the empty text.
pub fn definition_text(sense: &RawSense) -> (text: &str)
    ensures
        text@ == definition_text_of(*sense),
{
    if sense.glosses.len() > 0 {
        sense.glosses[0].as_str()
    } else if sense.raw_glosses.len() > 0 {
        sense.raw_glosses[0].as_str()
    } else {
        proof {
            reveal_strlit("");
            assert(""@ =~= Seq::empty());
        }
        ""
    }
}

/// The texts of a sense's examples.
pub fn example_texts(examples: &Vec<RawExample>) -> (texts: Vec<String>)
    ensures
        texts_of(texts@) == examples@.map_values(|e: RawExample| e.text@),
{
    let mut texts: Vec<String> = Vec::new();
    let n = examples.len();
    let mut i: usize = 0;
    while i < n
        invariant
            i <= n,
            n == examples@.len(),
            texts@.len() == i,
            forall|k: int| 0 <= k < i ==> (#[trigger] texts@[k])@ == examples@[k].text@,
        decreases n - i,
    {
        texts.push(examples[i].text.clone());
        i += 1;
    }
    proof {
        assert(texts_of(texts@) =~= examples@.map_values(|e: RawExample| e.text@));
    }
    texts
}

/// The audio of a sound that is stored: OGG where there is one, else MP3,
/// else whatever audio is named.
pub fn get_audio_url(sound: &RawSound) -> (url: Option<String>)
    ensures
        url == preferred_audio(*sound),
{
    match &sound.ogg_url {
        Some(ogg) => Some(ogg.clone()),
        None => match &sound.mp3_url {
            Some(mp3) => Some(mp3.clone()),
            None => match &sound.audio {
                Some(audio) => Some(audio.clone()),
                None => None,
            },
        },
    }
}

/// The language a translation is stored under.
pub fn translation_language(translation: &RawTranslation) -> (language: &str)
    ensures
        language@ == translation_language_of(*translation),
{
    if translation.code.as_str().is_empty() {
        translation.lang.as_str()
    } else {
        translation.code.as_str()
    }
}

/// Sets up a connection for a fast bulk import: durability is traded for
/// speed, as the database can be built again from its source.
fn configure_for_import(conn: &Connection) -> (r: Result<(), DictError>)
    ensures
        r matches Err(e) ==> e is Database,
{
    match execute_batch(
        conn,
        r#"
        PRAGMA journal_mode = WAL;
        PRAGMA synchronous = NORMAL;
        PRAGMA cache_size = -64000;  -- 64MB cache
        PRAGMA temp_store = MEMORY;
        "#,
    ) {
        Ok(_) => Ok(()),
        Err(e) => Err(DictError::Database(e)),
    }
}

/// Stores one entry: the word, every sense that gives a definition, every
/// sound that has a transcription, the etymology if there is one, and every
/// translation that names a word. It stops at the first thing that cannot be
/// stored; where nothing fails, it returns what the entry brought.
pub fn import_entry_with_stats(conn: &Connection, entry: &RawWordEntry) -> (r: Result<
    EntryStats,
    DictError,
>)
    ensures
        r matches Err(e) ==> e is Database || e is Json,
        r matches Ok(stats) ==> stats == entry_counts(*entry),
{
    let etymology_num: i32 = match entry.etymology_number {
        Some(number) => number,
        None => 0,
    };
    let word_id = match insert_word(
        conn,
        entry.word.as_str(),
        entry.pos.as_str(),
        entry.lang.as_str(),
        etymology_num,
    ) {
        Ok(id) => id,
        Err(e) => {
            return Err(e);
        },
    };

    let mut definitions: u64 = 0;
    let senses = entry.senses.len();
    let mut i: usize = 0;
    proof {
        assert(entry.senses@.take(0) =~= Seq::empty());
    }
    while i < senses
        invariant
            i <= senses,
            senses == entry.senses@.len(),
            definitions == defined_senses(entry.senses@.take(i as int)),
            definitions <= i,
        decreases senses - i,
    {
        let sense = &entry.senses[i];
        proof {
            assert(entry.senses@.take(i + 1).drop_last() =~= entry.senses@.take(i as int));
        }
        let text = definition_text(sense);
        if !text.is_empty() {
            let examples = example_texts(&sense.examples);
            match insert_definition(
                conn,
                word_id,
                text,
                examples.as_slice(),
                sense.tags.as_slice(),
            ) {
                Ok(_) => {},
                Err(e) => {
                    return Err(e);
                },
            }
            definitions += 1;
        }
        i += 1;
    }

    let mut pronunciations: u64 = 0;
    let sounds = entry.sounds.len();
    let mut i: usize = 0;
    proof {
        assert(entry.senses@.take(senses as int) =~= entry.senses@);
        assert(entry.sounds@.take(0) =~= Seq::empty());
    }
    while i < sounds
        invariant
            i <= sounds,
            sounds == entry.sounds@.len(),
            pronunciations == transcribed_sounds(entry.sounds@.take(i as int)),
            pronunciations <= i,
        decreases sounds - i,
    {
        let sound = &entry.sounds[i];
        proof {
            assert(entry.sounds@.take(i + 1).drop_last() =~= entry.sounds@.take(i as int));
        }
        match &sound.ipa {
            Some(ipa) => {
                let audio_url = get_audio_url(sound);
                let audio: Option<&str> = match &audio_url {
                    Some(url) => Some(url.as_str()),
                    None => None,
                };
                let accent: Option<&str> = if sound.tags.len() > 0 {
                    Some(sound.tags[0].as_str())
                } else {
                    None
                };
                match insert_pronunciation(conn, word_id, Some(ipa.as_str()), audio, accent) {
                    Ok(_) => {},
                    Err(e) => {
                        return Err(e);
                    },
                }
                pronunciations += 1;
            },
            None => {},
        }
        i += 1;
    }

    let mut etymologies: u64 = 0;
    match &entry.etymology_text {
        Some(text) => {
            if !text.as_str().is_empty() {
                match insert_etymology(conn, word_id, text.as_str()) {
                    Ok(_) => {},
                    Err(e) => {
                        return Err(e);
                    },
                }
                etymologies += 1;
            }
        },
        None => {},
    }

    let mut translations: u64 = 0;
    let count = entry.translations.len();
    let mut i: usize = 0;
    proof {
        assert(entry.sounds@.take(sounds as int) =~= entry.sounds@);
        assert(entry.translations@.take(0) =~= Seq::empty());
    }
    while i < count
        invariant
            i <= count,
            count == entry.translations@.len(),
            translations == worded_translations(entry.translations@.take(i as int)),
            translations <= i,
        decreases count - i,
    {
        let translation = &entry.translations[i];
        proof {
            assert(entry.translations@.take(i + 1).drop_last() =~= entry.translations@.take(
                i as int,
            ));
        }
        if !translation.word.as_str().is_empty() {
            match insert_translation(
                conn,
                word_id,
                translation_language(translation),
                translation.word.as_str(),
            ) {
                Ok(_) => {},
                Err(e) => {
                    return Err(e);
                },
            }
            translations += 1;
        }
        i += 1;
    }
    proof {
        assert(entry.translations@.take(count as int) =~= entry.translations@);
    }
    Ok(EntryStats { definitions, pronunciations, etymologies, translations })
}

/// Handles one line of an import source, given what the line is: a blank
/// line is skipped, a line without an entry fails, and an entry is stored.
fn import_line_of_kind(conn: &Connection, line: &SourceLine, kind: LineKind) -> (outcome:
    LineOutcome)
    requires
        kind == kind_of(*line),
    ensures
        may_come_of(*line, outcome),
{
    match kind {
        LineKind::Unreadable => LineOutcome::Failed,
        LineKind::Blank => LineOutcome::Skipped,
        LineKind::Malformed => LineOutcome::Failed,
        LineKind::Entry => match &line.entry {
            Some(entry) => match import_entry_with_stats(conn, entry) {
                Ok(stats) => LineOutcome::Imported(stats),
                Err(_) => LineOutcome::Failed,
            },
            None => LineOutcome::Failed,
        },
    }
}

/// Handles one line of an import source: a blank line is skipped, a line
/// without an entry fails, and an entry is stored.
pub fn import_line(conn: &Connection, line: &SourceLine) -> (outcome: LineOutcome)
    ensures
        may_come_of(*line, outcome),
{
    import_line_of_kind(conn, line, classify(line))
}

/// Whether `stats` is an account of `lines`: the tally of outcomes that the
/// lines can have, one for each line in order.
pub open spec fn accounts_for(stats: ImportStats, lines: Seq<SourceLine>) -> bool {
    exists|outcomes: Seq<LineOutcome>|
        {
            &&& outcomes.len() == lines.len()
            &&& forall|i: int|
                0 <= i < lines.len() ==> may_come_of(lines[i], #[trigger] outcomes[i])
            &&& stats == tally(outcomes)
        }
}

/// What taking one line into an import came to.
#[derive(Debug, Clone, Copy, PartialEq, Eq, Structural)]
pub struct Step {
    /// What became of the line.
    pub outcome: LineOutcome,
    /// How many lines the import has handled, this one counted.
    pub processed: u64,
    /// Whether the progress is to be told now: after every thousand lines.
    pub report: bool,
}

/// An import that is under way: the database it writes to and the account
/// of the lines it has taken so far. Lines are handed over one by one, so a
/// source of any size can be read as it is imported.
pub struct Importer {
    conn: Connection,
    stats: ImportStats,
}

impl Importer {
    /// The account so far.
    pub closed spec fn account(&self) -> ImportStats {
        self.stats
    }

    /// Opens the database at `db_path`, creating it if it is not there, sets
    /// it up for a bulk import and begins the first transaction.
    pub fn open(db_path: &str) -> (r: Result<Importer, DictError>)
        ensures
            r matches Err(e) ==> e is Database,
            r matches Ok(importer) ==> importer.account() == empty_account(),
    {
        let conn = match open_with_flags(
            db_path,
            OPEN_READ_WRITE | OPEN_CREATE | OPEN_URI | OPEN_NO_MUTEX,
        ) {
            Ok(conn) => conn,
            Err(e) => {
                return Err(DictError::Database(e));
            },
        };
        match configure_for_import(&conn) {
            Ok(_) => {},
            Err(e) => {
                return Err(e);
            },
        }
        match execute_batch(&conn, SCHEMA) {
            Ok(_) => {},
            Err(e) => {
                return Err(DictError::Database(e));
            },
        }
        match execute_batch(&conn, "BEGIN TRANSACTION") {
            Ok(_) => {},
            Err(e) => {
                return Err(DictError::Database(e));
            },
        }
        Ok(Importer { conn, stats: ImportStats::default() })
    }

    /// Takes one line: a blank line is skipped, a line without an entry
    /// fails, an entry is stored, and the outcome is entered into the
    /// account. After every ten-thousandth line, if that line holds an
    /// entry, what was written is committed; the import fails only where
    /// that cannot be done, and the line is in the account all the same.
    pub fn take(&mut self, line: &SourceLine) -> (r: Result<Step, DictError>)
        ensures
            exists|outcome: LineOutcome| #[trigger]
                may_come_of(*line, outcome) && final(self).account() == tallied(
                    old(self).account(),
                    outcome,
                ),
            r matches Err(e) ==> e is Database,
            r matches Ok(step) ==> {
                &&& may_come_of(*line, step.outcome)
                &&& final(self).account() == tallied(old(self).account(), step.outcome)
                &&& step.processed == final(self).account().lines_processed
                &&& step.report == (step.processed % PROGRESS_INTERVAL == 0)
            },
    {
        let kind = classify(line);
        let outcome = import_line_of_kind(&self.conn, line, kind);
        self.stats.record(outcome);
        assert(may_come_of(*line, outcome));
        let processed = self.stats.lines_processed;
        let reached_store = match kind {
            LineKind::Entry => true,
            _ => false,
        };
        if reached_store && processed % COMMIT_INTERVAL == 0 {
            match execute_batch(&self.conn, "COMMIT; BEGIN TRANSACTION") {
                Ok(_) => {},
                Err(e) => {
                    return Err(DictError::Database(e));
                },
            }
        }
        Ok(Step { outcome, processed, report: processed % PROGRESS_INTERVAL == 0 })
    }

    /// Commits what was written and returns the account of the import.
    pub fn finish(self) -> (r: Result<ImportStats, DictError>)
        ensures
            r matches Err(e) ==> e is Database,
            r matches Ok(stats) ==> stats == self.account(),
    {
        match execute_batch(&self.conn, "COMMIT") {
            Ok(_) => Ok(self.stats),
            Err(e) => Err(DictError::Database(e)),
        }
    }
}

/// Imports the lines of a source into the database at `db_path`, which is
/// created if it is not there, and returns the account of the import.
///
/// `progress` is told the number of lines handled and the number of lines
/// there are, after every thousand lines and at the end. What was written is
/// committed at the end, and after every ten-thousandth line if that line
/// holds an entry. A line that fails is entered into the account, and the
/// import goes on; the import itself fails only where the database cannot be
/// opened, set up or committed to.
pub fn import_from_jsonl_with_stats(
    db_path: &str,
    lines: &Vec<SourceLine>,
    progress: impl Fn(u64, u64),
) -> (r: Result<ImportStats, DictError>)
    requires
        forall|current: u64, total: u64| call_requires(progress, (current, total)),
    ensures
        r matches Err(e) ==> e is Database,
        r matches Ok(stats) ==> accounts_for(stats, lines@),
{
    let total_lines: u64 = lines.len() as u64;
    let mut importer = match Importer::open(db_path) {
        Ok(importer) => importer,
        Err(e) => {
            return Err(e);
        },
    };
    let ghost mut outcomes = Seq::<LineOutcome>::empty();
    let n = lines.len();
    let mut i: usize = 0;
    while i < n
        invariant
            i <= n,
            n == lines@.len(),
            outcomes.len() == i,
            forall|k: int| 0 <= k < i ==> may_come_of(lines@[k], #[trigger] outcomes[k]),
            importer.account() == tally(outcomes),
            forall|current: u64, total: u64| call_requires(progress, (current, total)),
        decreases n - i,
    {
        let step = match importer.take(&lines[i]) {
            Ok(step) => step,
            Err(e) => {
                return Err(e);
            },
        };
        proof {
            let before = outcomes;
            outcomes = outcomes.push(step.outcome);
            assert(outcomes.drop_last() =~= before);
        }
        if step.report {
            progress(step.processed, total_lines);
        }
        i += 1;
    }
    let stats = match importer.finish() {
        Ok(stats) => stats,
        Err(e) => {
            return Err(e);
        },
    };
    progress(stats.lines_processed, total_lines);
    Ok(stats)
}

/// Imports the lines of a source into the database at `db_path`; as
/// `import_from_jsonl_with_stats`, without the account.
pub fn import_from_jsonl(db_path: &str, lines: &Vec<SourceLine>, progress: impl Fn(u64, u64)) -> (r:
    Result<(), DictError>)
    requires
        forall|current: u64, total: u64| call_requires(progress, (current, total)),
    ensures
        r matches Err(e) ==> e is Database,
{
    match import_from_jsonl_with_stats(db_path, lines, progress) {
        Ok(_) => Ok(()),
        Err(e) => Err(e),
    }
}

} // verus!
