//! The data of a dictionary: search results, stored entries and what an
//! import source holds for each word.

use vstd::prelude::*;
use vstd::string::StringExecFns;

verus! {

/// What one unit of a relevance score is worth: scores are fixed-point
/// numbers in millionths, so `SCORE_UNIT` stands for 1.0.
pub const SCORE_UNIT: u128 = 1_000_000;

/// A search result entry returned from search queries.
#[derive(Debug, Clone)]
pub struct SearchResult {
    /// Unique identifier of the word entry: results are told apart by it.
    pub id: i64,
    /// The word itself.
    pub word: String,
    /// Part of speech (noun, verb, adjective, ...).
    pub pos: String,
    /// Preview text: the first definition, shortened.
    pub preview: String,
    /// Relevance score in millionths; lower is better, 0 is an exact match.
    pub score: u128,
}

/// A search result as the contracts see it.
pub struct Hit {
    pub id: i64,
    pub word: Seq<char>,
    pub pos: Seq<char>,
    pub preview: Seq<char>,
    pub score: u128,
}

impl View for SearchResult {
    type V = Hit;

    open spec fn view(&self) -> Hit {
        Hit {
            id: self.id,
            word: self.word@,
            pos: self.pos@,
            preview: self.preview@,
            score: self.score,
        }
    }
}

/// The results in `results` as the contracts see them.
pub open spec fn hits(results: Seq<SearchResult>) -> Seq<Hit> {
    results.map_values(|r: SearchResult| r@)
}

/// A word entry from the store, without definitions or other related data.
#[derive(Debug, Clone)]
pub struct Word {
    /// Unique identifier of the word entry.
    pub id: i64,
    /// The word itself.
    pub word: String,
    /// Part of speech.
    pub pos: String,
    /// Language of the word.
    pub language: String,
    /// Etymology number, for words with several etymologies.
    pub etymology_num: i32,
}

/// Everything the store holds about one word.
#[derive(Debug, Clone)]
pub struct FullDefinition {
    /// The word itself.
    pub word: String,
    /// Part of speech.
    pub pos: String,
    /// Language of the word.
    pub language: String,
    /// Language code (e.g. "en", "fr").
    pub lang_code: String,
    /// Definitions, one per meaning.
    pub definitions: Vec<Definition>,
    /// Pronunciations.
    pub pronunciations: Vec<Pronunciation>,
    /// Etymology text, if there is one.
    pub etymology: Option<String>,
    /// Translations into other languages.
    pub translations: Vec<Translation>,
}

/// A single meaning of a word.
#[derive(Debug, Clone)]
pub struct Definition {
    /// Unique identifier of the definition.
    pub id: i64,
    /// The definition text.
    pub text: String,
    /// Example sentences.
    pub examples: Vec<String>,
    /// Labels (formal, slang, archaic, ...).
    pub tags: Vec<String>,
}

/// How a word is pronounced.
#[derive(Debug, Clone)]
pub struct Pronunciation {
    /// Unique identifier.
    pub id: i64,
    /// IPA transcription.
    pub ipa: Option<String>,
    /// Where an audio file can be had.
    pub audio_url: Option<String>,
    /// Regional accent (US, UK, AU, ...).
    pub accent: Option<String>,
}

/// A translation of a word into another language.
#[derive(Debug, Clone)]
pub struct Translation {
    /// Unique identifier.
    pub id: i64,
    /// Target language code.
    pub target_language: String,
    /// The translated word or phrase.
    pub translation: String,
}

/// A word entry as an import source gives it.
#[derive(Debug, Clone)]
pub struct RawWordEntry {
    /// The word being defined.
    pub word: String,
    /// Part of speech.
    pub pos: String,
    /// Language of the entry.
    pub lang: String,
    /// Language code.
    pub lang_code: String,
    /// Etymology number, for words with several etymologies.
    pub etymology_number: Option<i32>,
    /// Etymology text.
    pub etymology_text: Option<String>,
    /// Senses, one per meaning.
    pub senses: Vec<RawSense>,
    /// Pronunciations.
    pub sounds: Vec<RawSound>,
    /// Translations.
    pub translations: Vec<RawTranslation>,
}

/// One sense of a word in an import source.
#[derive(Debug, Clone)]
pub struct RawSense {
    /// The definition text, cleaned.
    pub glosses: Vec<String>,
    /// The definition text as it was written.
    pub raw_glosses: Vec<String>,
    /// Example sentences.
    pub examples: Vec<RawExample>,
    /// Labels.
    pub tags: Vec<String>,
}

/// An example sentence in an import source.
#[derive(Debug, Clone)]
pub struct RawExample {
    /// The example text.
    pub text: String,
}

/// A pronunciation in an import source.
#[derive(Debug, Clone)]
pub struct RawSound {
    /// IPA transcription.
    pub ipa: Option<String>,
    /// Audio file, format unknown.
    pub audio: Option<String>,
    /// Audio file in OGG.
    pub ogg_url: Option<String>,
    /// Audio file in MP3.
    pub mp3_url: Option<String>,
    /// Regional labels.
    pub tags: Vec<String>,
}

/// A translation in an import source.
#[derive(Debug, Clone)]
pub struct RawTranslation {
    /// Target language.
    pub lang: String,
    /// Target language code.
    pub code: String,
    /// The translation.
    pub word: String,
}

/// The language of an entry that names none.
pub fn default_language() -> (r: String)
    ensures
        r@ == "English"@,
{
    String::from_str("English")
}

impl SearchResult {
    /// A result with the best score there is.
    pub fn new(id: i64, word: String, pos: String, preview: String) -> (r: SearchResult)
        ensures
            r.id == id,
            r.word == word,
            r.pos == pos,
            r.preview == preview,
            r.score == 0,
    {
        SearchResult { id, word, pos, preview, score: 0 }
    }

    /// A result with the score given, in millionths.
    pub fn with_score(id: i64, word: String, pos: String, preview: String, score: u128) -> (r:
        SearchResult)
        ensures
            r.id == id,
            r.word == word,
            r.pos == pos,
            r.preview == preview,
            r.score == score,
    {
        SearchResult { id, word, pos, preview, score }
    }
}

impl FullDefinition {
    /// A definition of the word given that has nothing in it yet.
    pub fn new(word: String, pos: String, language: String, lang_code: String) -> (r:
        FullDefinition)
        ensures
            r.word == word,
            r.pos == pos,
            r.language == language,
            r.lang_code == lang_code,
            r.definitions@.len() == 0,
            r.pronunciations@.len() == 0,
            r.etymology is None,
            r.translations@.len() == 0,
    {
        FullDefinition {
            word,
            pos,
            language,
            lang_code,
            definitions: Vec::new(),
            pronunciations: Vec::new(),
            etymology: None,
            translations: Vec::new(),
        }
    }
}

} // verus!
