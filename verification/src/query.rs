//! Query preparation: trimming, the full-text query and the `LIKE` patterns
//! that the tiers hand to the store.

use crate::text::{
    chars_of, lowercase, split_whitespace, string_of, trim, trimmed, word_views, words_of,
};
use vstd::prelude::*;

verus! {

/// A query that is ready for the tiers.
pub struct Query {
    /// The query without surrounding whitespace, in the case it was typed in.
    pub text: String,
    /// The same in lowercase: what the fuzzy tier compares against.
    pub lowered: String,
}

/// What one character of a query becomes in a full-text query: a quote is
/// doubled, and `*`, `^` and `:` give way to a space.
pub open spec fn escaped_char(c: char) -> Seq<char> {
    if c == '"' {
        seq!['"', '"']
    } else if c == '*' || c == '^' || c == ':' {
        seq![' ']
    } else {
        seq![c]
    }
}

/// `s` with every character escaped for the full-text index.
pub open spec fn escaped(s: Seq<char>) -> Seq<char>
    decreases s.len(),
{
    if s.len() == 0 {
        Seq::empty()
    } else {
        escaped(s.drop_last()) + escaped_char(s.last())
    }
}

/// The words as prefix terms: each followed by `*`, with one space between
/// two terms.
pub open spec fn prefix_terms(words: Seq<Seq<char>>) -> Seq<char>
    decreases words.len(),
{
    if words.len() == 0 {
        Seq::empty()
    } else if words.len() == 1 {
        words[0].push('*')
    } else {
        prefix_terms(words.drop_last()) + seq![' '] + words.last().push('*')
    }
}

/// The full-text query for what the user typed: the escaped text, split at
/// whitespace, as prefix terms. Empty when nothing but whitespace is left.
pub open spec fn fts_query(query: Seq<char>) -> Seq<char> {
    prefix_terms(split_whitespace(escaped(query)))
}

/// The full-text query is empty just when the escaped text has no word in
/// it.
pub proof fn lemma_fts_query_empty(query: Seq<char>)
    ensures
        fts_query(query).len() == 0 <==> split_whitespace(escaped(query)).len() == 0,
{
    let words = split_whitespace(escaped(query));
    if words.len() > 0 {
        assert(prefix_terms(words).len() > 0);
    }
}

/// The character that, in a pattern, has the character after it stand for
/// itself.
pub const LIKE_ESCAPE: char = '\\';

/// Whether `c` means something else than itself in a pattern: the two
/// wildcards and the escape character.
pub open spec fn is_like_special(c: char) -> bool {
    c == '%' || c == '_' || c == LIKE_ESCAPE
}

/// What stands for the character `c` itself in a pattern.
pub open spec fn literal_char(c: char) -> Seq<char> {
    if is_like_special(c) {
        seq![LIKE_ESCAPE, c]
    } else {
        seq![c]
    }
}

/// What stands for the text `s` itself in a pattern: nothing in it is a
/// wildcard.
pub open spec fn literal(s: Seq<char>) -> Seq<char>
    decreases s.len(),
{
    if s.len() == 0 {
        Seq::empty()
    } else {
        literal(s.drop_last()) + literal_char(s.last())
    }
}

/// The text that a pattern spells out when every character behind an escape
/// character is taken for itself.
pub open spec fn spelled_out(pattern: Seq<char>) -> Seq<char>
    decreases pattern.len(),
{
    if pattern.len() == 0 {
        Seq::empty()
    } else if pattern[0] == LIKE_ESCAPE && pattern.len() >= 2 {
        seq![pattern[1]] + spelled_out(pattern.skip(2))
    } else {
        seq![pattern[0]] + spelled_out(pattern.skip(1))
    }
}

/// What stands for a text begins with what stands for its first character.
pub proof fn lemma_literal_front(s: Seq<char>)
    requires
        s.len() > 0,
    ensures
        literal(s) == literal_char(s[0]) + literal(s.drop_first()),
    decreases s.len(),
{
    if s.len() == 1 {
        assert(s.drop_last() =~= Seq::empty());
        assert(s.drop_first() =~= Seq::empty());
        assert(literal(s) =~= literal_char(s[0]) + literal(s.drop_first()));
    } else {
        lemma_literal_front(s.drop_last());
        assert(s.drop_last().drop_first() =~= s.drop_first().drop_last());
        assert(s.drop_first().last() == s.last());
        assert(literal(s) =~= literal_char(s[0]) + literal(s.drop_first()));
    }
}

/// Escaping loses nothing and adds no wildcard: what stands for a text
/// spells out that text again.
pub proof fn lemma_literal_spells_out(s: Seq<char>)
    ensures
        spelled_out(literal(s)) == s,
    decreases s.len(),
{
    if s.len() == 0 {
        assert(spelled_out(literal(s)) =~= s);
    } else {
        let rest = literal(s.drop_first());
        lemma_literal_front(s);
        lemma_literal_spells_out(s.drop_first());
        let pattern = literal(s);
        if is_like_special(s[0]) {
            assert(pattern.skip(2) =~= rest);
        } else {
            assert(pattern.skip(1) =~= rest);
        }
        assert(seq![s[0]] + s.drop_first() =~= s);
    }
}

/// The pattern that matches every word starting with `prefix`, and no
/// other: the prefix itself, then anything.
pub open spec fn starts_with_pattern(prefix: Seq<char>) -> Seq<char> {
    literal(prefix).push('%')
}

/// How many leading characters of the query anchor the first fuzzy scan.
pub const FUZZY_ANCHOR_LENGTH: usize = 2;

/// The pattern of the first fuzzy scan: words that start with the first two
/// characters of the query, or with all of it when it is shorter.
pub open spec fn fuzzy_prefix_pattern(query: Seq<char>) -> Seq<char> {
    if query.len() <= FUZZY_ANCHOR_LENGTH {
        starts_with_pattern(query)
    } else {
        starts_with_pattern(query.take(FUZZY_ANCHOR_LENGTH as int))
    }
}

/// `query` without its first character.
pub open spec fn without_first(query: Seq<char>) -> Seq<char> {
    if query.len() == 0 {
        query
    } else {
        query.drop_first()
    }
}

/// The pattern of the second fuzzy scan: any one character, then anything
/// that contains the query itself without its first character.
pub open spec fn fuzzy_suffix_pattern(query: Seq<char>) -> Seq<char> {
    seq!['_', '%'] + literal(without_first(query)) + seq!['%']
}

/// The query without surrounding whitespace and its lowercase form, or
/// nothing when only whitespace was typed.
pub fn normalize(raw: &str) -> (q: Option<Query>)
    ensures
        q is None <==> trimmed(raw@).len() == 0,
        q matches Some(query) ==> query.text@ == trimmed(raw@) && query.lowered@ == lowercase(
            trimmed(raw@),
        ),
{
    let text = trim(raw);
    if text.as_str().is_empty() {
        None
    } else {
        let lowered = text.as_str().to_lowercase();
        Some(Query { text, lowered })
    }
}

fn escape(query: &Vec<char>) -> (out: Vec<char>)
    ensures
        out@ == escaped(query@),
{
    let mut out: Vec<char> = Vec::new();
    let n = query.len();
    let mut i: usize = 0;
    proof {
        assert(query@.take(0) =~= Seq::empty());
    }
    while i < n
        invariant
            i <= n,
            n == query.len(),
            out@ == escaped(query@.take(i as int)),
        decreases n - i,
    {
        let c = query[i];
        proof {
            assert(query@.take(i + 1).drop_last() =~= query@.take(i as int));
        }
        let ghost before = out@;
        if c == '"' {
            out.push('"');
            out.push('"');
            proof {
                assert(out@ =~= before + seq!['"', '"']);
            }
        } else if c == '*' || c == '^' || c == ':' {
            out.push(' ');
            proof {
                assert(out@ =~= before + seq![' ']);
            }
        } else {
            out.push(c);
            proof {
                assert(out@ =~= before + seq![c]);
            }
        }
        i += 1;
    }
    proof {
        assert(query@.take(n as int) =~= query@);
    }
    out
}

/// The full-text query for `query`: special characters escaped, every word a
/// prefix term.
pub fn prepare_fts_query(query: &str) -> (r: String)
    ensures
        r@ == fts_query(query@),
{
    let raw = chars_of(query);
    let safe = escape(&raw);
    let words = words_of(&safe);
    let ghost views = word_views(words@);
    let mut out: Vec<char> = Vec::new();
    let n = words.len();
    let mut i: usize = 0;
    proof {
        assert(views.take(0) =~= Seq::empty());
    }
    while i < n
        invariant
            i <= n,
            n == words.len(),
            views == word_views(words@),
            out@ == prefix_terms(views.take(i as int)),
        decreases n - i,
    {
        proof {
            assert(views.take(i + 1).drop_last() =~= views.take(i as int));
            assert(views.take(i + 1).last() == words@[i as int]@);
        }
        let ghost before = out@;
        if i > 0 {
            out.push(' ');
        }
        let word = &words[i];
        let len = word.len();
        let mut k: usize = 0;
        while k < len
            invariant
                k <= len,
                len == word.len(),
                out@ == (if i > 0 {
                    before + seq![' ']
                } else {
                    before
                }) + word@.take(k as int),
            decreases len - k,
        {
            out.push(word[k]);
            k += 1;
        }
        out.push('*');
        proof {
            assert(word@.take(len as int) =~= word@);
            if i > 0 {
                assert(out@ =~= before + seq![' '] + word@.push('*'));
            } else {
                assert(out@ =~= word@.push('*'));
            }
        }
        i += 1;
    }
    proof {
        assert(views.take(n as int) =~= views);
    }
    let len = out.len();
    proof {
        assert(out@.subrange(0, len as int) =~= out@);
    }
    string_of(&out, 0, len)
}

/// Whether `c` means something else than itself in a pattern.
pub fn char_is_like_special(c: char) -> (special: bool)
    ensures
        special == is_like_special(c),
{
    c == '%' || c == '_' || c == LIKE_ESCAPE
}

/// Appends to `out` what stands for the text `chars[from..to]` itself in a
/// pattern.
pub fn push_literal(out: &mut String, chars: &Vec<char>, from: usize, to: usize)
    requires
        from <= to <= chars.len(),
    ensures
        final(out)@ == old(out)@ + literal(chars@.subrange(from as int, to as int)),
{
    let ghost start = out@;
    let mut i: usize = from;
    proof {
        assert(chars@.subrange(from as int, from as int) =~= Seq::empty());
        assert(out@ =~= start + literal(chars@.subrange(from as int, from as int)));
    }
    while i < to
        invariant
            from <= i <= to <= chars.len(),
            out@ == start + literal(chars@.subrange(from as int, i as int)),
        decreases to - i,
    {
        let c = chars[i];
        let ghost before = out@;
        proof {
            assert(chars@.subrange(from as int, i + 1).drop_last() =~= chars@.subrange(
                from as int,
                i as int,
            ));
            assert(chars@.subrange(from as int, i + 1).last() == c);
        }
        if char_is_like_special(c) {
            out.push(LIKE_ESCAPE);
            out.push(c);
            proof {
                assert(out@ =~= before + seq![LIKE_ESCAPE, c]);
            }
        } else {
            out.push(c);
            proof {
                assert(out@ =~= before + seq![c]);
            }
        }
        proof {
            assert(out@ =~= start + literal(chars@.subrange(from as int, i + 1)));
        }
        i += 1;
    }
}

/// The `LIKE` pattern for words that start with `prefix`.
pub fn prefix_pattern(prefix: &str) -> (r: String)
    ensures
        r@ == starts_with_pattern(prefix@),
{
    let chars = chars_of(prefix);
    let len = chars.len();
    let mut r = String::new();
    push_literal(&mut r, &chars, 0, len);
    r.push('%');
    proof {
        assert(chars@.subrange(0, len as int) =~= chars@);
        assert(r@ =~= literal(prefix@).push('%'));
    }
    r
}

/// The `LIKE` pattern of the first fuzzy scan for the lowercase query.
pub fn fuzzy_prefix(query: &Vec<char>) -> (r: String)
    ensures
        r@ == fuzzy_prefix_pattern(query@),
{
    let anchor = if query.len() <= FUZZY_ANCHOR_LENGTH {
        query.len()
    } else {
        FUZZY_ANCHOR_LENGTH
    };
    let mut r = String::new();
    push_literal(&mut r, query, 0, anchor);
    r.push('%');
    proof {
        assert(query@.subrange(0, anchor as int) =~= query@.take(anchor as int));
        assert(query@.take(query@.len() as int) =~= query@);
        assert(r@ =~= literal(query@.take(anchor as int)).push('%'));
    }
    r
}

/// The `LIKE` pattern of the second fuzzy scan for the lowercase query.
pub fn fuzzy_suffix(query: &Vec<char>) -> (r: String)
    ensures
        r@ == fuzzy_suffix_pattern(query@),
{
    let mut r = String::new();
    r.push('_');
    r.push('%');
    let n = query.len();
    proof {
        assert(r@ =~= seq!['_', '%']);
    }
    if n > 0 {
        push_literal(&mut r, query, 1, n);
        proof {
            assert(query@.subrange(1, n as int) =~= without_first(query@));
        }
    } else {
        proof {
            assert(r@ =~= seq!['_', '%'] + literal(without_first(query@)));
        }
    }
    r.push('%');
    proof {
        assert(r@ =~= seq!['_', '%'] + literal(without_first(query@)) + seq!['%']);
    }
    r
}

} // verus!
