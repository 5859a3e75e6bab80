//! Characters and whitespace: the building blocks under query handling.

use vstd::prelude::*;

verus! {

/// What `str::to_lowercase` makes of a text: its lowercase form under the
/// Unicode case mappings that the standard library carries.
pub uninterp spec fn lowercase(text: Seq<char>) -> Seq<char>;

/// `str::to_lowercase` returns the lowercase form of the whole text; the
/// mapping fills tables, so the result goes by the name `lowercase`.
pub assume_specification[ str::to_lowercase ](s: &str) -> (r: String)
    ensures
        r@ == lowercase(s@),
;

/// `String::push` appends one character at the end.
pub assume_specification[ String::push ](s: &mut String, ch: char)
    ensures
        final(s)@ == old(s)@.push(ch),
;

/// Whether `c` has the Unicode property White_Space.
pub open spec fn is_whitespace(c: char) -> bool {
    let u = c as u32;
    ||| 0x09 <= u <= 0x0D
    ||| u == 0x20
    ||| u == 0x85
    ||| u == 0xA0
    ||| u == 0x1680
    ||| 0x2000 <= u <= 0x200A
    ||| u == 0x2028
    ||| u == 0x2029
    ||| u == 0x202F
    ||| u == 0x205F
    ||| u == 0x3000
}

/// `s` without its leading whitespace.
pub open spec fn trim_start(s: Seq<char>) -> Seq<char>
    decreases s.len(),
{
    if s.len() > 0 && is_whitespace(s[0]) {
        trim_start(s.drop_first())
    } else {
        s
    }
}

/// `s` without its trailing whitespace.
pub open spec fn trim_end(s: Seq<char>) -> Seq<char>
    decreases s.len(),
{
    if s.len() > 0 && is_whitespace(s.last()) {
        trim_end(s.drop_last())
    } else {
        s
    }
}

/// `s` without leading and trailing whitespace.
pub open spec fn trimmed(s: Seq<char>) -> Seq<char> {
    trim_end(trim_start(s))
}

/// The maximal runs of non-whitespace characters of `s`, in order. A character
/// that follows a non-whitespace character extends the last run; one that
/// follows whitespace, or stands first, starts a new run.
pub open spec fn split_whitespace(s: Seq<char>) -> Seq<Seq<char>>
    decreases s.len(),
{
    if s.len() == 0 {
        Seq::empty()
    } else {
        let before = split_whitespace(s.drop_last());
        if is_whitespace(s.last()) {
            before
        } else if s.len() >= 2 && !is_whitespace(s[s.len() - 2]) {
            before.drop_last().push(before.last().push(s.last()))
        } else {
            before.push(seq![s.last()])
        }
    }
}

/// `s` without its whitespace characters.
pub open spec fn without_whitespace(s: Seq<char>) -> Seq<char>
    decreases s.len(),
{
    if s.len() == 0 {
        Seq::empty()
    } else if is_whitespace(s.last()) {
        without_whitespace(s.drop_last())
    } else {
        without_whitespace(s.drop_last()).push(s.last())
    }
}

/// The words put end to end.
pub open spec fn run_together(words: Seq<Seq<char>>) -> Seq<char>
    decreases words.len(),
{
    if words.len() == 0 {
        Seq::empty()
    } else {
        run_together(words.drop_last()) + words.last()
    }
}

/// Splitting at whitespace loses nothing but whitespace: no word is empty,
/// none holds whitespace, and together the words are the text without its
/// whitespace. A text that ends in a character that is no whitespace has
/// that character at the end of its last word.
pub proof fn lemma_split_whitespace(s: Seq<char>)
    ensures
        forall|i: int|
            0 <= i < split_whitespace(s).len() ==> (#[trigger] split_whitespace(s)[i]).len() > 0,
        forall|i: int, j: int|
            0 <= i < split_whitespace(s).len() && 0 <= j < split_whitespace(s)[i].len()
                ==> !is_whitespace(#[trigger] split_whitespace(s)[i][j]),
        run_together(split_whitespace(s)) == without_whitespace(s),
        s.len() > 0 && !is_whitespace(s.last()) ==> split_whitespace(s).len() > 0,
    decreases s.len(),
{
    if s.len() > 0 {
        let init = s.drop_last();
        let before = split_whitespace(init);
        let words = split_whitespace(s);
        let c = s.last();
        lemma_split_whitespace(init);
        if is_whitespace(c) {
        } else if s.len() >= 2 && !is_whitespace(s[s.len() - 2]) {
            assert(init.last() == s[s.len() - 2]);
            let grown = before.last().push(c);
            assert(words == before.drop_last().push(grown));
            assert(words.drop_last() =~= before.drop_last());
            assert(run_together(words) =~= run_together(before).push(c)) by {
                assert(run_together(before) == run_together(before.drop_last()) + before.last());
            }
            assert forall|i: int| 0 <= i < words.len() implies (#[trigger] words[i]).len()
                > 0 by {
                if i < words.len() - 1 {
                    assert(words[i] == before[i]);
                }
            }
            assert forall|i: int, j: int| 0 <= i < words.len() && 0 <= j < words[i].len()
                implies !is_whitespace(#[trigger] words[i][j]) by {
                if i < words.len() - 1 {
                    assert(words[i][j] == before[i][j]);
                } else if j < before.last().len() {
                    assert(words[i][j] == before[before.len() - 1][j]);
                }
            }
        } else {
            assert(words == before.push(seq![c]));
            assert(words.drop_last() =~= before);
            assert(run_together(words) =~= run_together(before).push(c));
            assert forall|i: int| 0 <= i < words.len() implies (#[trigger] words[i]).len()
                > 0 by {
                if i < words.len() - 1 {
                    assert(words[i] == before[i]);
                }
            }
            assert forall|i: int, j: int| 0 <= i < words.len() && 0 <= j < words[i].len()
                implies !is_whitespace(#[trigger] words[i][j]) by {
                if i < words.len() - 1 {
                    assert(words[i][j] == before[i][j]);
                }
            }
        }
    }
}

/// A text made only of whitespace has nothing left after trimming.
pub proof fn lemma_trimmed_blank(s: Seq<char>)
    requires
        forall|i: int| 0 <= i < s.len() ==> is_whitespace(#[trigger] s[i]),
    ensures
        trimmed(s).len() == 0,
    decreases s.len(),
{
    if s.len() > 0 {
        lemma_trimmed_blank(s.drop_first());
    }
}

/// Trimmed text neither starts nor ends with whitespace, and is no longer
/// than the text it was cut from.
pub proof fn lemma_trimmed_edges(s: Seq<char>)
    ensures
        trimmed(s).len() <= s.len(),
        trimmed(s).len() > 0 ==> !is_whitespace(trimmed(s)[0]) && !is_whitespace(
            trimmed(s).last(),
        ),
{
    lemma_trim_start_facts(s);
    lemma_trim_end_facts(trim_start(s));
}

proof fn lemma_trim_start_facts(s: Seq<char>)
    ensures
        trim_start(s).len() <= s.len(),
        trim_start(s) == s.skip(s.len() - trim_start(s).len()),
        trim_start(s).len() > 0 ==> !is_whitespace(trim_start(s)[0]),
        forall|i: int| 0 <= i < s.len() - trim_start(s).len() ==> is_whitespace(#[trigger] s[i]),
    decreases s.len(),
{
    if s.len() > 0 && is_whitespace(s[0]) {
        let rest = s.drop_first();
        lemma_trim_start_facts(rest);
        let k = rest.len() - trim_start(rest).len();
        assert(rest.skip(k) =~= s.skip(k + 1));
        assert forall|i: int| 0 <= i < s.len() - trim_start(s).len() implies is_whitespace(
            #[trigger] s[i],
        ) by {
            if i > 0 {
                assert(s[i] == rest[i - 1]);
            }
        }
    } else {
        assert(s.skip(0) =~= s);
    }
}

proof fn lemma_trim_end_facts(s: Seq<char>)
    ensures
        trim_end(s).len() <= s.len(),
        trim_end(s) == s.take(trim_end(s).len() as int),
        trim_end(s).len() > 0 ==> !is_whitespace(trim_end(s).last()),
        forall|i: int| trim_end(s).len() <= i < s.len() ==> is_whitespace(#[trigger] s[i]),
    decreases s.len(),
{
    if s.len() > 0 && is_whitespace(s.last()) {
        let rest = s.drop_last();
        lemma_trim_end_facts(rest);
        assert(rest.take(trim_end(rest).len() as int) =~= s.take(trim_end(rest).len() as int));
        assert forall|i: int| trim_end(s).len() <= i < s.len() implies is_whitespace(
            #[trigger] s[i],
        ) by {
            if i < rest.len() {
                assert(s[i] == rest[i]);
            }
        }
    } else {
        assert(s.take(s.len() as int) =~= s);
    }
}

/// Whether `c` is whitespace.
pub fn char_is_whitespace(c: char) -> (r: bool)
    ensures
        r == is_whitespace(c),
{
    let u: u32 = c as u32;
    (0x09 <= u && u <= 0x0D) || u == 0x20 || u == 0x85 || u == 0xA0 || u == 0x1680 || (0x2000
        <= u && u <= 0x200A) || u == 0x2028 || u == 0x2029 || u == 0x202F || u == 0x205F || u
        == 0x3000
}

/// The characters of `s`, in order.
pub fn chars_of(s: &str) -> (v: Vec<char>)
    ensures
        v@ == s@,
{
    let mut v: Vec<char> = Vec::new();
    for c in it: s.chars()
        invariant
            v@ == s@.take(it.index() as int),
            it.seq() == s@,
    {
        v.push(c);
    }
    v
}

/// The text made of the characters `v[from..to]`.
pub fn string_of(v: &Vec<char>, from: usize, to: usize) -> (s: String)
    requires
        from <= to <= v.len(),
    ensures
        s@ == v@.subrange(from as int, to as int),
{
    let mut s = String::new();
    let mut i: usize = from;
    while i < to
        invariant
            from <= i <= to <= v.len(),
            s@ == v@.subrange(from as int, i as int),
        decreases to - i,
    {
        s.push(v[i]);
        i += 1;
    }
    s
}

/// `s` without leading and trailing whitespace.
pub fn trim(s: &str) -> (t: String)
    ensures
        t@ == trimmed(s@),
{
    let chars = chars_of(s);
    let n = chars.len();
    let mut start: usize = 0;
    proof {
        assert(s@.skip(0) =~= s@);
    }
    while start < n && char_is_whitespace(chars[start])
        invariant
            start <= n,
            n == chars.len(),
            chars@ == s@,
            trim_start(s@) == trim_start(s@.skip(start as int)),
        decreases n - start,
    {
        proof {
            assert(s@.skip(start as int).drop_first() =~= s@.skip(start + 1));
        }
        start += 1;
    }
    let ghost rest = s@.skip(start as int);
    let mut end: usize = n;
    proof {
        assert(trim_start(s@) == rest);
        assert(rest.take(n - start) =~= rest);
    }
    while end > start && char_is_whitespace(chars[end - 1])
        invariant
            start <= end <= n,
            n == chars.len(),
            chars@ == s@,
            rest == s@.skip(start as int),
            trim_end(rest) == trim_end(rest.take(end - start)),
        decreases end,
    {
        proof {
            assert(rest.take(end - start).drop_last() =~= rest.take(end - start - 1));
        }
        end -= 1;
    }
    proof {
        assert(trim_end(rest) == rest.take(end - start));
        assert(rest.take(end - start) =~= s@.subrange(start as int, end as int));
    }
    string_of(&chars, start, end)
}

/// The character sequences that the vectors of `words` hold.
pub open spec fn word_views(words: Seq<Vec<char>>) -> Seq<Seq<char>> {
    Seq::new(words.len(), |i: int| words[i]@)
}

/// The whitespace-separated words of `chars`.
pub fn words_of(chars: &Vec<char>) -> (words: Vec<Vec<char>>)
    ensures
        word_views(words@) == split_whitespace(chars@),
{
    let mut words: Vec<Vec<char>> = Vec::new();
    let mut current: Vec<char> = Vec::new();
    let mut in_word = false;
    let n = chars.len();
    let mut i: usize = 0;
    proof {
        assert(word_views(words@) =~= split_whitespace(chars@.take(0)));
    }
    while i < n
        invariant
            i <= n,
            n == chars.len(),
            in_word <==> (i > 0 && !is_whitespace(chars@[i - 1])),
            in_word ==> split_whitespace(chars@.take(i as int)) == word_views(words@).push(
                current@,
            ),
            !in_word ==> split_whitespace(chars@.take(i as int)) == word_views(words@),
            !in_word ==> current@.len() == 0,
        decreases n - i,
    {
        let c = chars[i];
        let ghost done = split_whitespace(chars@.take(i as int));
        let ghost before = word_views(words@);
        let ghost word = current@;
        proof {
            assert(chars@.take(i + 1).drop_last() =~= chars@.take(i as int));
        }
        if char_is_whitespace(c) {
            if in_word {
                words.push(current);
                current = Vec::new();
                in_word = false;
                proof {
                    assert(word_views(words@) =~= before.push(word));
                }
            }
        } else {
            current.push(c);
            proof {
                if in_word {
                    assert(done.drop_last() =~= before);
                    assert(done.last() == word);
                } else {
                    assert(current@ =~= seq![c]);
                }
            }
            in_word = true;
        }
        i += 1;
    }
    proof {
        assert(chars@.take(n as int) =~= chars@);
    }
    if in_word {
        let ghost before = word_views(words@);
        let ghost word = current@;
        words.push(current);
        proof {
            assert(word_views(words@) =~= before.push(word));
        }
    }
    words
}

} // verus!
