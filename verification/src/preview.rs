//! Definition previews: a text cut to a display length without breaking a
//! character, and where possible without breaking a word.

use vstd::prelude::*;
use vstd::string::StringExecFns;
use vstd::string::StringSliceAdditionalSpecFns;
use vstd::utf8::{
    decode_utf8, decode_utf8_encode_utf8, decode_utf8_split, encode_utf8,
    encode_utf8_decode_utf8, encode_utf8_valid_utf8, has_width_1_encoding, is_char_boundary,
    is_char_boundary_iff_not_is_continuation_byte, is_char_boundary_start_end_of_seq,
    valid_utf8, valid_utf8_split,
};

verus! {

/// Length, in bytes of UTF-8, that a preview is cut to unless told otherwise.
pub const DEFAULT_PREVIEW_LENGTH: usize = 100;

/// The byte that encodes a space.
pub const SPACE: u8 = 0x20;

/// The marker that ends a shortened preview.
pub open spec fn ellipsis() -> Seq<char> {
    seq!['.', '.', '.']
}

/// The last character boundary of `bytes` at or before `limit`.
pub open spec fn floor_char_boundary(bytes: Seq<u8>, limit: int) -> int
    decreases limit,
{
    if limit <= 0 {
        0
    } else if is_char_boundary(bytes, limit) {
        limit
    } else {
        floor_char_boundary(bytes, limit - 1)
    }
}

/// Where the last space among the first `end` bytes stands, or `end` itself
/// when none of them is a space.
pub open spec fn word_break(bytes: Seq<u8>, end: int) -> int {
    match last_space(bytes, end) {
        Some(at) => at,
        None => end,
    }
}

/// The position of the last space among the first `end` bytes.
pub open spec fn last_space(bytes: Seq<u8>, end: int) -> Option<int>
    decreases end,
{
    if end <= 0 {
        None
    } else if bytes[end - 1] == SPACE {
        Some(end - 1)
    } else {
        last_space(bytes, end - 1)
    }
}

/// How many bytes of the encoded text a preview of at most `max_len` bytes
/// keeps: back from `max_len` to a character boundary, then to the last
/// space before it if there is one.
pub open spec fn preview_cut(bytes: Seq<u8>, max_len: int) -> int {
    word_break(bytes, floor_char_boundary(bytes, max_len))
}

/// The preview of `text` for a display length of `max_len` bytes: the text
/// itself when it fits, else its kept part and the ellipsis.
pub open spec fn preview(text: Seq<char>, max_len: int) -> Seq<char> {
    let bytes = encode_utf8(text);
    if bytes.len() <= max_len {
        text
    } else {
        decode_utf8(bytes.take(preview_cut(bytes, max_len))) + ellipsis()
    }
}

/// The cut falls on a character boundary inside the display length.
pub proof fn lemma_preview_cut_is_boundary(bytes: Seq<u8>, max_len: int)
    requires
        valid_utf8(bytes),
        0 <= max_len < bytes.len(),
    ensures
        0 <= preview_cut(bytes, max_len) <= max_len,
        is_char_boundary(bytes, preview_cut(bytes, max_len)),
{
    lemma_floor_char_boundary(bytes, max_len);
    let end = floor_char_boundary(bytes, max_len);
    lemma_last_space(bytes, end);
    match last_space(bytes, end) {
        Some(at) => {
            is_char_boundary_iff_not_is_continuation_byte(bytes, at);
        },
        None => {},
    }
}

proof fn lemma_floor_char_boundary(bytes: Seq<u8>, limit: int)
    requires
        valid_utf8(bytes),
        0 <= limit,
    ensures
        0 <= floor_char_boundary(bytes, limit) <= limit,
        is_char_boundary(bytes, floor_char_boundary(bytes, limit)),
    decreases limit,
{
    if limit <= 0 {
        is_char_boundary_start_end_of_seq(bytes);
    } else if !is_char_boundary(bytes, limit) {
        lemma_floor_char_boundary(bytes, limit - 1);
    }
}

proof fn lemma_last_space(bytes: Seq<u8>, end: int)
    ensures
        match last_space(bytes, end) {
            Some(at) => 0 <= at < end && bytes[at] == SPACE,
            None => true,
        },
    decreases end,
{
    if end > 0 && bytes[end - 1] != SPACE {
        lemma_last_space(bytes, end - 1);
    }
}

/// Encoding a text piece by piece gives the encoding of the whole.
pub proof fn lemma_encode_concat(x: Seq<char>, y: Seq<char>)
    ensures
        encode_utf8(x + y) == encode_utf8(x) + encode_utf8(y),
    decreases x.len(),
{
    if x.len() == 0 {
        assert(x + y =~= y);
        assert(encode_utf8(x) + encode_utf8(y) =~= encode_utf8(y));
    } else {
        lemma_encode_concat(x.drop_first(), y);
        assert((x + y).drop_first() =~= x.drop_first() + y);
        assert((x + y)[0] == x[0]);
        assert(encode_utf8(x + y) =~= encode_utf8(x) + encode_utf8(y));
    }
}

/// The ellipsis takes three bytes.
pub proof fn lemma_ellipsis_bytes()
    ensures
        encode_utf8(ellipsis()).len() == 3,
{
    let e = ellipsis();
    assert(has_width_1_encoding('.' as u32));
    reveal_with_fuel(encode_utf8, 4);
    assert(e.drop_first().drop_first().drop_first().len() == 0);
}

/// A preview is never longer than the text and the ellipsis together, in
/// bytes as in characters; a text that fits is left as it is.
pub proof fn lemma_preview_length(text: Seq<char>, max_len: int)
    requires
        0 <= max_len,
    ensures
        encode_utf8(preview(text, max_len)).len() <= encode_utf8(text).len() + 3,
        preview(text, max_len).len() <= text.len() + 3,
        encode_utf8(text).len() > max_len ==> encode_utf8(preview(text, max_len)).len() <= max_len
            + 3,
{
    let bytes = encode_utf8(text);
    encode_utf8_valid_utf8(text);
    if bytes.len() > max_len {
        let cut = preview_cut(bytes, max_len);
        lemma_preview_cut_is_boundary(bytes, max_len);
        valid_utf8_split(bytes, cut);
        decode_utf8_split(bytes, cut);
        encode_utf8_decode_utf8(text);
        let kept = decode_utf8(bytes.take(cut));
        assert(bytes.take(cut) =~= bytes.subrange(0, cut));
        decode_utf8_encode_utf8(bytes.take(cut));
        lemma_encode_concat(kept, ellipsis());
        lemma_ellipsis_bytes();
    }
}

/// A shortened preview is a beginning of the text, followed by the ellipsis.
pub proof fn lemma_preview_is_prefix(text: Seq<char>, max_len: int)
    requires
        0 <= max_len < encode_utf8(text).len(),
    ensures
        exists|kept: int|
            0 <= kept <= text.len() && preview(text, max_len) == text.take(kept) + ellipsis(),
{
    let bytes = encode_utf8(text);
    encode_utf8_valid_utf8(text);
    let cut = preview_cut(bytes, max_len);
    lemma_preview_cut_is_boundary(bytes, max_len);
    decode_utf8_split(bytes, cut);
    encode_utf8_decode_utf8(text);
    assert(bytes.take(cut) =~= bytes.subrange(0, cut));
    let head = decode_utf8(bytes.take(cut));
    let rest = decode_utf8(bytes.subrange(cut, bytes.len() as int));
    assert(text =~= head + rest);
    assert(text.take(head.len() as int) =~= head);
}

/// The preview of `text` for a display length of `max_len` bytes. The cut
/// never falls inside a character, whatever `max_len` is.
pub fn truncate_preview(text: &str, max_len: usize) -> (r: String)
    ensures
        r@ == preview(text@, max_len as int),
        encode_utf8(r@).len() <= encode_utf8(text@).len() + 3,
{
    let bytes = text.as_bytes();
    let ghost all = encode_utf8(text@);
    proof {
        encode_utf8_valid_utf8(text@);
        lemma_preview_length(text@, max_len as int);
    }
    if bytes.len() <= max_len {
        return String::from_str(text);
    }
    let mut end: usize = max_len;
    while end > 0 && !text.is_char_boundary(end)
        invariant
            end <= max_len < all.len(),
            all == encode_utf8(text@),
            valid_utf8(all),
            floor_char_boundary(all, max_len as int) == floor_char_boundary(all, end as int),
        decreases end,
    {
        end -= 1;
    }
    proof {
        lemma_floor_char_boundary(all, end as int);
    }
    let (head, _) = text.split_at(end);
    let head_bytes = head.as_bytes();
    let mut at: usize = end;
    while at > 0 && head_bytes[at - 1] != SPACE
        invariant
            at <= end < all.len(),
            head_bytes@ == all.subrange(0, end as int),
            last_space(all, end as int) == last_space(all, at as int),
        decreases at,
    {
        at -= 1;
    }
    let ghost cut = preview_cut(all, max_len as int);
    proof {
        lemma_preview_cut_is_boundary(all, max_len as int);
        encode_utf8_valid_utf8(head@);
    }
    let kept = if at > 0 {
        proof {
            assert(cut == at - 1);
            is_char_boundary_iff_not_is_continuation_byte(head_bytes@, at - 1);
        }
        let (word_end, _) = head.split_at(at - 1);
        proof {
            assert(word_end.spec_bytes() =~= all.take(cut));
        }
        word_end
    } else {
        proof {
            assert(cut == end);
            assert(head.spec_bytes() =~= all.take(cut));
        }
        head
    };
    proof {
        encode_utf8_decode_utf8(kept@);
        reveal_strlit("...");
        assert("..."@ =~= ellipsis());
    }
    String::from_str(kept).concat("...")
}

} // verus!
