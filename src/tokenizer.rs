use vstd::prelude::*;
use crate::text::{is_space, is_space_char, string_of};
use vstd::string::StringSliceAdditionalSpecFns;

verus! {

/// Scans `s` left to right: the tokens already closed, and the run of
/// non-whitespace characters still open at the end.
pub open spec fn scan_tokens(s: Seq<char>) -> (Seq<Seq<char>>, Seq<char>)
    decreases s.len(),
{
    if s.len() == 0 {
        (Seq::empty(), Seq::empty())
    } else {
        let (done, cur) = scan_tokens(s.drop_last());
        let c = s.last();
        if is_space(c) {
            if cur.len() > 0 {
                (done.push(cur), Seq::empty())
            } else {
                (done, Seq::empty())
            }
        } else {
            (done, cur.push(c))
        }
    }
}

/// The maximal runs of non-whitespace characters of `s`, in order.
pub open spec fn tokens_of(s: Seq<char>) -> Seq<Seq<char>> {
    let (done, cur) = scan_tokens(s);
    if cur.len() > 0 {
        done.push(cur)
    } else {
        done
    }
}

pub open spec fn is_token(t: Seq<char>) -> bool {
    t.len() > 0 && forall|i: int| 0 <= i < t.len() ==> !is_space(#[trigger] t[i])
}

proof fn lemma_scan_tokens_shape(s: Seq<char>)
    ensures
        forall|k: int| 0 <= k < scan_tokens(s).0.len() ==> is_token(#[trigger] scan_tokens(s).0[k]),
        forall|i: int| 0 <= i < scan_tokens(s).1.len() ==> !is_space(#[trigger] scan_tokens(s).1[i]),
    decreases s.len(),
{
    if s.len() > 0 {
        lemma_scan_tokens_shape(s.drop_last());
        let (done, cur) = scan_tokens(s.drop_last());
        assert(forall|i: int| 0 <= i < cur.len() ==> !is_space(#[trigger] cur[i]));
        if !is_space(s.last()) {
            assert(forall|i: int| 0 <= i < cur.push(s.last()).len() ==> !is_space(#[trigger] cur.push(s.last())[i]) ) by {
                assert forall|i: int| 0 <= i < cur.push(s.last()).len() implies !is_space(#[trigger] cur.push(s.last())[i]) by {
                    if i < cur.len() {
                        assert(cur.push(s.last())[i] == cur[i]);
                    }
                }
            }
        } else if cur.len() > 0 {
            assert(is_token(cur));
            assert forall|k: int| 0 <= k < done.push(cur).len() implies is_token(#[trigger] done.push(cur)[k]) by {
                if k < done.len() {
                    assert(done.push(cur)[k] == done[k]);
                }
            }
        }
    }
}

/// Every token of a document is non-empty and holds no whitespace.
pub proof fn lemma_tokens_are_words(s: Seq<char>)
    ensures
        forall|k: int| 0 <= k < tokens_of(s).len() ==> is_token(#[trigger] tokens_of(s)[k]),
{
    lemma_scan_tokens_shape(s);
    let (done, cur) = scan_tokens(s);
    if cur.len() > 0 {
        assert(is_token(cur));
        assert forall|k: int| 0 <= k < done.push(cur).len() implies is_token(#[trigger] done.push(cur)[k]) by {
            if k < done.len() {
                assert(done.push(cur)[k] == done[k]);
            }
        }
    }
}

/// Total number of characters in a sequence of tokens.
pub open spec fn chars_in(toks: Seq<Seq<char>>) -> nat
    decreases toks.len(),
{
    if toks.len() == 0 {
        0
    } else {
        chars_in(toks.drop_last()) + toks.last().len()
    }
}

proof fn lemma_scan_tokens_len(s: Seq<char>)
    ensures
        chars_in(scan_tokens(s).0) + scan_tokens(s).1.len() <= s.len(),
    decreases s.len(),
{
    if s.len() > 0 {
        lemma_scan_tokens_len(s.drop_last());
        let (done, cur) = scan_tokens(s.drop_last());
        assert(done.push(cur).drop_last() =~= done);
    }
}

/// The tokens of a document hold no more characters than the document.
pub proof fn lemma_tokens_len(s: Seq<char>)
    ensures
        chars_in(tokens_of(s)) <= s.len(),
{
    lemma_scan_tokens_len(s);
    let (done, cur) = scan_tokens(s);
    assert(done.push(cur).drop_last() =~= done);
}

pub open spec fn views_of(v: Seq<String>) -> Seq<Seq<char>> {
    v.map_values(|t: String| t@)
}

/// A document's bytes read one character each: byte `b` stands for the
/// character whose code is `b`. No encoding is decoded, so a byte of a
/// multi-byte UTF-8 sequence becomes a character of its own.
pub open spec fn byte_chars(b: Seq<u8>) -> Seq<char> {
    b.map_values(|x: u8| x as char)
}

/// The text that the tokenizer scans: the document's UTF-8 bytes, one
/// character per byte.
pub open spec fn scanned_text(document: &str) -> Seq<char> {
    byte_chars(document.spec_bytes())
}

/// Splits a document into its whitespace-separated tokens. The document is
/// scanned byte by byte, each byte becoming the character with the same
/// code; ASCII whitespace is discarded, and no token is empty.
pub fn tokenize_document(document: &str) -> (r: Vec<String>)
    ensures
        views_of(r@) == tokens_of(scanned_text(document)),
        forall|k: int| 0 <= k < r@.len() ==> is_token(#[trigger] r@[k]@),
{
    let bytes = document.as_bytes();
    let ghost text = scanned_text(document);
    let mut done: Vec<String> = Vec::new();
    let mut cur: Vec<char> = Vec::new();
    let mut i: usize = 0;
    while i < bytes.len()
        invariant
            bytes@ == document.spec_bytes(),
            text == byte_chars(bytes@),
            i <= bytes@.len(),
            (views_of(done@), cur@) == scan_tokens(text.take(i as int)),
        decreases bytes@.len() - i,
    {
        let c = bytes[i] as char;
        assert(text[i as int] == c);
        assert(text.take(i as int + 1).drop_last() =~= text.take(i as int));
        if is_space_char(c) {
            if cur.len() > 0 {
                let ghost old_done = done@;
                let t = string_of(&cur);
                done.push(t);
                assert(views_of(done@) =~= views_of(old_done).push(cur@));
                cur = Vec::new();
            }
        } else {
            cur.push(c);
        }
        i = i + 1;
    }
    proof {
        lemma_tokens_are_words(text);
        assert(text.take(i as int) =~= text);
    }
    if cur.len() > 0 {
        let ghost old_done = done@;
        let t = string_of(&cur);
        done.push(t);
        assert(views_of(done@) =~= views_of(old_done).push(cur@));
    }
    assert forall|k: int| 0 <= k < done@.len() implies is_token(#[trigger] done@[k]@) by {
        assert(done@[k]@ == views_of(done@)[k]);
        assert(is_token(tokens_of(text)[k]));
    }
    done
}

} // verus!
