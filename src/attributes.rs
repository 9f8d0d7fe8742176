use vstd::prelude::*;
use crate::text::{is_space, is_space_char, string_of, string_of_range};
use crate::tree::{Attribute, AttributeView, attributes_view};

verus! {

/// Scans an attribute buffer left to right: the words already closed, the
/// word still open, and whether a quoted span is open. Whitespace separates
/// words only outside quotes; quote characters stay in the word.
pub open spec fn scan_words(s: Seq<char>) -> (Seq<Seq<char>>, Seq<char>, bool)
    decreases s.len(),
{
    if s.len() == 0 {
        (Seq::empty(), Seq::empty(), false)
    } else {
        let (done, cur, quoted) = scan_words(s.drop_last());
        let c = s.last();
        if c == '"' {
            (done, cur.push(c), !quoted)
        } else if is_space(c) && !quoted {
            if cur.len() > 0 {
                (done.push(cur), Seq::empty(), quoted)
            } else {
                (done, Seq::empty(), quoted)
            }
        } else {
            (done, cur.push(c), quoted)
        }
    }
}

/// The attribute words of a buffer, in order.
pub open spec fn words_of(s: Seq<char>) -> Seq<Seq<char>> {
    let (done, cur, _) = scan_words(s);
    if cur.len() > 0 {
        done.push(cur)
    } else {
        done
    }
}

/// Index of the first `=` of `w` at or after `i`, or the length of `w`.
pub open spec fn first_eq_from(w: Seq<char>, i: int) -> int
    decreases w.len() - i,
{
    if i >= w.len() {
        w.len() as int
    } else if w[i] == '=' {
        i
    } else {
        first_eq_from(w, i + 1)
    }
}

/// A word split at its first `=`: the name before it and the value after it;
/// a word without `=` is a name alone.
pub open spec fn attribute_of(w: Seq<char>) -> AttributeView {
    let p = first_eq_from(w, 0);
    if p < w.len() {
        AttributeView { name: w.take(p), value: Some(w.skip(p + 1)) }
    } else {
        AttributeView { name: w, value: None }
    }
}

/// The attributes that a tag's attribute buffer declares, in order,
/// repeats kept.
pub open spec fn attributes_of(s: Seq<char>) -> Seq<AttributeView> {
    words_of(s).map_values(|w: Seq<char>| attribute_of(w))
}

proof fn lemma_first_eq_bounds(w: Seq<char>, i: int)
    requires
        0 <= i <= w.len(),
    ensures
        i <= first_eq_from(w, i) <= w.len(),
    decreases w.len() - i,
{
    if i < w.len() && w[i] != '=' {
        lemma_first_eq_bounds(w, i + 1);
    }
}

/// Builds the attribute that one word declares.
fn make_attribute(w: &Vec<char>) -> (r: Attribute)
    ensures
        r@ == attribute_of(w@),
{
    let mut i: usize = 0;
    while i < w.len() && w[i] != '='
        invariant
            i <= w@.len(),
            first_eq_from(w@, 0) == first_eq_from(w@, i as int),
        decreases w@.len() - i,
    {
        i = i + 1;
    }
    if i < w.len() {
        let name = string_of_range(w, 0, i);
        let value = string_of_range(w, i + 1, w.len());
        assert(w@.take(i as int) =~= w@.subrange(0, i as int));
        assert(w@.skip(i as int + 1) =~= w@.subrange(i as int + 1, w@.len() as int));
        Attribute { name, value: Some(value) }
    } else {
        let name = string_of(w);
        Attribute { name, value: None }
    }
}

/// Splits an accumulated attribute buffer into attributes: words are
/// separated by whitespace outside quotes, and each word is split at its
/// first `=`. Quote characters are kept in names and values.
pub fn parse_attributes(buffer: &Vec<char>) -> (r: Vec<Attribute>)
    ensures
        attributes_view(r@) == attributes_of(buffer@),
{
    let mut out: Vec<Attribute> = Vec::new();
    let mut cur: Vec<char> = Vec::new();
    let mut quoted = false;
    let mut i: usize = 0;
    while i < buffer.len()
        invariant
            i <= buffer@.len(),
            ({
                let (done, c, q) = scan_words(buffer@.take(i as int));
                &&& attributes_view(out@) == done.map_values(|w: Seq<char>| attribute_of(w))
                &&& cur@ == c
                &&& quoted == q
            }),
        decreases buffer@.len() - i,
    {
        let c = buffer[i];
        assert(buffer@.take(i as int + 1).drop_last() =~= buffer@.take(i as int));
        let ghost done = scan_words(buffer@.take(i as int)).0;
        if c == '"' {
            cur.push(c);
            quoted = !quoted;
        } else if is_space_char(c) && !quoted {
            if cur.len() > 0 {
                let ghost old_out = out@;
                let a = make_attribute(&cur);
                out.push(a);
                assert(attributes_view(out@) =~= attributes_view(old_out).push(a@));
                assert(done.push(cur@).map_values(|w: Seq<char>| attribute_of(w))
                    =~= done.map_values(|w: Seq<char>| attribute_of(w)).push(attribute_of(cur@)));
                cur = Vec::new();
            }
        } else {
            cur.push(c);
        }
        i = i + 1;
    }
    assert(buffer@.take(i as int) =~= buffer@);
    let ghost done = scan_words(buffer@).0;
    if cur.len() > 0 {
        let ghost old_out = out@;
        let a = make_attribute(&cur);
        out.push(a);
        assert(attributes_view(out@) =~= attributes_view(old_out).push(a@));
        assert(done.push(cur@).map_values(|w: Seq<char>| attribute_of(w))
            =~= done.map_values(|w: Seq<char>| attribute_of(w)).push(attribute_of(cur@)));
    }
    out
}

} // verus!
