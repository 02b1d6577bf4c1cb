//! Small list and text helpers shared by the structural reports.
use crate::order::texts_contain;
use crate::text::{char_len, join, join_texts, push_line, Text};
use vstd::prelude::*;

verus! {

/// The non-empty values of `values` in order, each kept at its first occurrence.
pub open spec fn dedupe(values: Seq<Text>) -> Seq<Text>
    decreases values.len(),
{
    if values.len() == 0 {
        Seq::empty()
    } else {
        let prev = dedupe(values.drop_last());
        let v = values.last();
        if v.len() == 0 || prev.contains(v) {
            prev
        } else {
            prev.push(v)
        }
    }
}

/// The non-empty values in order, each at its first occurrence.
pub fn dedupe_strings_preserve_order(values: &Vec<String>) -> (r: Vec<String>)
    ensures
        r.deep_view() == dedupe(values.deep_view()),
{
    let ghost vv = values.deep_view();
    let mut r: Vec<String> = Vec::new();
    let mut i: usize = 0;
    while i < values.len()
        invariant
            vv == values.deep_view(),
            i <= vv.len(),
            r.deep_view() == dedupe(vv.take(i as int)),
        decreases vv.len() - i,
    {
        assert(vv.take(i + 1).drop_last() =~= vv.take(i as int));
        assert(vv.take(i + 1).last() == values@[i as int]@);
        let v = values[i].as_str();
        if char_len(v) > 0 && !texts_contain(&r, v) {
            push_line(&mut r, values[i].clone());
        }
        i = i + 1;
    }
    assert(vv.take(vv.len() as int) =~= vv);
    r
}

/// The values joined with `, `, or `none` when there are none.
pub open spec fn join_or_none_text(values: Seq<Text>) -> Text {
    if values.len() == 0 {
        "none"@
    } else {
        join(values, ", "@)
    }
}

/// The values joined with `, `, or `none` when there are none.
pub fn join_or_none(values: &Vec<String>) -> (r: String)
    ensures
        r@ == join_or_none_text(values.deep_view()),
{
    if values.len() == 0 {
        "none".to_string()
    } else {
        join_texts(values, ", ")
    }
}

/// The first `limit` values.
pub fn first_values(values: &Vec<String>, limit: usize) -> (r: Vec<String>)
    ensures
        r.deep_view() == values.deep_view().take(if limit < values@.len() { limit as int } else { values@.len() as int }),
{
    let n = if limit < values.len() {
        limit
    } else {
        values.len()
    };
    let mut r: Vec<String> = Vec::new();
    let mut i: usize = 0;
    while i < n
        invariant
            n <= values@.len(),
            i <= n,
            r.deep_view() == values.deep_view().take(i as int),
        decreases n - i,
    {
        push_line(&mut r, values[i].clone());
        i = i + 1;
        assert(r.deep_view() =~= values.deep_view().take(i as int));
    }
    r
}

/// `tag` is among the role tags.
pub open spec fn has_tag(tags: Seq<Text>, tag: Text) -> bool {
    tags.contains(tag)
}

/// Whether `tag` is among the role tags.
pub fn has_role_tag(tags: &Vec<String>, tag: &str) -> (r: bool)
    ensures
        r == has_tag(tags.deep_view(), tag@),
{
    texts_contain(tags, tag)
}

/// A character in lower case, for ASCII letters.
pub open spec fn ascii_lower(c: char) -> char {
    if 'A' <= c && c <= 'Z' {
        ((c as u32) + 32) as char
    } else {
        c
    }
}

/// The text with its ASCII letters in lower case.
pub open spec fn lower_text(s: Text) -> Text {
    s.map_values(|c: char| ascii_lower(c))
}

fn lower_char(c: char) -> (r: char)
    ensures
        r == ascii_lower(c),
{
    if 'A' <= c && c <= 'Z' {
        let b = c as u8;
        assert(b == c as u32);
        let l = (b + 32) as char;
        assert(l as u32 == (c as u32) + 32);
        l
    } else {
        c
    }
}

/// The text with its ASCII letters in lower case (see `lower_text`).
pub fn to_ascii_lower(s: &str) -> (r: String)
    ensures
        r@ == lower_text(s@),
{
    let v = crate::text::chars_of(s);
    let mut out: Vec<char> = Vec::new();
    let mut i: usize = 0;
    while i < v.len()
        invariant
            v@ == s@,
            i <= v@.len(),
            out@ == lower_text(s@).take(i as int),
        decreases v@.len() - i,
    {
        out.push(lower_char(v[i]));
        i = i + 1;
        assert(out@ =~= lower_text(s@).take(i as int));
    }
    assert(lower_text(s@).take(v@.len() as int) =~= lower_text(s@));
    crate::text::text_from_chars(&out)
}

} // verus!
