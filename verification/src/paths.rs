//! Repository-relative path handling: directory, file name, stem, extension,
//! top-level category and the test-file convention.
use crate::text::{chars_of, contains, contains_text, starts_with, text_from_chars, Text};
use vstd::prelude::*;

verus! {

/// Index of the last occurrence of `c` in `s`, if any.
pub open spec fn last_index_of(s: Text, c: char) -> Option<int> {
    if exists|i: int| 0 <= i < s.len() && s[i] == c {
        Some(choose|i: int| 0 <= i < s.len() && s[i] == c && forall|j: int| i < j < s.len() ==> s[j] != c)
    } else {
        None
    }
}

/// Index of the first occurrence of `c` in `s`, if any.
pub open spec fn first_index_of(s: Text, c: char) -> Option<int> {
    if exists|i: int| 0 <= i < s.len() && s[i] == c {
        Some(choose|i: int| 0 <= i < s.len() && s[i] == c && forall|j: int| 0 <= j < i ==> s[j] != c)
    } else {
        None
    }
}

/// The directory part of a path: everything before its last `/`, or nothing.
pub open spec fn parent_of(p: Text) -> Text {
    match last_index_of(p, '/') {
        Some(i) => p.take(i),
        None => Seq::empty(),
    }
}

/// The file name of a path: everything after its last `/`.
pub open spec fn file_name_of(p: Text) -> Text {
    match last_index_of(p, '/') {
        Some(i) => p.skip(i + 1),
        None => p,
    }
}

/// The stem of a file name: before its last `.`, unless that dot opens the name.
pub open spec fn stem_of_name(name: Text) -> Text {
    match last_index_of(name, '.') {
        Some(i) => if i > 0 { name.take(i) } else { name },
        None => name,
    }
}

/// The extension of a file name: after its last `.`, unless that dot opens the name.
pub open spec fn extension_of_name(name: Text) -> Text {
    match last_index_of(name, '.') {
        Some(i) => if i > 0 { name.skip(i + 1) } else { Seq::empty() },
        None => Seq::empty(),
    }
}

/// The first `/`-separated segment of `s` (all of `s` when it has no `/`).
pub open spec fn first_segment(s: Text) -> Text {
    match first_index_of(s, '/') {
        Some(i) => s.take(i),
        None => s,
    }
}

/// The path without a leading `./`.
pub open spec fn without_dot_slash(p: Text) -> Text {
    if "./"@.is_prefix_of(p) {
        p.skip(2)
    } else {
        p
    }
}

/// The top-level area a path belongs to: the first directory below `src/`, or
/// the first segment of the path.
pub open spec fn path_category_of(p: Text) -> Text {
    let n = without_dot_slash(p);
    if "src/"@.is_prefix_of(n) {
        first_segment(n.skip(4))
    } else {
        first_segment(n)
    }
}

/// A path follows the test-file convention: a `.test.`/`.spec.`/`_test.`
/// file, a `test_` file, or a file under a `test`, `tests` or `__tests__`
/// directory.
pub open spec fn is_test_path(p: Text) -> bool {
    ||| contains_text(p, ".test."@)
    ||| contains_text(p, ".spec."@)
    ||| contains_text(p, "_test."@)
    ||| contains_text(p, "/tests/"@)
    ||| contains_text(p, "/test/"@)
    ||| contains_text(p, "__tests__/"@)
    ||| "tests/"@.is_prefix_of(p)
    ||| "test/"@.is_prefix_of(p)
    ||| "test_"@.is_prefix_of(file_name_of(p))
}

/// Position of the last `c` in `v`.
pub fn find_last(v: &Vec<char>, c: char) -> (r: Option<usize>)
    ensures
        r matches Some(i) ==> i < v.len() && last_index_of(v@, c) == Some(i as int),
        r is None ==> last_index_of(v@, c) is None,
{
    let mut i = v.len();
    while i > 0
        invariant
            i <= v@.len(),
            forall|j: int| i <= j < v@.len() ==> v@[j] != c,
        decreases i,
    {
        if v[i - 1] == c {
            let k = i - 1;
            assert(v@[k as int] == c);
            let ghost w = choose|w: int| 0 <= w < v@.len() && v@[w] == c && forall|j: int| w < j < v@.len() ==> v@[j] != c;
            assert(w == k) by {
                if w < k {
                    assert(v@[k as int] != c);
                }
                if w > k {
                }
            }
            return Some(k);
        }
        i = i - 1;
    }
    None
}

/// Position of the first `c` in `v`.
pub fn find_first(v: &Vec<char>, c: char) -> (r: Option<usize>)
    ensures
        r matches Some(i) ==> i < v.len() && first_index_of(v@, c) == Some(i as int),
        r is None ==> first_index_of(v@, c) is None,
{
    let mut i: usize = 0;
    while i < v.len()
        invariant
            i <= v@.len(),
            forall|j: int| 0 <= j < i ==> v@[j] != c,
        decreases v@.len() - i,
    {
        if v[i] == c {
            assert(v@[i as int] == c);
            let ghost w = choose|w: int| 0 <= w < v@.len() && v@[w] == c && forall|j: int| 0 <= j < w ==> v@[j] != c;
            assert(w == i) by {
                if w > i {
                    assert(v@[i as int] != c);
                }
            }
            return Some(i);
        }
        i = i + 1;
    }
    None
}

/// The characters of `v` between `from` (inclusive) and `to` (exclusive), as a string.
pub fn slice_text(v: &Vec<char>, from: usize, to: usize) -> (s: String)
    requires
        from <= to <= v@.len(),
    ensures
        s@ == v@.subrange(from as int, to as int),
{
    let mut out: Vec<char> = Vec::new();
    let mut i = from;
    while i < to
        invariant
            from <= i <= to,
            to <= v@.len(),
            out@ == v@.subrange(from as int, i as int),
        decreases to - i,
    {
        out.push(v[i]);
        i = i + 1;
        assert(out@ =~= v@.subrange(from as int, i as int));
    }
    text_from_chars(&out)
}

/// The directory part of `path`.
pub fn parent_dir(path: &str) -> (r: String)
    ensures
        r@ == parent_of(path@),
{
    let v = chars_of(path);
    match find_last(&v, '/') {
        Some(i) => {
            let r = slice_text(&v, 0, i);
            assert(r@ =~= path@.take(i as int));
            r
        },
        None => text_from_chars(&Vec::new()),
    }
}

/// The file name of `path`.
pub fn file_name(path: &str) -> (r: String)
    ensures
        r@ == file_name_of(path@),
{
    let v = chars_of(path);
    match find_last(&v, '/') {
        Some(i) => {
            let r = slice_text(&v, i + 1, v.len());
            assert(r@ =~= path@.skip(i + 1));
            r
        },
        None => path.to_string(),
    }
}

/// The stem of a file name.
pub fn file_stem(name: &str) -> (r: String)
    ensures
        r@ == stem_of_name(name@),
{
    let v = chars_of(name);
    match find_last(&v, '.') {
        Some(i) => {
            if i > 0 {
                let r = slice_text(&v, 0, i);
                assert(r@ =~= name@.take(i as int));
                r
            } else {
                name.to_string()
            }
        },
        None => name.to_string(),
    }
}

/// The extension of a file name.
pub fn file_extension(name: &str) -> (r: String)
    ensures
        r@ == extension_of_name(name@),
{
    let v = chars_of(name);
    match find_last(&v, '.') {
        Some(i) => {
            if i > 0 {
                let r = slice_text(&v, i + 1, v.len());
                assert(r@ =~= name@.skip(i + 1));
                r
            } else {
                text_from_chars(&Vec::new())
            }
        },
        None => text_from_chars(&Vec::new()),
    }
}

fn first_segment_text(s: &str) -> (r: String)
    ensures
        r@ == first_segment(s@),
{
    let v = chars_of(s);
    match find_first(&v, '/') {
        Some(i) => {
            let r = slice_text(&v, 0, i);
            assert(r@ =~= s@.take(i as int));
            r
        },
        None => s.to_string(),
    }
}

/// The top-level area of a path (see `path_category_of`).
pub fn path_category(path: &str) -> (r: String)
    ensures
        r@ == path_category_of(path@),
{
    let v = chars_of(path);
    proof {
        reveal_strlit("./");
        reveal_strlit("src/");
    }
    let normalized = if starts_with(path, "./") {
        let n = slice_text(&v, 2, v.len());
        assert(n@ =~= path@.skip(2));
        n
    } else {
        path.to_string()
    };
    if starts_with(normalized.as_str(), "src/") {
        let nv = chars_of(normalized.as_str());
        let rest = slice_text(&nv, 4, nv.len());
        assert(rest@ =~= normalized@.skip(4));
        first_segment_text(rest.as_str())
    } else {
        first_segment_text(normalized.as_str())
    }
}

/// Whether `path` follows the test-file convention.
pub fn is_test_file(path: &str) -> (r: bool)
    ensures
        r == is_test_path(path@),
{
    let name = file_name(path);
    contains(path, ".test.") || contains(path, ".spec.") || contains(path, "_test.") || contains(
        path,
        "/tests/",
    ) || contains(path, "/test/") || contains(path, "__tests__/") || starts_with(path, "tests/")
        || starts_with(path, "test/") || starts_with(name.as_str(), "test_")
}

} // verus!
