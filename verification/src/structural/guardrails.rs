//! Architecture guardrail tests (`*.architecture.test.ts` and kin): which
//! files they guard, and the literals they require or forbid.
use crate::structural::utils::{dedupe, dedupe_strings_preserve_order};
use crate::order::{
    lemma_lex_asymmetric, lemma_lex_irreflexive, lemma_lex_total, lemma_lex_transitive, lex_lt, sorted_unique, strictly_sorted,
    text_less, texts_contain,
};
use crate::paths::{file_name, file_name_of, parent_dir, parent_of, slice_text};
use crate::sorting::{ranked_order, sort_ranked, Ranked};
use crate::structural::facts::GuardrailFileEvidence;
use crate::text::{char_len, chars_occur_at, chars_of, contains_char, copy_text, ends_with, push_line, has_char, occurs_at, starts_with, text_from_chars, Text};
use vstd::prelude::*;

verus! {

/// A quote that opens a string literal in a test source.
pub open spec fn is_quote(c: char) -> bool {
    c == '"' || c == '\'' || c == '`'
}

/// The body of a quoted literal read from position `i` on, up to the closing
/// quote `q`; a backslash takes the next character as it is. Gives the body
/// and the position after the closing quote, or nothing when the literal is
/// not closed.
pub open spec fn literal_body(cs: Text, q: char, i: int, escaped: bool, acc: Text) -> Option<(Text, int)>
    decreases cs.len() - i,
{
    if i >= cs.len() {
        None
    } else if escaped {
        literal_body(cs, q, i + 1, false, acc.push(cs[i]))
    } else if cs[i] == '\\' {
        literal_body(cs, q, i + 1, true, acc)
    } else if cs[i] == q {
        Some((acc, i + 1))
    } else {
        literal_body(cs, q, i + 1, false, acc.push(cs[i]))
    }
}

/// The quoted literal that opens at `start`, with the position after it.
pub open spec fn quoted_literal_at(cs: Text, start: int) -> Option<(Text, int)> {
    if 0 <= start < cs.len() && is_quote(cs[start]) {
        literal_body(cs, cs[start], start + 1, false, Seq::empty())
    } else {
        None
    }
}

pub proof fn lemma_literal_body_ends(cs: Text, q: char, i: int, escaped: bool, acc: Text)
    ensures
        literal_body(cs, q, i, escaped, acc) matches Some((_, e)) ==> i < e <= cs.len(),
    decreases cs.len() - i,
{
    if i < cs.len() {
        if escaped {
            lemma_literal_body_ends(cs, q, i + 1, false, acc.push(cs[i]));
        } else if cs[i] == '\\' {
            lemma_literal_body_ends(cs, q, i + 1, true, acc);
        } else if cs[i] != q {
            lemma_literal_body_ends(cs, q, i + 1, false, acc.push(cs[i]));
        }
    }
}

/// Reads a quoted literal opening at `start`.
fn quoted_literal_after(cs: &Vec<char>, start: usize) -> (r: Option<(String, usize)>)
    ensures
        match quoted_literal_at(cs@, start as int) {
            Some((lit, e)) => r matches Some((s, n)) && s@ == lit && n == e && start < e <= cs@.len(),
            None => r is None,
        },
{
    if start >= cs.len() {
        return None;
    }
    let q = cs[start];
    if !(q == '"' || q == '\'' || q == '`') {
        return None;
    }
    let mut acc: Vec<char> = Vec::new();
    let mut escaped = false;
    let mut i = start + 1;
    proof {
        lemma_literal_body_ends(cs@, q, i as int, false, Seq::empty());
    }
    while i < cs.len()
        invariant
            start < i <= cs@.len(),
            q == cs@[start as int],
            literal_body(cs@, q, i as int, escaped, acc@) == quoted_literal_at(cs@, start as int),
        decreases cs@.len() - i,
    {
        let c = cs[i];
        if escaped {
            acc.push(c);
            escaped = false;
        } else if c == '\\' {
            escaped = true;
        } else if c == q {
            proof {
                lemma_literal_body_ends(cs@, q, start + 1, false, Seq::empty());
            }
            return Some((text_from_chars(&acc), i + 1));
        } else {
            acc.push(c);
        }
        i = i + 1;
    }
    None
}

/// Every quoted literal of the text from position `i` on, scanning left to
/// right and resuming after each literal read.
pub open spec fn literals_from(cs: Text, i: int) -> Seq<Text>
    decreases cs.len() - i,
{
    if i < 0 || i >= cs.len() {
        Seq::empty()
    } else {
        match quoted_literal_at(cs, i) {
            Some((lit, next)) => {
                proof {
                    lemma_literal_body_ends(cs, cs[i], i + 1, false, Seq::empty());
                }
                seq![lit] + literals_from(cs, next)
            },
            None => literals_from(cs, i + 1),
        }
    }
}

/// Every quoted literal of `cs`, in order.
fn quoted_literals(cs: &Vec<char>) -> (r: Vec<String>)
    ensures
        r.deep_view() == literals_from(cs@, 0),
{
    let mut r: Vec<String> = Vec::new();
    let mut i: usize = 0;
    while i < cs.len()
        invariant
            i <= cs@.len(),
            r.deep_view() + literals_from(cs@, i as int) == literals_from(cs@, 0),
        decreases cs@.len() - i,
    {
        match quoted_literal_after(cs, i) {
            Some((lit, next)) => {
                let ghost before = r.deep_view();
                r.push(lit);
                assert(r.deep_view() =~= before.push(lit@));
                assert(before + literals_from(cs@, i as int) =~= r.deep_view() + literals_from(cs@, next as int));
                i = next;
            },
            None => {
                i = i + 1;
            },
        }
    }
    assert(r.deep_view() + literals_from(cs@, i as int) =~= r.deep_view());
    r
}

/// The first position at or after `i` where `needle` occurs in `hay`.
pub open spec fn first_occurrence_from(hay: Text, needle: Text, i: int) -> Option<int>
    decreases hay.len() - i,
{
    if i < 0 || i + needle.len() > hay.len() {
        None
    } else if needle.len() == 0 || occurs_at(hay, needle, i) {
        Some(i)
    } else {
        first_occurrence_from(hay, needle, i + 1)
    }
}

pub proof fn lemma_first_occurrence_bounds(hay: Text, needle: Text, i: int)
    ensures
        first_occurrence_from(hay, needle, i) matches Some(j) ==> i <= j && j + needle.len() <= hay.len(),
    decreases hay.len() - i,
{
    if 0 <= i && i + needle.len() <= hay.len() && needle.len() > 0 && !occurs_at(hay, needle, i) {
        lemma_first_occurrence_bounds(hay, needle, i + 1);
    }
}

fn first_occurrence(hay: &Vec<char>, needle: &Vec<char>, from: usize) -> (r: Option<usize>)
    ensures
        match first_occurrence_from(hay@, needle@, from as int) {
            Some(j) => r == Some(j as usize),
            None => r is None,
        },
{
    if needle.len() > hay.len() || from > hay.len() - needle.len() {
        return None;
    }
    if needle.len() == 0 {
        return Some(from);
    }
    let mut i = from;
    while i <= hay.len() - needle.len()
        invariant
            0 < needle@.len() <= hay@.len(),
            from <= i,
            first_occurrence_from(hay@, needle@, i as int) == first_occurrence_from(hay@, needle@, from as int),
        decreases hay@.len() - i,
    {
        if chars_occur_at(hay, needle, i) {
            return Some(i);
        }
        i = i + 1;
    }
    None
}

/// The needle that opens an expectation on the source: `.toContain(`, or
/// `.not.toContain(` for a forbidden literal.
pub open spec fn expectation_needle(negated: bool) -> Text {
    if negated {
        ".not.toContain("@
    } else {
        ".toContain("@
    }
}

/// The literals quoted right after each occurrence of `needle`, scanning from
/// `cursor` on: an occurrence not followed by a quote is skipped, and one
/// whose literal is not closed resumes just after the quote.
pub open spec fn expected_literals_from(cs: Text, needle: Text, cursor: int) -> Seq<Text>
    decreases cs.len() - cursor,
{
    if needle.len() == 0 {
        Seq::empty()
    } else {
        match first_occurrence_from(cs, needle, cursor) {
            None => Seq::empty(),
            Some(j) => {
                proof {
                    lemma_first_occurrence_bounds(cs, needle, cursor);
                }
                let start = j + needle.len();
                if start >= cs.len() {
                    Seq::empty()
                } else if !is_quote(cs[start]) {
                    expected_literals_from(cs, needle, start)
                } else {
                    match quoted_literal_at(cs, start) {
                        Some((lit, next)) => {
                            proof {
                                lemma_literal_body_ends(cs, cs[start], start + 1, false, Seq::empty());
                            }
                            seq![lit] + expected_literals_from(cs, needle, next)
                        },
                        None => expected_literals_from(cs, needle, start + 1),
                    }
                }
            },
        }
    }
}

/// The literals a test expects the source to contain (or, negated, not to
/// contain), each once, in order of first appearance.
pub open spec fn expected_literals(contents: Text, negated: bool) -> Seq<Text> {
    dedupe(expected_literals_from(contents, expectation_needle(negated), 0))
}

/// The literals the test source expects to be contained (or not contained).
pub fn test_contains_literals(contents: &str, negated: bool) -> (r: Vec<String>)
    ensures
        r.deep_view() == expected_literals(contents@, negated),
{
    let cs = chars_of(contents);
    let needle = if negated {
        chars_of(".not.toContain(")
    } else {
        chars_of(".toContain(")
    };
    proof {
        reveal_strlit(".not.toContain(");
        reveal_strlit(".toContain(");
    }
    assert(needle@ == expectation_needle(negated));
    let mut literals: Vec<String> = Vec::new();
    let mut cursor: usize = 0;
    while cursor <= cs.len()
        invariant
            cs@ == contents@,
            needle@ == expectation_needle(negated),
            needle@.len() > 0,
            literals.deep_view() + expected_literals_from(cs@, needle@, cursor as int)
                == expected_literals_from(cs@, needle@, 0),
        ensures
            literals.deep_view() == expected_literals_from(cs@, needle@, 0),
        decreases cs@.len() + 1 - cursor,
    {
        proof {
            lemma_first_occurrence_bounds(cs@, needle@, cursor as int);
        }
        match first_occurrence(&cs, &needle, cursor) {
            None => {
                assert(literals.deep_view() + Seq::<Text>::empty() =~= literals.deep_view());
                break;
            },
            Some(j) => {
                let start = j + needle.len();
                if start >= cs.len() {
                    assert(literals.deep_view() + Seq::<Text>::empty() =~= literals.deep_view());
                    break;
                }
                let q = cs[start];
                if !(q == '"' || q == '\'' || q == '`') {
                    cursor = start;
                } else {
                    match quoted_literal_after(&cs, start) {
                        Some((lit, next)) => {
                            let ghost before = literals.deep_view();
                            literals.push(lit);
                            assert(literals.deep_view() =~= before.push(lit@));
                            assert(before + expected_literals_from(cs@, needle@, cursor as int) =~= literals.deep_view()
                                + expected_literals_from(cs@, needle@, next as int));
                            cursor = next;
                        },
                        None => {
                            cursor = start + 1;
                        },
                    }
                }
            },
        }
    }
    dedupe_strings_preserve_order(&literals)
}

/// The text ends in a source extension: `.ts`, `.tsx`, `.js` or `.jsx`.
pub open spec fn has_source_extension(t: Text) -> bool {
    ".ts"@.is_suffix_of(t) || ".tsx"@.is_suffix_of(t) || ".js"@.is_suffix_of(t) || ".jsx"@.is_suffix_of(t)
}

fn source_extension(t: &str) -> (r: bool)
    ensures
        r == has_source_extension(t@),
{
    ends_with(t, ".ts") || ends_with(t, ".tsx") || ends_with(t, ".js") || ends_with(t, ".jsx")
}

/// A literal that names a source file: a path with a source extension.
pub open spec fn looks_like_source_file(lit: Text) -> bool {
    has_source_extension(lit) && has_char(lit, '/')
}

/// A literal that names a module by import path: a path without spaces or
/// source extension.
pub open spec fn looks_like_import_fragment(lit: Text) -> bool {
    has_char(lit, '/') && !has_char(lit, ' ') && !has_source_extension(lit)
}

/// The path without its source extension (`.tsx`, `.ts`, `.jsx`, `.js`, in
/// that order of trial).
pub open spec fn without_source_extension(p: Text) -> Text {
    if ".tsx"@.is_suffix_of(p) {
        p.take(p.len() - 4)
    } else if ".ts"@.is_suffix_of(p) {
        p.take(p.len() - 3)
    } else if ".jsx"@.is_suffix_of(p) {
        p.take(p.len() - 4)
    } else if ".js"@.is_suffix_of(p) {
        p.take(p.len() - 3)
    } else {
        p
    }
}

fn path_without_extension(p: &str) -> (r: String)
    ensures
        r@ == without_source_extension(p@),
{
    let cs = chars_of(p);
    proof {
        reveal_strlit(".tsx");
        reveal_strlit(".ts");
        reveal_strlit(".jsx");
        reveal_strlit(".js");
    }
    let cut: usize = if ends_with(p, ".tsx") {
        4
    } else if ends_with(p, ".ts") {
        3
    } else if ends_with(p, ".jsx") {
        4
    } else if ends_with(p, ".js") {
        3
    } else {
        0
    };
    let r = slice_text(&cs, 0, cs.len() - cut);
    assert(r@ =~= without_source_extension(p@));
    r
}

/// The text with every leading `./` removed.
pub open spec fn strip_dot_slashes(t: Text) -> Text
    decreases t.len(),
{
    if "./"@.is_prefix_of(t) && t.len() >= 2 {
        strip_dot_slashes(t.skip(2))
    } else {
        t
    }
}

/// The text with each backslash turned into a slash.
pub open spec fn forward_slashes(t: Text) -> Text {
    Seq::new(t.len(), |i: int| if t[i] == '\\' { '/' } else { t[i] })
}

/// The file a source-file literal names: without leading `./`, with forward
/// slashes.
pub open spec fn literal_path(lit: Text) -> Text {
    forward_slashes(strip_dot_slashes(lit))
}

fn normalized_literal_path(lit: &Vec<char>) -> (r: String)
    ensures
        r@ == literal_path(lit@),
{
    let mut i: usize = 0;
    proof {
        reveal_strlit("./");
    }
    assert(lit@.skip(0) =~= lit@);
    while i < lit.len() && lit.len() - i > 1 && lit[i] == '.' && lit[i + 1] == '/'
        invariant
            i <= lit@.len(),
            strip_dot_slashes(lit@.skip(i as int)) == strip_dot_slashes(lit@),
        decreases lit@.len() - i,
    {
        proof {
            reveal_strlit("./");
        }
        assert(lit@.skip(i as int).skip(2) =~= lit@.skip(i + 2));
        assert(lit@.skip(i as int).take(2) =~= "./"@);
        assert("./"@.is_prefix_of(lit@.skip(i as int)));
        i = i + 2;
    }
    assert(strip_dot_slashes(lit@.skip(i as int)) == lit@.skip(i as int)) by {
        reveal_strlit("./");
        let t = lit@.skip(i as int);
        if "./"@.is_prefix_of(t) && t.len() >= 2 {
            assert(t.take(2)[0] == t[0] && t.take(2)[1] == t[1]);
            assert(t[0] == lit@[i as int] && t[1] == lit@[i + 1]);
        }
    }
    let ghost stripped = lit@.skip(i as int);
    let mut out: Vec<char> = Vec::new();
    let mut k = i;
    while k < lit.len()
        invariant
            i <= k <= lit@.len(),
            stripped == lit@.skip(i as int),
            out@ == forward_slashes(stripped).take(k - i),
        decreases lit@.len() - k,
    {
        if lit[k] == '\\' {
            out.push('/');
        } else {
            out.push(lit[k]);
        }
        k = k + 1;
        assert(out@ =~= forward_slashes(stripped).take(k - i));
    }
    assert(out@ =~= forward_slashes(stripped));
    text_from_chars(&out)
}

/// A factory of a facade owner: `create` followed by an upper-case letter.
pub open spec fn is_facade_owner_factory(lit: Text) -> bool {
    "create"@.is_prefix_of(lit) && lit.len() > 6 && 'A' <= lit[6] && lit[6] <= 'Z'
}

fn facade_owner_factory(lit: &str) -> (r: bool)
    ensures
        r == is_facade_owner_factory(lit@),
{
    let cs = chars_of(lit);
    starts_with(lit, "create") && cs.len() > 6 && 'A' <= cs[6] && cs[6] <= 'Z'
}

/// A test source that carries architecture guardrails, by its file name.
pub open spec fn is_guardrail_test(path: Text) -> bool {
    ||| ".architecture.test.ts"@.is_suffix_of(path)
    ||| ".architecture.test.tsx"@.is_suffix_of(path)
    ||| ".architecture.spec.ts"@.is_suffix_of(path)
    ||| ".architecture.spec.tsx"@.is_suffix_of(path)
}

/// Whether the file is an architecture guardrail test.
pub fn is_guardrail_test_path(path: &str) -> (r: bool)
    ensures
        r == is_guardrail_test(path@),
{
    ends_with(path, ".architecture.test.ts") || ends_with(path, ".architecture.test.tsx") || ends_with(
        path,
        ".architecture.spec.ts",
    ) || ends_with(path, ".architecture.spec.tsx")
}

/// A guardrail test source: its repository path and its contents.
pub struct GuardrailSource {
    pub path: String,
    pub contents: String,
}

impl Ranked for GuardrailSource {
    /// By path.
    open spec fn ranks_before(self, other: Self) -> bool {
        lex_lt(self.path@, other.path@)
    }

    fn is_ranked_before(&self, other: &Self) -> (r: bool) {
        text_less(self.path.as_str(), other.path.as_str())
    }

    proof fn lemma_ranking_irreflexive(a: Self) {
        lemma_lex_irreflexive(a.path@);
    }

    proof fn lemma_ranking_transitive(a: Self, b: Self, c: Self) {
        lemma_lex_transitive(a.path@, b.path@, c.path@);
    }

    proof fn lemma_ranking_connected(a: Self, b: Self, c: Self) {
        lemma_lex_total(a.path@, b.path@);
        lemma_lex_total(b.path@, c.path@);
        if lex_lt(b.path@, a.path@) && lex_lt(c.path@, b.path@) {
            lemma_lex_transitive(c.path@, b.path@, a.path@);
            lemma_lex_asymmetric(c.path@, a.path@);
        }
        if lex_lt(b.path@, a.path@) && b.path@ == c.path@ {
            lemma_lex_asymmetric(b.path@, a.path@);
        }
        if a.path@ == b.path@ && lex_lt(c.path@, b.path@) {
            lemma_lex_asymmetric(c.path@, b.path@);
        }
    }
}

/// The stem of an architecture test's file name: the name without its
/// `.architecture.test.ts` (or `.tsx`, or `.spec.` kin) ending.
pub open spec fn guard_test_stem(name: Text) -> Option<Text> {
    if ".architecture.test.ts"@.is_suffix_of(name) {
        Some(name.take(name.len() - ".architecture.test.ts"@.len()))
    } else if ".architecture.test.tsx"@.is_suffix_of(name) {
        Some(name.take(name.len() - ".architecture.test.tsx"@.len()))
    } else if ".architecture.spec.ts"@.is_suffix_of(name) {
        Some(name.take(name.len() - ".architecture.spec.ts"@.len()))
    } else if ".architecture.spec.tsx"@.is_suffix_of(name) {
        Some(name.take(name.len() - ".architecture.spec.tsx"@.len()))
    } else {
        None
    }
}

/// The file beside the test with the stem and extension.
pub open spec fn named_candidate(dir: Text, stem: Text, ext: Text) -> Text {
    if dir.len() == 0 {
        stem + ext
    } else {
        dir + "/"@ + stem + ext
    }
}

/// The files an architecture test guards by its name: its stem beside it,
/// with each source extension.
pub open spec fn named_candidates(test_path: Text) -> Seq<Text> {
    match guard_test_stem(file_name_of(test_path)) {
        None => Seq::empty(),
        Some(stem) => {
            let d = parent_of(test_path);
            seq![
                named_candidate(d, stem, ".ts"@),
                named_candidate(d, stem, ".tsx"@),
                named_candidate(d, stem, ".js"@),
                named_candidate(d, stem, ".jsx"@),
            ]
        },
    }
}

fn strip_ending(name: &str, ending: &str) -> (r: String)
    requires
        ending@.is_suffix_of(name@),
    ensures
        r@ == name@.take(name@.len() - ending@.len()),
{
    let cs = chars_of(name);
    let n = char_len(ending);
    slice_text(&cs, 0, cs.len() - n)
}

fn candidate(dir: &str, stem: &str, ext: &str) -> (r: String)
    ensures
        r@ == named_candidate(dir@, stem@, ext@),
{
    let mut r = String::new();
    if char_len(dir) > 0 {
        r.append(dir);
        r.append("/");
    }
    r.append(stem);
    r.append(ext);
    r
}

/// The files an architecture test guards by its name.
fn named_guardrail_candidates(test_path: &str) -> (r: Vec<String>)
    ensures
        r.deep_view() == named_candidates(test_path@),
{
    let name = file_name(test_path);
    let stem = if ends_with(name.as_str(), ".architecture.test.ts") {
        strip_ending(name.as_str(), ".architecture.test.ts")
    } else if ends_with(name.as_str(), ".architecture.test.tsx") {
        strip_ending(name.as_str(), ".architecture.test.tsx")
    } else if ends_with(name.as_str(), ".architecture.spec.ts") {
        strip_ending(name.as_str(), ".architecture.spec.ts")
    } else if ends_with(name.as_str(), ".architecture.spec.tsx") {
        strip_ending(name.as_str(), ".architecture.spec.tsx")
    } else {
        let r: Vec<String> = Vec::new();
        assert(r.deep_view() =~= named_candidates(test_path@));
        return r;
    };
    assert(guard_test_stem(name@) == Some(stem@));
    let dir = parent_dir(test_path);
    let mut r: Vec<String> = Vec::new();
    r.push(candidate(dir.as_str(), stem.as_str(), ".ts"));
    r.push(candidate(dir.as_str(), stem.as_str(), ".tsx"));
    r.push(candidate(dir.as_str(), stem.as_str(), ".js"));
    r.push(candidate(dir.as_str(), stem.as_str(), ".jsx"));
    assert(r.deep_view() =~= named_candidates(test_path@));
    r
}

/// The files the source-file literals name, in order.
pub open spec fn explicit_paths(lits: Seq<Text>) -> Seq<Text>
    decreases lits.len(),
{
    if lits.len() == 0 {
        Seq::empty()
    } else {
        explicit_paths(lits.drop_last()) + if looks_like_source_file(lits.last()) {
            seq![literal_path(lits.last())]
        } else {
            Seq::empty()
        }
    }
}

/// The literals that look like import fragments, in order.
pub open spec fn import_fragments(lits: Seq<Text>) -> Seq<Text>
    decreases lits.len(),
{
    if lits.len() == 0 {
        Seq::empty()
    } else {
        import_fragments(lits.drop_last()) + if looks_like_import_fragment(lits.last()) {
            seq![lits.last()]
        } else {
            Seq::empty()
        }
    }
}

/// The literals that name facade owner factories, in order.
pub open spec fn facade_factories(lits: Seq<Text>) -> Seq<Text>
    decreases lits.len(),
{
    if lits.len() == 0 {
        Seq::empty()
    } else {
        facade_factories(lits.drop_last()) + if is_facade_owner_factory(lits.last()) {
            seq![lits.last()]
        } else {
            Seq::empty()
        }
    }
}

/// Some fragment ends the text.
pub open spec fn ends_with_any(frags: Seq<Text>, t: Text) -> bool
    decreases frags.len(),
{
    frags.len() > 0 && (ends_with_any(frags.drop_last(), t) || frags.last().is_suffix_of(t))
}

/// The test source names file `p`: by the test's own name, or by a quoted
/// source-file literal.
pub open spec fn names_file(src: (Text, Text), p: Text) -> bool {
    named_candidates(src.0).contains(p) || explicit_paths(literals_from(src.1, 0)).contains(p)
}

/// The test source forbids an import fragment that ends the path of `p`
/// without its extension.
pub open spec fn guards_boundary_of(src: (Text, Text), p: Text) -> bool {
    ends_with_any(import_fragments(expected_literals(src.1, true)), without_source_extension(p))
}

/// What one guardrail test source yields, read once.
struct SourceScan {
    path: String,
    candidates: Vec<String>,
    explicit: Vec<String>,
    fragments: Vec<String>,
    required: Vec<String>,
    forbidden: Vec<String>,
    facades: Vec<String>,
}

spec fn scan_of(sc: SourceScan, src: (Text, Text)) -> bool {
    &&& sc.path@ == src.0
    &&& sc.candidates.deep_view() == named_candidates(src.0)
    &&& sc.explicit.deep_view() == explicit_paths(literals_from(src.1, 0))
    &&& sc.fragments.deep_view() == import_fragments(expected_literals(src.1, true))
    &&& sc.required.deep_view() == expected_literals(src.1, false)
    &&& sc.forbidden.deep_view() == expected_literals(src.1, true)
    &&& sc.facades.deep_view() == facade_factories(expected_literals(src.1, false))
}

fn scan_source(src: &GuardrailSource) -> (sc: SourceScan)
    ensures
        scan_of(sc, (src.path@, src.contents@)),
{
    let cs = chars_of(src.contents.as_str());
    let lits = quoted_literals(&cs);
    let mut explicit: Vec<String> = Vec::new();
    let mut i: usize = 0;
    while i < lits.len()
        invariant
            i <= lits@.len(),
            explicit.deep_view() == explicit_paths(lits.deep_view().take(i as int)),
        decreases lits@.len() - i,
    {
        let lit = lits[i].as_str();
        assert(lits.deep_view().take(i + 1).drop_last() =~= lits.deep_view().take(i as int));
        if source_extension(lit) && contains_char(lit, '/') {
            let lc = chars_of(lit);
            explicit.push(normalized_literal_path(&lc));
        }
        i = i + 1;
        assert(explicit.deep_view() =~= explicit_paths(lits.deep_view().take(i as int)));
    }
    assert(lits.deep_view().take(lits@.len() as int) =~= lits.deep_view());
    let required = test_contains_literals(src.contents.as_str(), false);
    let forbidden = test_contains_literals(src.contents.as_str(), true);
    let mut fragments: Vec<String> = Vec::new();
    let mut k: usize = 0;
    while k < forbidden.len()
        invariant
            k <= forbidden@.len(),
            fragments.deep_view() == import_fragments(forbidden.deep_view().take(k as int)),
        decreases forbidden@.len() - k,
    {
        let lit = forbidden[k].as_str();
        assert(forbidden.deep_view().take(k + 1).drop_last() =~= forbidden.deep_view().take(k as int));
        if contains_char(lit, '/') && !contains_char(lit, ' ') && !source_extension(lit) {
            fragments.push(lit.to_string());
        }
        k = k + 1;
        assert(fragments.deep_view() =~= import_fragments(forbidden.deep_view().take(k as int)));
    }
    assert(forbidden.deep_view().take(forbidden@.len() as int) =~= forbidden.deep_view());
    let mut facades: Vec<String> = Vec::new();
    let mut j: usize = 0;
    while j < required.len()
        invariant
            j <= required@.len(),
            facades.deep_view() == facade_factories(required.deep_view().take(j as int)),
        decreases required@.len() - j,
    {
        let lit = required[j].as_str();
        assert(required.deep_view().take(j + 1).drop_last() =~= required.deep_view().take(j as int));
        if facade_owner_factory(lit) {
            facades.push(lit.to_string());
        }
        j = j + 1;
        assert(facades.deep_view() =~= facade_factories(required.deep_view().take(j as int)));
    }
    assert(required.deep_view().take(required@.len() as int) =~= required.deep_view());
    SourceScan {
        path: src.path.clone(),
        candidates: named_guardrail_candidates(src.path.as_str()),
        explicit,
        fragments,
        required,
        forbidden,
        facades,
    }
}

/// The test source guards file `p` of the project by name.
pub open spec fn targets_file(src: (Text, Text), files: Set<Text>, p: Text) -> bool {
    files.contains(p) && names_file(src, p)
}

/// The test source forbids a module path that `p` of the project ends.
pub open spec fn boundary_file(src: (Text, Text), files: Set<Text>, p: Text) -> bool {
    files.contains(p) && guards_boundary_of(src, p)
}

/// The tests that guard `p`, one entry per test source, in source order.
pub open spec fn raw_tests(ss: Seq<(Text, Text)>, files: Set<Text>, p: Text) -> Seq<Text>
    decreases ss.len(),
{
    if ss.len() == 0 {
        Seq::empty()
    } else {
        raw_tests(ss.drop_last(), files, p) + if targets_file(ss.last(), files, p) || boundary_file(ss.last(), files, p) {
            seq![ss.last().0]
        } else {
            Seq::empty()
        }
    }
}

/// The literals the sources that name `p` require, in source order.
pub open spec fn raw_required(ss: Seq<(Text, Text)>, files: Set<Text>, p: Text) -> Seq<Text>
    decreases ss.len(),
{
    if ss.len() == 0 {
        Seq::empty()
    } else {
        raw_required(ss.drop_last(), files, p) + if targets_file(ss.last(), files, p) {
            expected_literals(ss.last().1, false)
        } else {
            Seq::empty()
        }
    }
}

/// The literals the sources that name `p` forbid, in source order.
pub open spec fn raw_forbidden(ss: Seq<(Text, Text)>, files: Set<Text>, p: Text) -> Seq<Text>
    decreases ss.len(),
{
    if ss.len() == 0 {
        Seq::empty()
    } else {
        raw_forbidden(ss.drop_last(), files, p) + if targets_file(ss.last(), files, p) {
            expected_literals(ss.last().1, true)
        } else {
            Seq::empty()
        }
    }
}

/// The facade owner factories the sources that name `p` require.
pub open spec fn raw_facades(ss: Seq<(Text, Text)>, files: Set<Text>, p: Text) -> Seq<Text>
    decreases ss.len(),
{
    if ss.len() == 0 {
        Seq::empty()
    } else {
        raw_facades(ss.drop_last(), files, p) + if targets_file(ss.last(), files, p) {
            facade_factories(expected_literals(ss.last().1, false))
        } else {
            Seq::empty()
        }
    }
}

/// The forbidden literals of the sources that guard the boundary of `p`.
pub open spec fn raw_boundary(ss: Seq<(Text, Text)>, files: Set<Text>, p: Text) -> Seq<Text>
    decreases ss.len(),
{
    if ss.len() == 0 {
        Seq::empty()
    } else {
        raw_boundary(ss.drop_last(), files, p) + if boundary_file(ss.last(), files, p) {
            expected_literals(ss.last().1, true)
        } else {
            Seq::empty()
        }
    }
}

/// The evidence of a file as plain values: path, tests, required and
/// forbidden literals, facade owner factories, boundary guard literals.
pub type EvidenceView = (Text, Seq<Text>, Seq<Text>, Seq<Text>, Seq<Text>, Seq<Text>);

pub open spec fn evidence_view(e: GuardrailFileEvidence) -> EvidenceView {
    (
        e.path@,
        e.tests.deep_view(),
        e.required_literals.deep_view(),
        e.forbidden_literals.deep_view(),
        e.facade_owner_factories.deep_view(),
        e.boundary_guard_literals.deep_view(),
    )
}

pub open spec fn evidence_views(es: Seq<GuardrailFileEvidence>) -> Seq<EvidenceView> {
    Seq::new(es.len(), |i: int| evidence_view(es[i]))
}

/// The evidence for `p`: each list without repeats or empty entries.
pub open spec fn evidence_for(ss: Seq<(Text, Text)>, files: Set<Text>, p: Text) -> EvidenceView {
    (
        p,
        dedupe(raw_tests(ss, files, p)),
        dedupe(raw_required(ss, files, p)),
        dedupe(raw_forbidden(ss, files, p)),
        dedupe(raw_facades(ss, files, p)),
        dedupe(raw_boundary(ss, files, p)),
    )
}

/// The evidence of each listed file that some source guards, in list order.
pub open spec fn evidence_listing(ss: Seq<(Text, Text)>, files: Set<Text>, paths: Seq<Text>) -> Seq<EvidenceView>
    decreases paths.len(),
{
    if paths.len() == 0 {
        Seq::empty()
    } else {
        evidence_listing(ss, files, paths.drop_last()) + if raw_tests(ss, files, paths.last()).len() > 0 {
            seq![evidence_for(ss, files, paths.last())]
        } else {
            Seq::empty()
        }
    }
}

/// The sources as (path, contents) pairs.
pub open spec fn source_views(ss: Seq<GuardrailSource>) -> Seq<(Text, Text)> {
    Seq::new(ss.len(), |i: int| (ss[i].path@, ss[i].contents@))
}

fn names(sc: &SourceScan, p: &str) -> (r: bool)
    ensures
        r == (sc.candidates.deep_view().contains(p@) || sc.explicit.deep_view().contains(p@)),
{
    texts_contain(&sc.candidates, p) || texts_contain(&sc.explicit, p)
}

fn ends_any(frags: &Vec<String>, t: &str) -> (r: bool)
    ensures
        r == ends_with_any(frags.deep_view(), t@),
{
    let mut found = false;
    let mut i: usize = 0;
    while i < frags.len()
        invariant
            i <= frags@.len(),
            found == ends_with_any(frags.deep_view().take(i as int), t@),
        decreases frags@.len() - i,
    {
        assert(frags.deep_view().take(i + 1).drop_last() =~= frags.deep_view().take(i as int));
        found = found || ends_with(t, frags[i].as_str());
        i = i + 1;
    }
    assert(frags.deep_view().take(frags@.len() as int) =~= frags.deep_view());
    found
}

fn extend_lines(v: &mut Vec<String>, more: &Vec<String>)
    ensures
        final(v).deep_view() == old(v).deep_view() + more.deep_view(),
{
    let ghost start = v.deep_view();
    let mut i: usize = 0;
    while i < more.len()
        invariant
            i <= more@.len(),
            v.deep_view() == start + more.deep_view().take(i as int),
        decreases more@.len() - i,
    {
        push_line(v, copy_text(more[i].as_str()));
        i = i + 1;
        assert(v.deep_view() =~= start + more.deep_view().take(i as int));
    }
    assert(more.deep_view().take(more@.len() as int) =~= more.deep_view());
}

/// `r` is the guardrail evidence of the sources over the files: the sources
/// read in path order, the files in path order.
pub open spec fn guardrails_detected(r: Seq<GuardrailFileEvidence>, sources: Seq<GuardrailSource>, file_paths: Seq<Text>) -> bool {
    exists|ordered: Seq<GuardrailSource>, paths: Seq<Text>|
        #![trigger evidence_listing(source_views(ordered), file_paths.to_set(), paths)]
        {
            &&& ranked_order(ordered)
            &&& ordered.to_multiset() == sources.to_multiset()
            &&& strictly_sorted(paths)
            &&& paths.to_set() == file_paths.to_set()
            &&& evidence_views(r) == evidence_listing(source_views(ordered), file_paths.to_set(), paths)
        }
}

/// What the architecture guardrail tests say about each file of the
/// project: the sources are read in path order, and each file of
/// `file_paths` that some source names (by the test's name or a quoted
/// source path) or whose module path a source forbids gets its evidence;
/// the evidence comes in path order.
pub fn detect_architecture_guardrails(sources: Vec<GuardrailSource>, file_paths: &Vec<String>) -> (r: Vec<
    GuardrailFileEvidence,
>)
    ensures
        guardrails_detected(r@, sources@, file_paths.deep_view()),
{
    let ordered = sort_ranked(sources);
    let ghost ss = source_views(ordered@);
    let ghost files = file_paths.deep_view().to_set();
    let paths = sorted_unique(file_paths);
    let mut scans: Vec<SourceScan> = Vec::new();
    let mut i: usize = 0;
    while i < ordered.len()
        invariant
            i <= ordered@.len(),
            ss == source_views(ordered@),
            scans@.len() == i,
            forall|k: int| 0 <= k < i ==> scan_of(#[trigger] scans@[k], ss[k]),
        decreases ordered@.len() - i,
    {
        scans.push(scan_source(&ordered[i]));
        i = i + 1;
    }
    let mut r: Vec<GuardrailFileEvidence> = Vec::new();
    let mut j: usize = 0;
    while j < paths.len()
        invariant
            j <= paths@.len(),
            ss == source_views(ordered@),
            files == file_paths.deep_view().to_set(),
            paths.deep_view().to_set() == files,
            scans@.len() == ss.len(),
            forall|k: int| 0 <= k < ss.len() ==> scan_of(#[trigger] scans@[k], ss[k]),
            evidence_views(r@) == evidence_listing(ss, files, paths.deep_view().take(j as int)),
        decreases paths@.len() - j,
    {
        let p = paths[j].as_str();
        assert(files.contains(p@)) by {
            assert(paths.deep_view()[j as int] == p@);
        }
        let bare = path_without_extension(p);
        let mut tests: Vec<String> = Vec::new();
        let mut required: Vec<String> = Vec::new();
        let mut forbidden: Vec<String> = Vec::new();
        let mut facades: Vec<String> = Vec::new();
        let mut boundary: Vec<String> = Vec::new();
        let mut k: usize = 0;
        while k < scans.len()
            invariant
                k <= scans@.len(),
                scans@.len() == ss.len(),
                forall|q: int| 0 <= q < ss.len() ==> scan_of(#[trigger] scans@[q], ss[q]),
                files.contains(p@),
                bare@ == without_source_extension(p@),
                tests.deep_view() == raw_tests(ss.take(k as int), files, p@),
                required.deep_view() == raw_required(ss.take(k as int), files, p@),
                forbidden.deep_view() == raw_forbidden(ss.take(k as int), files, p@),
                facades.deep_view() == raw_facades(ss.take(k as int), files, p@),
                boundary.deep_view() == raw_boundary(ss.take(k as int), files, p@),
            decreases scans@.len() - k,
        {
            let sc = &scans[k];
            assert(scan_of(scans@[k as int], ss[k as int]));
            assert(ss.take(k + 1).drop_last() =~= ss.take(k as int));
            assert(ss.take(k + 1).last() == ss[k as int]);
            let named = names(sc, p);
            let guarded = ends_any(&sc.fragments, bare.as_str());
            if named || guarded {
                push_line(&mut tests, sc.path.clone());
            } else {
                assert(tests.deep_view() =~= tests.deep_view() + Seq::<Text>::empty());
            }
            if named {
                extend_lines(&mut required, &sc.required);
                extend_lines(&mut forbidden, &sc.forbidden);
                extend_lines(&mut facades, &sc.facades);
            } else {
                assert(required.deep_view() =~= required.deep_view() + Seq::<Text>::empty());
                assert(forbidden.deep_view() =~= forbidden.deep_view() + Seq::<Text>::empty());
                assert(facades.deep_view() =~= facades.deep_view() + Seq::<Text>::empty());
            }
            if guarded {
                extend_lines(&mut boundary, &sc.forbidden);
            } else {
                assert(boundary.deep_view() =~= boundary.deep_view() + Seq::<Text>::empty());
            }
            k = k + 1;
        }
        assert(ss.take(ss.len() as int) =~= ss);
        assert(paths.deep_view().take(j + 1).drop_last() =~= paths.deep_view().take(j as int));
        assert(paths.deep_view().take(j + 1).last() == p@);
        let ghost before = evidence_views(r@);
        if tests.len() > 0 {
            let e = GuardrailFileEvidence {
                path: p.to_string(),
                tests: dedupe_strings_preserve_order(&tests),
                required_literals: dedupe_strings_preserve_order(&required),
                forbidden_literals: dedupe_strings_preserve_order(&forbidden),
                facade_owner_factories: dedupe_strings_preserve_order(&facades),
                boundary_guard_literals: dedupe_strings_preserve_order(&boundary),
            };
            r.push(e);
            assert(evidence_views(r@) =~= before.push(evidence_for(ss, files, p@)));
        } else {
            assert(evidence_views(r@) =~= before + Seq::<EvidenceView>::empty());
        }
        j = j + 1;
    }
    assert(paths.deep_view().take(paths@.len() as int) =~= paths.deep_view());
    r
}

} // verus!
