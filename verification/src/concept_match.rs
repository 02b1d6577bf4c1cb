//! Which reads and writes belong to a concept, and which scoped patterns
//! (`path-glob::symbol-pattern`) select a fact.
use crate::paths::{is_test_file, is_test_path};
use crate::semantic::{
    glob_match, glob_matches, path_from_scoped_value, scoped_path, scoped_symbol, symbol_from_scoped_path,
    ConceptRule, ReadFact, WriteFact,
};
use crate::text::{concat, ends_with, starts_with, text_eq, Text};
use vstd::prelude::*;

verus! {

/// The symbols named by the scoped values among `values`, in order.
pub open spec fn scoped_symbols(values: Seq<Text>) -> Seq<Text>
    decreases values.len(),
{
    if values.len() == 0 {
        Seq::empty()
    } else {
        let prev = scoped_symbols(values.drop_last());
        match scoped_symbol(values.last()) {
            Some(sym) => prev.push(sym),
            None => prev,
        }
    }
}

/// The symbols of a concept's anchors and authoritative inputs.
pub open spec fn concept_target_symbols(c: ConceptRule) -> Seq<Text> {
    scoped_symbols(c.anchors.deep_view() + c.authoritative_inputs.deep_view())
}

/// The symbols whose writes belong to a concept: a projection's anchors,
/// otherwise its anchors and authoritative inputs.
pub open spec fn write_target_symbols(c: ConceptRule) -> Seq<Text> {
    if c.kind@ == "projection"@ {
        scoped_symbols(c.anchors.deep_view())
    } else {
        concept_target_symbols(c)
    }
}

/// The symbols whose reads belong to a concept: a projection's
/// authoritative inputs when it has any, otherwise its anchors and inputs.
pub open spec fn read_target_symbols(c: ConceptRule) -> Seq<Text> {
    if c.kind@ == "projection"@ && c.authoritative_inputs@.len() > 0 {
        scoped_symbols(c.authoritative_inputs.deep_view())
    } else {
        concept_target_symbols(c)
    }
}

/// `symbol` is `target` or a member of it (`target.x`, `target[*].x`, `target.*.x`).
pub open spec fn matches_target(symbol: Text, target: Text) -> bool {
    ||| symbol == target
    ||| (target + "."@).is_prefix_of(symbol)
    ||| (target + "[*]."@).is_prefix_of(symbol)
    ||| (target + ".*."@).is_prefix_of(symbol)
}

/// `symbol` matches one of the targets.
pub open spec fn matches_any_target(symbol: Text, targets: Seq<Text>) -> bool {
    exists|i: int| 0 <= i < targets.len() && matches_target(symbol, #[trigger] targets[i])
}

/// A symbol pattern: the symbol itself, or `prefix.*` / `prefix.**`, which
/// match `prefix` and its members.
pub open spec fn symbol_pattern_matches(pattern: Text, symbol: Text) -> bool {
    ||| pattern == symbol
    ||| (".*"@.is_suffix_of(pattern) && {
        let prefix = pattern.take(pattern.len() - 2);
        symbol == prefix || (prefix + "."@).is_prefix_of(symbol)
    })
    ||| (".**"@.is_suffix_of(pattern) && {
        let prefix = pattern.take(pattern.len() - 3);
        symbol == prefix || (prefix + "."@).is_prefix_of(symbol)
    })
}

/// A scoped pattern `path-glob::symbol-pattern` selects a fact at `path` on
/// `symbol`: the glob matches the path, and the symbol pattern, when there
/// is one other than `*` or `**`, matches the symbol.
pub open spec fn scoped_pattern_matches(pattern: Text, path: Text, symbol: Text) -> bool {
    &&& glob_matches(scoped_path(pattern), path)
    &&& match scoped_symbol(pattern) {
        None => true,
        Some(sp) => sp == "*"@ || sp == "**"@ || symbol_pattern_matches(sp, symbol),
    }
}

/// One of the patterns selects the fact.
pub open spec fn any_pattern_matches(patterns: Seq<Text>, path: Text, symbol: Text) -> bool {
    exists|i: int| 0 <= i < patterns.len() && scoped_pattern_matches(#[trigger] patterns[i], path, symbol)
}

/// The writes of production code to the targets, in order.
pub open spec fn production_writes(writes: Seq<WriteFact>, targets: Seq<Text>) -> Seq<WriteFact>
    decreases writes.len(),
{
    if writes.len() == 0 {
        Seq::empty()
    } else {
        let prev = production_writes(writes.drop_last(), targets);
        let w = writes.last();
        if matches_any_target(w.symbol_name@, targets) && !is_test_path(w.path@) {
            prev.push(w)
        } else {
            prev
        }
    }
}

/// The reads of the targets by production code, in order.
pub open spec fn production_reads(reads: Seq<ReadFact>, targets: Seq<Text>) -> Seq<ReadFact>
    decreases reads.len(),
{
    if reads.len() == 0 {
        Seq::empty()
    } else {
        let prev = production_reads(reads.drop_last(), targets);
        let r = reads.last();
        if matches_any_target(r.symbol_name@, targets) && !is_test_path(r.path@) {
            prev.push(r)
        } else {
            prev
        }
    }
}

/// Appends the symbols of the scoped values among `values` to `out`.
fn push_scoped_symbols(out: &mut Vec<String>, values: &Vec<String>, Ghost(before): Ghost<Seq<Text>>)
    requires
        old(out).deep_view() == scoped_symbols(before),
    ensures
        final(out).deep_view() == scoped_symbols(before + values.deep_view()),
{
    let mut i: usize = 0;
    assert(before + values.deep_view().take(0) =~= before);
    while i < values.len()
        invariant
            i <= values@.len(),
            out.deep_view() == scoped_symbols(before + values.deep_view().take(i as int)),
        decreases values@.len() - i,
    {
        let ghost prefix = before + values.deep_view().take(i as int);
        let ghost next = before + values.deep_view().take(i + 1);
        assert(next.drop_last() =~= prefix);
        assert(next.last() == values.deep_view()[i as int]);
        match symbol_from_scoped_path(values[i].as_str()) {
            Some(sym) => {
                crate::text::push_line(out, sym);
            },
            None => {},
        }
        i = i + 1;
    }
    assert(values.deep_view().take(values@.len() as int) =~= values.deep_view());
}

/// The symbols of the scoped values among `values`.
pub fn scoped_symbol_list(values: &Vec<String>) -> (r: Vec<String>)
    ensures
        r.deep_view() == scoped_symbols(values.deep_view()),
{
    let mut out: Vec<String> = Vec::new();
    assert(out.deep_view() =~= Seq::<Text>::empty());
    assert(Seq::<Text>::empty() + values.deep_view() =~= values.deep_view());
    push_scoped_symbols(&mut out, values, Ghost(Seq::empty()));
    out
}

/// The symbols of a concept's anchors and authoritative inputs.
pub fn concept_targets(c: &ConceptRule) -> (r: Vec<String>)
    ensures
        r.deep_view() == concept_target_symbols(*c),
{
    let mut out = scoped_symbol_list(&c.anchors);
    let ghost anchors = c.anchors.deep_view();
    assert(out.deep_view() == scoped_symbols(anchors));
    push_scoped_symbols(&mut out, &c.authoritative_inputs, Ghost(anchors));
    out
}

/// The symbols whose writes belong to the concept.
pub fn concept_write_targets(c: &ConceptRule) -> (r: Vec<String>)
    ensures
        r.deep_view() == write_target_symbols(*c),
{
    if text_eq(c.kind.as_str(), "projection") {
        scoped_symbol_list(&c.anchors)
    } else {
        concept_targets(c)
    }
}

/// The symbols whose reads belong to the concept.
pub fn concept_read_targets(c: &ConceptRule) -> (r: Vec<String>)
    ensures
        r.deep_view() == read_target_symbols(*c),
{
    if text_eq(c.kind.as_str(), "projection") && c.authoritative_inputs.len() > 0 {
        scoped_symbol_list(&c.authoritative_inputs)
    } else {
        concept_targets(c)
    }
}

/// Whether `symbol` is `target` or one of its members.
pub fn symbol_matches_target(symbol: &str, target: &str) -> (r: bool)
    ensures
        r == matches_target(symbol@, target@),
{
    if text_eq(symbol, target) {
        return true;
    }
    let dotted = concat(target, ".");
    let indexed = concat(target, "[*].");
    let starred = concat(target, ".*.");
    starts_with(symbol, dotted.as_str()) || starts_with(symbol, indexed.as_str()) || starts_with(
        symbol,
        starred.as_str(),
    )
}

/// Whether `symbol` matches one of the targets.
pub fn symbol_matches_targets(symbol: &str, targets: &Vec<String>) -> (r: bool)
    ensures
        r == matches_any_target(symbol@, targets.deep_view()),
{
    let mut i: usize = 0;
    while i < targets.len()
        invariant
            i <= targets@.len(),
            forall|k: int| 0 <= k < i ==> !matches_target(symbol@, #[trigger] targets.deep_view()[k]),
        decreases targets@.len() - i,
    {
        if symbol_matches_target(symbol, targets[i].as_str()) {
            assert(matches_target(symbol@, targets.deep_view()[i as int]));
            return true;
        }
        i = i + 1;
    }
    false
}

/// Whether the symbol pattern matches the symbol (see `symbol_pattern_matches`).
pub fn symbol_pattern_match(pattern: &str, symbol: &str) -> (r: bool)
    ensures
        r == symbol_pattern_matches(pattern@, symbol@),
{
    if text_eq(pattern, symbol) {
        return true;
    }
    let v = crate::text::chars_of(pattern);
    let n = v.len();
    if ends_with(pattern, ".*") {
        proof {
            reveal_strlit(".*");
            reveal_strlit(".**");
        }
        let prefix = crate::paths::slice_text(&v, 0, n - 2);
        let dotted = concat(prefix.as_str(), ".");
        let r = text_eq(symbol, prefix.as_str()) || starts_with(symbol, dotted.as_str());
        proof {
            if ".**"@.is_suffix_of(pattern@) {
                assert(pattern@[pattern@.len() - 2] == ".**"@[1]);
                assert(pattern@[pattern@.len() - 2] == ".*"@[0]);
            }
        }
        return r;
    }
    if ends_with(pattern, ".**") {
        proof {
            reveal_strlit(".**");
        }
        let prefix = crate::paths::slice_text(&v, 0, n - 3);
        let dotted = concat(prefix.as_str(), ".");
        return text_eq(symbol, prefix.as_str()) || starts_with(symbol, dotted.as_str());
    }
    false
}

/// Whether the scoped pattern selects a fact at `path` on `symbol` (see
/// `scoped_pattern_matches`).
pub fn scoped_pattern_match(pattern: &str, path: &str, symbol: &str) -> (r: bool)
    ensures
        r == scoped_pattern_matches(pattern@, path@, symbol@),
{
    let path_pattern = path_from_scoped_value(pattern);
    if !glob_match(path_pattern.as_str(), path) {
        return false;
    }
    match symbol_from_scoped_path(pattern) {
        None => true,
        Some(sp) => text_eq(sp.as_str(), "*") || text_eq(sp.as_str(), "**") || symbol_pattern_match(
            sp.as_str(),
            symbol,
        ),
    }
}

/// Whether one of the patterns selects the fact.
pub fn pattern_list_matches(patterns: &Vec<String>, path: &str, symbol: &str) -> (r: bool)
    ensures
        r == any_pattern_matches(patterns.deep_view(), path@, symbol@),
{
    let mut i: usize = 0;
    while i < patterns.len()
        invariant
            i <= patterns@.len(),
            forall|k: int| 0 <= k < i ==> !scoped_pattern_matches(#[trigger] patterns.deep_view()[k], path@, symbol@),
        decreases patterns@.len() - i,
    {
        if scoped_pattern_match(patterns[i].as_str(), path, symbol) {
            assert(scoped_pattern_matches(patterns.deep_view()[i as int], path@, symbol@));
            return true;
        }
        i = i + 1;
    }
    false
}

/// Whether a write is a production write to one of the targets.
pub fn is_production_write(w: &WriteFact, targets: &Vec<String>) -> (r: bool)
    ensures
        r == (matches_any_target(w.symbol_name@, targets.deep_view()) && !is_test_path(w.path@)),
{
    symbol_matches_targets(w.symbol_name.as_str(), targets) && !is_test_file(w.path.as_str())
}

/// Whether a read is a production read of one of the targets.
pub fn is_production_read(r: &ReadFact, targets: &Vec<String>) -> (b: bool)
    ensures
        b == (matches_any_target(r.symbol_name@, targets.deep_view()) && !is_test_path(r.path@)),
{
    symbol_matches_targets(r.symbol_name.as_str(), targets) && !is_test_file(r.path.as_str())
}

} // verus!
