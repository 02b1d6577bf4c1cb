//! Authority and access findings of concepts: several production writers,
//! writes from forbidden places or outside the allowed writers, raw reads
//! from forbidden places, and imports that bypass a concept's canonical
//! entry points.
use crate::concept_match::{
    any_pattern_matches, concept_read_targets, concept_write_targets, is_production_read, is_production_write,
    pattern_list_matches, production_reads, production_writes, read_target_symbols, write_target_symbols,
};
use crate::grouping::{group_pairs, grouping_of, sorted_set, sorted_set_of};
use crate::order::texts_contain;
use crate::grouping::{group_keys, pair_keys};
use crate::paths::{is_test_file, is_test_path};
use crate::semantic::{glob_match, glob_matches, path_from_scoped_value, scoped_path, ConceptRule, ReadFact, RulesConfig, SemanticSnapshot, WriteFact};
use crate::snapshot::{ImportEdge, Snapshot};
use crate::text::{dec, decimal, join, join_texts, push_line, text_eq, Text};
use crate::{findings_view, FindingSeverity, FindingView, SemanticFinding};
use vstd::prelude::*;

verus! {

/// A fact written as `path::symbol`.
pub open spec fn scoped_fact(path: Text, symbol: Text) -> Text {
    path + "::"@ + symbol
}

/// The production writes that belong to the concept.
pub open spec fn concept_writes(c: ConceptRule, semantic: SemanticSnapshot) -> Seq<WriteFact> {
    production_writes(semantic.writes@, write_target_symbols(c))
}

/// The production reads that belong to the concept.
pub open spec fn concept_reads(c: ConceptRule, semantic: SemanticSnapshot) -> Seq<ReadFact> {
    production_reads(semantic.reads@, read_target_symbols(c))
}

/// The evidence line of a write: `path::symbol (kind)`.
pub open spec fn write_line(w: WriteFact) -> Text {
    scoped_fact(w.path@, w.symbol_name@) + " ("@ + w.write_kind@ + ")"@
}

/// The findings of a grouping, one per key: the key is the finding's only
/// file, the summary is `head` followed by the key, the group's values are
/// the evidence.
pub open spec fn group_findings(
    g: Seq<(Text, Seq<Text>)>,
    kind: Text,
    severity: FindingSeverity,
    concept: Text,
    head: Text,
) -> Seq<FindingView> {
    g.map_values(|e: (Text, Seq<Text>)| (kind, severity, concept, head + e.0, seq![e.0], e.1))
}

/// The multi-writer finding of a concept: when production code in more than
/// one file writes it, one finding listing those files and every write.
pub open spec fn multi_writer_spec(c: ConceptRule, semantic: SemanticSnapshot) -> Seq<FindingView> {
    let ws = concept_writes(c, semantic);
    let files = sorted_set(ws.map_values(|w: WriteFact| w.path@).to_set());
    if files.len() <= 1 {
        Seq::empty()
    } else {
        seq![
            (
                "multi_writer_concept"@,
                FindingSeverity::High,
                c.id@,
                "Concept '"@ + c.id@ + "' is mutated from "@ + dec(files.len()) + " files"@,
                files,
                sorted_set(ws.map_values(|w: WriteFact| write_line(w)).to_set()),
            ),
        ]
    }
}

/// The writes that a forbidden-writer pattern selects, as (file, fact).
pub open spec fn forbidden_write_pairs(c: ConceptRule, ws: Seq<WriteFact>) -> Seq<(Text, Text)>
    decreases ws.len(),
{
    if ws.len() == 0 {
        Seq::empty()
    } else {
        let prev = forbidden_write_pairs(c, ws.drop_last());
        let w = ws.last();
        if any_pattern_matches(c.forbid_writers.deep_view(), w.path@, w.symbol_name@) {
            prev.push((w.path@, scoped_fact(w.path@, w.symbol_name@)))
        } else {
            prev
        }
    }
}

/// The writes that are not forbidden but that no allowed-writer pattern
/// selects, when the concept lists allowed writers, as (file, fact).
pub open spec fn outside_write_pairs(c: ConceptRule, ws: Seq<WriteFact>) -> Seq<(Text, Text)>
    decreases ws.len(),
{
    if ws.len() == 0 {
        Seq::empty()
    } else {
        let prev = outside_write_pairs(c, ws.drop_last());
        let w = ws.last();
        if !any_pattern_matches(c.forbid_writers.deep_view(), w.path@, w.symbol_name@) && c.allowed_writers@.len() > 0
            && !any_pattern_matches(c.allowed_writers.deep_view(), w.path@, w.symbol_name@) {
            prev.push((w.path@, scoped_fact(w.path@, w.symbol_name@)))
        } else {
            prev
        }
    }
}

/// The writer-policy findings of a concept: one per file that writes it from
/// a forbidden location, then one per file that writes it outside its
/// allowed writers, each file in increasing order.
pub open spec fn writer_policy_spec(c: ConceptRule, semantic: SemanticSnapshot) -> Seq<FindingView> {
    let ws = concept_writes(c, semantic);
    group_findings(
        grouping_of(forbidden_write_pairs(c, ws)),
        "forbidden_writer"@,
        FindingSeverity::High,
        c.id@,
        "Concept '"@ + c.id@ + "' is written from forbidden location "@,
    ) + group_findings(
        grouping_of(outside_write_pairs(c, ws)),
        "writer_outside_allowlist"@,
        FindingSeverity::High,
        c.id@,
        "Concept '"@ + c.id@ + "' is written outside its allowed writer set at "@,
    )
}

/// A file that `ws` writes from, with a write that the forbidden-writer
/// patterns select (when `forbidden`) or with a write that they leave alone
/// and that, where allowed writers are listed, none of them selects.
pub open spec fn writes_from(c: ConceptRule, ws: Seq<WriteFact>, file: Text, forbidden: bool) -> bool {
    exists|j: int|
        0 <= j < ws.len() && (#[trigger] ws[j]).path@ == file && if forbidden {
            any_pattern_matches(c.forbid_writers.deep_view(), ws[j].path@, ws[j].symbol_name@)
        } else {
            &&& !any_pattern_matches(c.forbid_writers.deep_view(), ws[j].path@, ws[j].symbol_name@)
            &&& c.allowed_writers@.len() > 0
            &&& !any_pattern_matches(c.allowed_writers.deep_view(), ws[j].path@, ws[j].symbol_name@)
        }
}

proof fn lemma_policy_pairs_from_writes(c: ConceptRule, ws: Seq<WriteFact>)
    ensures
        forall|k: int|
            0 <= k < forbidden_write_pairs(c, ws).len() ==> writes_from(c, ws, (#[trigger] forbidden_write_pairs(c, ws)[k]).0, true),
        forall|k: int|
            0 <= k < outside_write_pairs(c, ws).len() ==> writes_from(c, ws, (#[trigger] outside_write_pairs(c, ws)[k]).0, false),
    decreases ws.len(),
{
    if ws.len() > 0 {
        let rest = ws.drop_last();
        lemma_policy_pairs_from_writes(c, rest);
        let fp = forbidden_write_pairs(c, rest);
        let op = outside_write_pairs(c, rest);
        assert forall|k: int| 0 <= k < fp.len() implies writes_from(c, ws, (#[trigger] fp[k]).0, true) by {
            let j = choose|j: int|
                0 <= j < rest.len() && (#[trigger] rest[j]).path@ == fp[k].0 && any_pattern_matches(
                    c.forbid_writers.deep_view(),
                    rest[j].path@,
                    rest[j].symbol_name@,
                );
            assert(ws[j] == rest[j]);
        }
        assert forall|k: int| 0 <= k < op.len() implies writes_from(c, ws, (#[trigger] op[k]).0, false) by {
            let j = choose|j: int|
                0 <= j < rest.len() && (#[trigger] rest[j]).path@ == op[k].0 && {
                    &&& !any_pattern_matches(c.forbid_writers.deep_view(), rest[j].path@, rest[j].symbol_name@)
                    &&& c.allowed_writers@.len() > 0
                    &&& !any_pattern_matches(c.allowed_writers.deep_view(), rest[j].path@, rest[j].symbol_name@)
                };
            assert(ws[j] == rest[j]);
        }
        assert(ws[ws.len() - 1] == ws.last());
    }
}

proof fn lemma_group_keys_from_pairs(pairs: Seq<(Text, Text)>)
    ensures
        forall|i: int| 0 <= i < grouping_of(pairs).len() ==> pair_keys(pairs).contains((#[trigger] grouping_of(pairs)[i]).0),
{
    let keys = pair_keys(pairs).to_set();
    assert(keys.finite()) by {
        pair_keys(pairs).lemma_cardinality_of_set();
    }
    crate::grouping::lemma_sorted_set_finite(keys);
    assert forall|i: int| 0 <= i < grouping_of(pairs).len() implies pair_keys(pairs).contains(
        (#[trigger] grouping_of(pairs)[i]).0,
    ) by {
        let ks = sorted_set(keys);
        assert(grouping_of(pairs)[i].0 == ks[i]);
        assert(ks.to_set().contains(ks[i]));
    }
}

/// The writer-policy findings name only files that write the concept in
/// the way their kind says: a forbidden-writer finding names a file with a
/// write that a forbidden-writer pattern selects; an outside-allowlist
/// finding names a file with a write that no forbidden-writer pattern
/// selects and that none of the listed allowed writers selects. So a write
/// that a forbidden-writer pattern selects never makes its file an
/// outside-allowlist finding.
pub proof fn lemma_writer_policy_files(c: ConceptRule, semantic: SemanticSnapshot)
    ensures
        forall|i: int|
            0 <= i < writer_policy_spec(c, semantic).len() ==> {
                let f = #[trigger] writer_policy_spec(c, semantic)[i];
                &&& f.0 == "forbidden_writer"@ || f.0 == "writer_outside_allowlist"@
                &&& f.4.len() == 1
                &&& f.0 == "forbidden_writer"@ ==> writes_from(c, concept_writes(c, semantic), f.4[0], true)
                &&& f.0 == "writer_outside_allowlist"@ ==> writes_from(c, concept_writes(c, semantic), f.4[0], false)
            },
{
    reveal_strlit("forbidden_writer");
    reveal_strlit("writer_outside_allowlist");
    assert("forbidden_writer"@.len() != "writer_outside_allowlist"@.len());
    let ws = concept_writes(c, semantic);
    lemma_policy_pairs_from_writes(c, ws);
    let fp = forbidden_write_pairs(c, ws);
    let op = outside_write_pairs(c, ws);
    lemma_group_keys_from_pairs(fp);
    lemma_group_keys_from_pairs(op);
    let gf = grouping_of(fp);
    let go = grouping_of(op);
    let a = group_findings(gf, "forbidden_writer"@, FindingSeverity::High, c.id@, "Concept '"@ + c.id@
        + "' is written from forbidden location "@);
    let b = group_findings(go, "writer_outside_allowlist"@, FindingSeverity::High, c.id@, "Concept '"@ + c.id@
        + "' is written outside its allowed writer set at "@);
    assert(writer_policy_spec(c, semantic) == a + b);
    assert forall|i: int| 0 <= i < (a + b).len() implies {
        let f = #[trigger] (a + b)[i];
        &&& f.0 == "forbidden_writer"@ || f.0 == "writer_outside_allowlist"@
        &&& f.4.len() == 1
        &&& f.0 == "forbidden_writer"@ ==> writes_from(c, ws, f.4[0], true)
        &&& f.0 == "writer_outside_allowlist"@ ==> writes_from(c, ws, f.4[0], false)
    } by {
        if i < a.len() {
            assert((a + b)[i] == a[i]);
            let key = gf[i].0;
            assert(pair_keys(fp).contains(key));
            let k = choose|k: int| 0 <= k < pair_keys(fp).len() && pair_keys(fp)[k] == key;
            assert(fp[k].0 == key);
        } else {
            let t = i - a.len();
            assert((a + b)[i] == b[t]);
            let key = go[t].0;
            assert(pair_keys(op).contains(key));
            let k = choose|k: int| 0 <= k < pair_keys(op).len() && pair_keys(op)[k] == key;
            assert(op[k].0 == key);
        }
    }
}

proof fn lemma_writes_make_pairs(c: ConceptRule, ws: Seq<WriteFact>)
    ensures
        forall|j: int|
            0 <= j < ws.len() && any_pattern_matches(c.forbid_writers.deep_view(), (#[trigger] ws[j]).path@, ws[j].symbol_name@)
                ==> pair_keys(forbidden_write_pairs(c, ws)).contains(ws[j].path@),
        forall|j: int|
            0 <= j < ws.len() && !any_pattern_matches(c.forbid_writers.deep_view(), (#[trigger] ws[j]).path@, ws[j].symbol_name@)
                && c.allowed_writers@.len() > 0 && !any_pattern_matches(c.allowed_writers.deep_view(), ws[j].path@, ws[j].symbol_name@)
                ==> pair_keys(outside_write_pairs(c, ws)).contains(ws[j].path@),
    decreases ws.len(),
{
    if ws.len() > 0 {
        let rest = ws.drop_last();
        lemma_writes_make_pairs(c, rest);
        let fp = forbidden_write_pairs(c, rest);
        let op = outside_write_pairs(c, rest);
        let n = ws.len() - 1;
        let w = ws.last();
        let fnow = forbidden_write_pairs(c, ws);
        let onow = outside_write_pairs(c, ws);
        assert(forall|k: int| 0 <= k < fp.len() ==> #[trigger] fnow[k] == fp[k]);
        assert(forall|k: int| 0 <= k < op.len() ==> #[trigger] onow[k] == op[k]);
        assert forall|j: int|
            0 <= j < ws.len() && any_pattern_matches(c.forbid_writers.deep_view(), (#[trigger] ws[j]).path@, ws[j].symbol_name@)
                implies pair_keys(fnow).contains(ws[j].path@) by {
            if j < n {
                assert(ws[j] == rest[j]);
                let k = choose|k: int| 0 <= k < pair_keys(fp).len() && pair_keys(fp)[k] == rest[j].path@;
                assert(pair_keys(fnow)[k] == fp[k].0);
            } else {
                assert(ws[j] == w);
                assert(pair_keys(fnow)[fnow.len() - 1] == w.path@);
            }
        }
        assert forall|j: int|
            0 <= j < ws.len() && !any_pattern_matches(c.forbid_writers.deep_view(), (#[trigger] ws[j]).path@, ws[j].symbol_name@)
                && c.allowed_writers@.len() > 0 && !any_pattern_matches(c.allowed_writers.deep_view(), ws[j].path@, ws[j].symbol_name@)
                implies pair_keys(onow).contains(ws[j].path@) by {
            if j < n {
                assert(ws[j] == rest[j]);
                let k = choose|k: int| 0 <= k < pair_keys(op).len() && pair_keys(op)[k] == rest[j].path@;
                assert(pair_keys(onow)[k] == op[k].0);
            } else {
                assert(ws[j] == w);
                assert(pair_keys(onow)[onow.len() - 1] == w.path@);
            }
        }
    }
}

proof fn lemma_pair_key_grouped(pairs: Seq<(Text, Text)>, key: Text) -> (i: int)
    requires
        pair_keys(pairs).contains(key),
    ensures
        0 <= i < grouping_of(pairs).len(),
        grouping_of(pairs)[i].0 == key,
{
    let keys = pair_keys(pairs).to_set();
    assert(keys.finite()) by {
        pair_keys(pairs).lemma_cardinality_of_set();
    }
    crate::grouping::lemma_sorted_set_finite(keys);
    let ks = sorted_set(keys);
    assert(keys.contains(key));
    assert(ks.to_set().contains(key));
    let i = choose|i: int| 0 <= i < ks.len() && ks[i] == key;
    assert(grouping_of(pairs)[i].0 == ks[i]);
    i
}

/// Every write that a forbidden-writer pattern selects gives its file a
/// forbidden-writer finding, and every other write that none of the listed
/// allowed writers selects gives its file an outside-allowlist finding.
pub proof fn lemma_writer_policy_complete(c: ConceptRule, semantic: SemanticSnapshot)
    ensures
        forall|j: int|
            0 <= j < concept_writes(c, semantic).len() && any_pattern_matches(
                c.forbid_writers.deep_view(),
                (#[trigger] concept_writes(c, semantic)[j]).path@,
                concept_writes(c, semantic)[j].symbol_name@,
            ) ==> exists|i: int|
                0 <= i < writer_policy_spec(c, semantic).len() && (#[trigger] writer_policy_spec(c, semantic)[i]).0
                    == "forbidden_writer"@ && writer_policy_spec(c, semantic)[i].4 == seq![concept_writes(c, semantic)[j].path@],
        forall|j: int|
            0 <= j < concept_writes(c, semantic).len() && !any_pattern_matches(
                c.forbid_writers.deep_view(),
                (#[trigger] concept_writes(c, semantic)[j]).path@,
                concept_writes(c, semantic)[j].symbol_name@,
            ) && c.allowed_writers@.len() > 0 && !any_pattern_matches(
                c.allowed_writers.deep_view(),
                concept_writes(c, semantic)[j].path@,
                concept_writes(c, semantic)[j].symbol_name@,
            ) ==> exists|i: int|
                0 <= i < writer_policy_spec(c, semantic).len() && (#[trigger] writer_policy_spec(c, semantic)[i]).0
                    == "writer_outside_allowlist"@ && writer_policy_spec(c, semantic)[i].4 == seq![
                    concept_writes(c, semantic)[j].path@,
                ],
{
    let ws = concept_writes(c, semantic);
    lemma_writes_make_pairs(c, ws);
    let fp = forbidden_write_pairs(c, ws);
    let op = outside_write_pairs(c, ws);
    let gf = grouping_of(fp);
    let go = grouping_of(op);
    let a = group_findings(gf, "forbidden_writer"@, FindingSeverity::High, c.id@, "Concept '"@ + c.id@
        + "' is written from forbidden location "@);
    let b = group_findings(go, "writer_outside_allowlist"@, FindingSeverity::High, c.id@, "Concept '"@ + c.id@
        + "' is written outside its allowed writer set at "@);
    let all = writer_policy_spec(c, semantic);
    assert(all == a + b);
    assert forall|j: int|
        0 <= j < ws.len() && any_pattern_matches(c.forbid_writers.deep_view(), (#[trigger] ws[j]).path@, ws[j].symbol_name@)
            implies exists|i: int| 0 <= i < all.len() && (#[trigger] all[i]).0 == "forbidden_writer"@ && all[i].4 == seq![ws[j].path@] by {
        let i = lemma_pair_key_grouped(fp, ws[j].path@);
        assert(all[i] == a[i]);
    }
    assert forall|j: int|
        0 <= j < ws.len() && !any_pattern_matches(c.forbid_writers.deep_view(), (#[trigger] ws[j]).path@, ws[j].symbol_name@)
            && c.allowed_writers@.len() > 0 && !any_pattern_matches(c.allowed_writers.deep_view(), ws[j].path@, ws[j].symbol_name@)
            implies exists|i: int|
            0 <= i < all.len() && (#[trigger] all[i]).0 == "writer_outside_allowlist"@ && all[i].4 == seq![ws[j].path@] by {
        let i = lemma_pair_key_grouped(op, ws[j].path@);
        assert(all[a.len() + i] == b[i]);
    }
}

/// The reads that a forbidden-raw-read pattern selects, as (file, fact).
pub open spec fn forbidden_read_pairs(c: ConceptRule, rs: Seq<ReadFact>) -> Seq<(Text, Text)>
    decreases rs.len(),
{
    if rs.len() == 0 {
        Seq::empty()
    } else {
        let prev = forbidden_read_pairs(c, rs.drop_last());
        let r = rs.last();
        if any_pattern_matches(c.forbid_raw_reads.deep_view(), r.path@, r.symbol_name@) {
            prev.push((r.path@, scoped_fact(r.path@, r.symbol_name@)))
        } else {
            prev
        }
    }
}

/// `lines` followed by each of `extra` that is not already there.
pub open spec fn append_absent(lines: Seq<Text>, extra: Seq<Text>) -> Seq<Text>
    decreases extra.len(),
{
    if extra.len() == 0 {
        lines
    } else {
        let prev = append_absent(lines, extra.drop_last());
        if prev.contains(extra.last()) {
            prev
        } else {
            prev.push(extra.last())
        }
    }
}

/// The owner of a concept: its first anchor, else its first authoritative input.
pub open spec fn canonical_owner(c: ConceptRule) -> Option<Text> {
    if c.anchors@.len() > 0 {
        Some(c.anchors@[0]@)
    } else if c.authoritative_inputs@.len() > 0 {
        Some(c.authoritative_inputs@[0]@)
    } else {
        None
    }
}

/// The guidance lines of a raw-read finding: the preferred accessors, then the owner.
pub open spec fn guidance_lines(c: ConceptRule) -> Seq<Text> {
    c.canonical_accessors.deep_view().map_values(|a: Text| "preferred accessor: "@ + a) + match canonical_owner(c) {
        Some(o) => seq!["canonical owner: "@ + o],
        None => Seq::empty(),
    }
}

/// The raw-read findings of a concept: one per file that reads it through a
/// forbidden raw path, with the reads and then the guidance lines not
/// already among them.
pub open spec fn raw_access_spec(c: ConceptRule, semantic: SemanticSnapshot) -> Seq<FindingView> {
    let head = "Concept '"@ + c.id@ + "' is read from a forbidden raw access path at "@;
    let g = grouping_of(forbidden_read_pairs(c, concept_reads(c, semantic)));
    g.map_values(
        |e: (Text, Seq<Text>)|
            (
                "forbidden_raw_read"@,
                FindingSeverity::Medium,
                c.id@,
                head + e.0,
                seq![e.0],
                append_absent(e.1, guidance_lines(c)),
            ),
    )
}

/// `path::symbol`.
fn scoped_fact_text(path: &str, symbol: &str) -> (r: String)
    ensures
        r@ == scoped_fact(path@, symbol@),
{
    let mut r = path.to_string();
    r.append("::");
    r.append(symbol);
    r
}

/// The findings of a grouping (see `group_findings`).
fn group_finding_list(
    groups: &Vec<(String, Vec<String>)>,
    kind: &str,
    severity: FindingSeverity,
    concept: &str,
    head: &str,
) -> (r: Vec<SemanticFinding>)
    ensures
        findings_view(r@) == group_findings(groups.deep_view(), kind@, severity, concept@, head@),
{
    let mut r: Vec<SemanticFinding> = Vec::new();
    let mut i: usize = 0;
    while i < groups.len()
        invariant
            i <= groups@.len(),
            findings_view(r@) == group_findings(groups.deep_view().take(i as int), kind@, severity, concept@, head@),
        decreases groups@.len() - i,
    {
        let mut summary = head.to_string();
        summary.append(groups[i].0.as_str());
        let f = SemanticFinding {
            kind: kind.to_string(),
            severity,
            concept_id: concept.to_string(),
            summary,
            files: vec![groups[i].0.clone()],
            evidence: crate::clone_groups::copy_strings(&groups[i].1),
        };
        let ghost before = r@;
        r.push(f);
        proof {
            assert(f.files.deep_view() =~= seq![groups.deep_view()[i as int].0]);
            assert(f.evidence.deep_view() =~= groups.deep_view()[i as int].1);
            assert(groups.deep_view().take(i + 1) =~= groups.deep_view().take(i as int).push(groups.deep_view()[i as int]));
            assert(findings_view(r@) =~= findings_view(before).push(f@));
            assert(findings_view(r@) =~= group_findings(groups.deep_view().take(i + 1), kind@, severity, concept@, head@));
        }
        i = i + 1;
    }
    assert(groups.deep_view().take(groups@.len() as int) =~= groups.deep_view());
    r
}

/// The production writes of the concept (see `concept_writes`).
fn concept_write_list(c: &ConceptRule, semantic: &SemanticSnapshot) -> (r: Vec<usize>)
    ensures
        r@.len() == concept_writes(*c, *semantic).len(),
        forall|k: int|
            0 <= k < r@.len() ==> #[trigger] r@[k] < semantic.writes@.len() && semantic.writes@[r@[k] as int] == concept_writes(
                *c,
                *semantic,
            )[k],
{
    let targets = concept_write_targets(c);
    let ghost ts = write_target_symbols(*c);
    let ghost ws = semantic.writes@;
    let mut r: Vec<usize> = Vec::new();
    let mut i: usize = 0;
    assert(ws.take(0) =~= Seq::<WriteFact>::empty());
    while i < semantic.writes.len()
        invariant
            targets.deep_view() == ts,
            ws == semantic.writes@,
            ts == write_target_symbols(*c),
            i <= ws.len(),
            r@.len() == production_writes(ws.take(i as int), ts).len(),
            forall|k: int|
                0 <= k < r@.len() ==> #[trigger] r@[k] < i && ws[r@[k] as int] == production_writes(ws.take(i as int), ts)[k],
        decreases ws.len() - i,
    {
        assert(ws.take(i + 1).drop_last() =~= ws.take(i as int));
        assert(ws.take(i + 1).last() == ws[i as int]);
        let ghost prev = production_writes(ws.take(i as int), ts);
        if is_production_write(&semantic.writes[i], &targets) {
            r.push(i);
            assert(production_writes(ws.take(i + 1), ts) == prev.push(ws[i as int]));
        } else {
            assert(production_writes(ws.take(i + 1), ts) == prev);
        }
        i = i + 1;
    }
    assert(ws.take(ws.len() as int) =~= ws);
    r
}

/// The production reads of the concept (see `concept_reads`).
fn concept_read_list(c: &ConceptRule, semantic: &SemanticSnapshot) -> (r: Vec<usize>)
    ensures
        r@.len() == concept_reads(*c, *semantic).len(),
        forall|k: int|
            0 <= k < r@.len() ==> #[trigger] r@[k] < semantic.reads@.len() && semantic.reads@[r@[k] as int] == concept_reads(
                *c,
                *semantic,
            )[k],
{
    let targets = concept_read_targets(c);
    let ghost ts = read_target_symbols(*c);
    let ghost rs = semantic.reads@;
    let mut r: Vec<usize> = Vec::new();
    let mut i: usize = 0;
    assert(rs.take(0) =~= Seq::<ReadFact>::empty());
    while i < semantic.reads.len()
        invariant
            targets.deep_view() == ts,
            rs == semantic.reads@,
            ts == read_target_symbols(*c),
            i <= rs.len(),
            r@.len() == production_reads(rs.take(i as int), ts).len(),
            forall|k: int|
                0 <= k < r@.len() ==> #[trigger] r@[k] < i && rs[r@[k] as int] == production_reads(rs.take(i as int), ts)[k],
        decreases rs.len() - i,
    {
        assert(rs.take(i + 1).drop_last() =~= rs.take(i as int));
        assert(rs.take(i + 1).last() == rs[i as int]);
        let ghost prev = production_reads(rs.take(i as int), ts);
        if is_production_read(&semantic.reads[i], &targets) {
            r.push(i);
            assert(production_reads(rs.take(i + 1), ts) == prev.push(rs[i as int]));
        } else {
            assert(production_reads(rs.take(i + 1), ts) == prev);
        }
        i = i + 1;
    }
    assert(rs.take(rs.len() as int) =~= rs);
    r
}

/// The multi-writer finding of a concept (see `multi_writer_spec`).
pub fn multi_writer_findings(c: &ConceptRule, semantic: &SemanticSnapshot) -> (r: Vec<SemanticFinding>)
    ensures
        findings_view(r@) == multi_writer_spec(*c, *semantic),
{
    let positions = concept_write_list(c, semantic);
    let ghost ws = concept_writes(*c, *semantic);
    let mut paths: Vec<String> = Vec::new();
    let mut lines: Vec<String> = Vec::new();
    let mut k: usize = 0;
    while k < positions.len()
        invariant
            ws == concept_writes(*c, *semantic),
            positions@.len() == ws.len(),
            forall|j: int|
                0 <= j < positions@.len() ==> #[trigger] positions@[j] < semantic.writes@.len()
                    && semantic.writes@[positions@[j] as int] == ws[j],
            k <= positions@.len(),
            paths.deep_view() == ws.take(k as int).map_values(|w: WriteFact| w.path@),
            lines.deep_view() == ws.take(k as int).map_values(|w: WriteFact| write_line(w)),
        decreases positions@.len() - k,
    {
        let w = &semantic.writes[positions[k]];
        push_line(&mut paths, w.path.clone());
        let mut line = scoped_fact_text(w.path.as_str(), w.symbol_name.as_str());
        line.append(" (");
        line.append(w.write_kind.as_str());
        line.append(")");
        push_line(&mut lines, line);
        assert(ws.take(k + 1) =~= ws.take(k as int).push(ws[k as int]));
        assert(paths.deep_view() =~= ws.take(k + 1).map_values(|w: WriteFact| w.path@));
        assert(lines.deep_view() =~= ws.take(k + 1).map_values(|w: WriteFact| write_line(w)));
        k = k + 1;
    }
    assert(ws.take(ws.len() as int) =~= ws);
    let files = sorted_set_of(&paths);
    if files.len() <= 1 {
        return Vec::new();
    }
    let evidence = sorted_set_of(&lines);
    let mut summary = "Concept '".to_string();
    summary.append(c.id.as_str());
    summary.append("' is mutated from ");
    let count = decimal(files.len() as u64);
    summary.append(count.as_str());
    summary.append(" files");
    let f = SemanticFinding {
        kind: "multi_writer_concept".to_string(),
        severity: FindingSeverity::High,
        concept_id: c.id.clone(),
        summary,
        files,
        evidence,
    };
    let r = vec![f];
    assert(findings_view(r@) =~= multi_writer_spec(*c, *semantic));
    r
}

/// The findings of `a` followed by those of `b`.
proof fn lemma_findings_view_append(a: Seq<SemanticFinding>, b: Seq<SemanticFinding>)
    ensures
        findings_view(a + b) == findings_view(a) + findings_view(b),
{
    assert(findings_view(a + b) =~= findings_view(a) + findings_view(b));
}

/// The writer-policy findings of a concept (see `writer_policy_spec`).
pub fn writer_policy_findings(c: &ConceptRule, semantic: &SemanticSnapshot) -> (r: Vec<SemanticFinding>)
    ensures
        findings_view(r@) == writer_policy_spec(*c, *semantic),
        forall|i: int|
            0 <= i < r@.len() ==> {
                let f = #[trigger] r@[i];
                &&& f.kind@ == "forbidden_writer"@ || f.kind@ == "writer_outside_allowlist"@
                &&& f.files.deep_view().len() == 1
                &&& f.kind@ == "forbidden_writer"@ ==> writes_from(*c, concept_writes(*c, *semantic), f.files.deep_view()[0], true)
                &&& f.kind@ == "writer_outside_allowlist"@ ==> writes_from(
                    *c,
                    concept_writes(*c, *semantic),
                    f.files.deep_view()[0],
                    false,
                )
            },
        forall|j: int|
            0 <= j < concept_writes(*c, *semantic).len() && any_pattern_matches(
                c.forbid_writers.deep_view(),
                (#[trigger] concept_writes(*c, *semantic)[j]).path@,
                concept_writes(*c, *semantic)[j].symbol_name@,
            ) ==> exists|i: int|
                0 <= i < r@.len() && (#[trigger] r@[i]).kind@ == "forbidden_writer"@ && r@[i].files.deep_view() == seq![
                    concept_writes(*c, *semantic)[j].path@,
                ],
        forall|j: int|
            0 <= j < concept_writes(*c, *semantic).len() && !any_pattern_matches(
                c.forbid_writers.deep_view(),
                (#[trigger] concept_writes(*c, *semantic)[j]).path@,
                concept_writes(*c, *semantic)[j].symbol_name@,
            ) && c.allowed_writers@.len() > 0 && !any_pattern_matches(
                c.allowed_writers.deep_view(),
                concept_writes(*c, *semantic)[j].path@,
                concept_writes(*c, *semantic)[j].symbol_name@,
            ) ==> exists|i: int|
                0 <= i < r@.len() && (#[trigger] r@[i]).kind@ == "writer_outside_allowlist"@ && r@[i].files.deep_view()
                    == seq![concept_writes(*c, *semantic)[j].path@],
{
    let positions = concept_write_list(c, semantic);
    let ghost ws = concept_writes(*c, *semantic);
    let mut forbidden: Vec<(String, String)> = Vec::new();
    let mut outside: Vec<(String, String)> = Vec::new();
    assert(ws.take(0) =~= Seq::<WriteFact>::empty());
    let mut k: usize = 0;
    while k < positions.len()
        invariant
            ws == concept_writes(*c, *semantic),
            positions@.len() == ws.len(),
            forall|j: int|
                0 <= j < positions@.len() ==> #[trigger] positions@[j] < semantic.writes@.len()
                    && semantic.writes@[positions@[j] as int] == ws[j],
            k <= positions@.len(),
            forbidden.deep_view() == forbidden_write_pairs(*c, ws.take(k as int)),
            outside.deep_view() == outside_write_pairs(*c, ws.take(k as int)),
        decreases positions@.len() - k,
    {
        let w = &semantic.writes[positions[k]];
        assert(ws.take(k + 1).drop_last() =~= ws.take(k as int));
        assert(ws.take(k + 1).last() == ws[k as int]);
        let scoped = scoped_fact_text(w.path.as_str(), w.symbol_name.as_str());
        let ghost f0 = forbidden.deep_view();
        let ghost o0 = outside.deep_view();
        if pattern_list_matches(&c.forbid_writers, w.path.as_str(), w.symbol_name.as_str()) {
            forbidden.push((w.path.clone(), scoped));
            assert(forbidden.deep_view() =~= f0.push((w.path@, scoped@)));
        } else if c.allowed_writers.len() > 0 && !pattern_list_matches(
            &c.allowed_writers,
            w.path.as_str(),
            w.symbol_name.as_str(),
        ) {
            outside.push((w.path.clone(), scoped));
            assert(outside.deep_view() =~= o0.push((w.path@, scoped@)));
        }
        k = k + 1;
    }
    assert(ws.take(ws.len() as int) =~= ws);
    let gf = group_pairs(&forbidden);
    let go = group_pairs(&outside);
    let mut head_f = "Concept '".to_string();
    head_f.append(c.id.as_str());
    head_f.append("' is written from forbidden location ");
    let mut head_o = "Concept '".to_string();
    head_o.append(c.id.as_str());
    head_o.append("' is written outside its allowed writer set at ");
    let mut r = group_finding_list(&gf, "forbidden_writer", FindingSeverity::High, c.id.as_str(), head_f.as_str());
    let mut more = group_finding_list(
        &go,
        "writer_outside_allowlist",
        FindingSeverity::High,
        c.id.as_str(),
        head_o.as_str(),
    );
    let ghost r0 = r@;
    let ghost m0 = more@;
    r.append(&mut more);
    proof {
        lemma_findings_view_append(r0, m0);
        reveal_strlit("forbidden_writer");
        reveal_strlit("writer_outside_allowlist");
        lemma_writer_policy_files(*c, *semantic);
        assert forall|i: int| 0 <= i < r@.len() implies {
            let f = #[trigger] r@[i];
            &&& f.kind@ == "forbidden_writer"@ || f.kind@ == "writer_outside_allowlist"@
            &&& f.files.deep_view().len() == 1
            &&& f.kind@ == "forbidden_writer"@ ==> writes_from(*c, concept_writes(*c, *semantic), f.files.deep_view()[0], true)
            &&& f.kind@ == "writer_outside_allowlist"@ ==> writes_from(*c, concept_writes(*c, *semantic), f.files.deep_view()[0], false)
        } by {
            assert(findings_view(r@)[i] == r@[i]@);
            assert(writer_policy_spec(*c, *semantic)[i] == r@[i]@);
        }
        lemma_writer_policy_complete(*c, *semantic);
        let ws = concept_writes(*c, *semantic);
        let sp = writer_policy_spec(*c, *semantic);
        assert forall|j: int|
            0 <= j < ws.len() && any_pattern_matches(c.forbid_writers.deep_view(), (#[trigger] ws[j]).path@, ws[j].symbol_name@)
                implies exists|i: int|
                0 <= i < r@.len() && (#[trigger] r@[i]).kind@ == "forbidden_writer"@ && r@[i].files.deep_view() == seq![ws[j].path@] by {
            let i = choose|i: int| 0 <= i < sp.len() && (#[trigger] sp[i]).0 == "forbidden_writer"@ && sp[i].4 == seq![ws[j].path@];
            assert(findings_view(r@)[i] == r@[i]@);
        }
        assert forall|j: int|
            0 <= j < ws.len() && !any_pattern_matches(c.forbid_writers.deep_view(), (#[trigger] ws[j]).path@, ws[j].symbol_name@)
                && c.allowed_writers@.len() > 0 && !any_pattern_matches(c.allowed_writers.deep_view(), ws[j].path@, ws[j].symbol_name@)
                implies exists|i: int|
                0 <= i < r@.len() && (#[trigger] r@[i]).kind@ == "writer_outside_allowlist"@ && r@[i].files.deep_view()
                    == seq![ws[j].path@] by {
            let i = choose|i: int|
                0 <= i < sp.len() && (#[trigger] sp[i]).0 == "writer_outside_allowlist"@ && sp[i].4 == seq![ws[j].path@];
            assert(findings_view(r@)[i] == r@[i]@);
        }
    }
    r
}

/// Appends each of `extra` that `lines` does not hold yet.
fn append_absent_lines(lines: &mut Vec<String>, extra: &Vec<String>)
    ensures
        final(lines).deep_view() == append_absent(old(lines).deep_view(), extra.deep_view()),
{
    let ghost start = lines.deep_view();
    let mut i: usize = 0;
    assert(extra.deep_view().take(0) =~= Seq::<Text>::empty());
    while i < extra.len()
        invariant
            i <= extra@.len(),
            lines.deep_view() == append_absent(start, extra.deep_view().take(i as int)),
        decreases extra@.len() - i,
    {
        assert(extra.deep_view().take(i + 1).drop_last() =~= extra.deep_view().take(i as int));
        assert(extra.deep_view().take(i + 1).last() == extra.deep_view()[i as int]);
        if !texts_contain(lines, extra[i].as_str()) {
            push_line(lines, extra[i].clone());
        }
        i = i + 1;
    }
    assert(extra.deep_view().take(extra@.len() as int) =~= extra.deep_view());
}

/// The guidance lines of a raw-read finding (see `guidance_lines`).
fn guidance_line_list(c: &ConceptRule) -> (r: Vec<String>)
    ensures
        r.deep_view() == guidance_lines(*c),
{
    let mut r: Vec<String> = Vec::new();
    let ghost accessors = c.canonical_accessors.deep_view();
    let mut i: usize = 0;
    while i < c.canonical_accessors.len()
        invariant
            accessors == c.canonical_accessors.deep_view(),
            i <= accessors.len(),
            r.deep_view() == accessors.take(i as int).map_values(|a: Text| "preferred accessor: "@ + a),
        decreases accessors.len() - i,
    {
        let mut line = "preferred accessor: ".to_string();
        line.append(c.canonical_accessors[i].as_str());
        push_line(&mut r, line);
        assert(r.deep_view() =~= accessors.take(i + 1).map_values(|a: Text| "preferred accessor: "@ + a));
        i = i + 1;
    }
    assert(accessors.take(accessors.len() as int) =~= accessors);
    let ghost before = r.deep_view();
    if c.anchors.len() > 0 {
        let mut line = "canonical owner: ".to_string();
        line.append(c.anchors[0].as_str());
        push_line(&mut r, line);
    } else if c.authoritative_inputs.len() > 0 {
        let mut line = "canonical owner: ".to_string();
        line.append(c.authoritative_inputs[0].as_str());
        push_line(&mut r, line);
    }
    assert(r.deep_view() =~= guidance_lines(*c));
    r
}

/// The raw-read findings of a concept (see `raw_access_spec`).
pub fn raw_access_findings(c: &ConceptRule, semantic: &SemanticSnapshot) -> (r: Vec<SemanticFinding>)
    ensures
        findings_view(r@) == raw_access_spec(*c, *semantic),
{
    let positions = concept_read_list(c, semantic);
    let ghost rs = concept_reads(*c, *semantic);
    let mut pairs: Vec<(String, String)> = Vec::new();
    assert(rs.take(0) =~= Seq::<ReadFact>::empty());
    let mut k: usize = 0;
    while k < positions.len()
        invariant
            rs == concept_reads(*c, *semantic),
            positions@.len() == rs.len(),
            forall|j: int|
                0 <= j < positions@.len() ==> #[trigger] positions@[j] < semantic.reads@.len()
                    && semantic.reads@[positions@[j] as int] == rs[j],
            k <= positions@.len(),
            pairs.deep_view() == forbidden_read_pairs(*c, rs.take(k as int)),
        decreases positions@.len() - k,
    {
        let read = &semantic.reads[positions[k]];
        assert(rs.take(k + 1).drop_last() =~= rs.take(k as int));
        assert(rs.take(k + 1).last() == rs[k as int]);
        let ghost p0 = pairs.deep_view();
        if pattern_list_matches(&c.forbid_raw_reads, read.path.as_str(), read.symbol_name.as_str()) {
            let scoped = scoped_fact_text(read.path.as_str(), read.symbol_name.as_str());
            pairs.push((read.path.clone(), scoped));
            assert(pairs.deep_view() =~= p0.push((read.path@, scoped@)));
        }
        k = k + 1;
    }
    assert(rs.take(rs.len() as int) =~= rs);
    let groups = group_pairs(&pairs);
    let guidance = guidance_line_list(c);
    let mut head = "Concept '".to_string();
    head.append(c.id.as_str());
    head.append("' is read from a forbidden raw access path at ");
    let ghost spec = raw_access_spec(*c, *semantic);
    let mut r: Vec<SemanticFinding> = Vec::new();
    let mut i: usize = 0;
    while i < groups.len()
        invariant
            i <= groups@.len(),
            groups.deep_view() == grouping_of(forbidden_read_pairs(*c, rs)),
            rs == concept_reads(*c, *semantic),
            spec == raw_access_spec(*c, *semantic),
            guidance.deep_view() == guidance_lines(*c),
            head@ == "Concept '"@ + c.id@ + "' is read from a forbidden raw access path at "@,
            findings_view(r@) == spec.take(i as int),
        decreases groups@.len() - i,
    {
        let mut summary = head.clone();
        summary.append(groups[i].0.as_str());
        let mut evidence = crate::clone_groups::copy_strings(&groups[i].1);
        proof {
            assert(evidence.deep_view() =~= groups.deep_view()[i as int].1);
        }
        append_absent_lines(&mut evidence, &guidance);
        let f = SemanticFinding {
            kind: "forbidden_raw_read".to_string(),
            severity: FindingSeverity::Medium,
            concept_id: c.id.clone(),
            summary,
            files: vec![groups[i].0.clone()],
            evidence,
        };
        let ghost before = r@;
        r.push(f);
        proof {
            assert(f.files.deep_view() =~= seq![groups.deep_view()[i as int].0]);
            assert(findings_view(r@) =~= findings_view(before).push(f@));
            assert(f@ == spec[i as int]);
            assert(spec.take(i + 1) =~= spec.take(i as int).push(spec[i as int]));
        }
        i = i + 1;
    }
    assert(spec.take(spec.len() as int) =~= spec);
    r
}

/// The path parts of scoped values, in order.
pub open spec fn scoped_paths(values: Seq<Text>) -> Seq<Text> {
    values.map_values(|v: Text| scoped_path(v))
}

/// The files behind a concept's boundary: its authoritative inputs, and for
/// authoritative state its anchors too.
pub open spec fn internal_boundary_paths(c: ConceptRule) -> Seq<Text> {
    let inputs = scoped_paths(c.authoritative_inputs.deep_view());
    if c.kind@ == "authoritative_state"@ {
        inputs + scoped_paths(c.anchors.deep_view())
    } else {
        inputs
    }
}

/// The canonical entry files of a concept, in increasing order: its
/// accessors, and for a projection its anchors too.
pub open spec fn preferred_entry_paths(c: ConceptRule) -> Seq<Text> {
    let accessors = scoped_paths(c.canonical_accessors.deep_view());
    let all = if c.kind@ == "projection"@ {
        accessors + scoped_paths(c.anchors.deep_view())
    } else {
        accessors
    };
    sorted_set(all.to_set())
}

/// The file patterns that may import across the boundary: those of the
/// anchors, inputs, accessors, allowed writers and related tests.
pub open spec fn allowed_importer_patterns(c: ConceptRule) -> Seq<Text> {
    scoped_paths(
        c.anchors.deep_view() + c.authoritative_inputs.deep_view() + c.canonical_accessors.deep_view()
            + c.allowed_writers.deep_view() + c.related_tests.deep_view(),
    )
}

/// A file pattern selects a path: the glob matches it, or it is the path.
pub open spec fn path_pattern_matches(pattern: Text, path: Text) -> bool {
    glob_matches(pattern, path) || pattern == path
}

/// The files whose production code reads or writes the concept.
pub open spec fn usage_paths(c: ConceptRule, semantic: SemanticSnapshot) -> Seq<Text> {
    concept_reads(c, semantic).map_values(|r: ReadFact| r.path@) + concept_writes(c, semantic).map_values(
        |w: WriteFact| w.path@,
    )
}

/// The entries of `paths` other than `p`, in order.
pub open spec fn others(paths: Seq<Text>, p: Text) -> Seq<Text>
    decreases paths.len(),
{
    if paths.len() == 0 {
        Seq::empty()
    } else {
        let prev = others(paths.drop_last(), p);
        if paths.last() == p {
            prev
        } else {
            prev.push(paths.last())
        }
    }
}

/// The hint of an import: the canonical entries other than the imported
/// file, ` (prefer a, b)`, or nothing when there are none.
pub open spec fn prefer_detail(preferred: Seq<Text>, imported: Text) -> Text {
    let alternatives = others(preferred, imported);
    if alternatives.len() == 0 {
        Seq::empty()
    } else {
        " (prefer "@ + join(alternatives, ", "@) + ")"@
    }
}

/// How a finding names a concept's canonical entries.
pub open spec fn entry_summary(preferred: Seq<Text>) -> Text {
    if preferred.len() == 0 {
        "canonical boundaries"@
    } else if preferred.len() == 1 {
        "canonical entrypoint "@ + preferred[0]
    } else {
        "canonical entrypoints "@ + join(preferred, ", "@)
    }
}

/// An import crosses the concept's boundary from outside: it reaches an
/// internal file from another production file that uses the concept and
/// that no allowed pattern selects.
pub open spec fn is_bypass(c: ConceptRule, semantic: SemanticSnapshot, e: ImportEdge) -> bool {
    &&& internal_boundary_paths(c).contains(e.to_file@)
    &&& e.from_file@ != e.to_file@
    &&& !is_test_path(e.from_file@)
    &&& usage_paths(c, semantic).contains(e.from_file@)
    &&& !(exists|i: int|
        0 <= i < allowed_importer_patterns(c).len() && path_pattern_matches(
            #[trigger] allowed_importer_patterns(c)[i],
            e.from_file@,
        ))
}

/// The bypassing imports, as (importing file, `from -> to` with its hint).
pub open spec fn bypass_pairs(c: ConceptRule, semantic: SemanticSnapshot, edges: Seq<ImportEdge>) -> Seq<(Text, Text)>
    decreases edges.len(),
{
    if edges.len() == 0 {
        Seq::empty()
    } else {
        let prev = bypass_pairs(c, semantic, edges.drop_last());
        let e = edges.last();
        if is_bypass(c, semantic, e) {
            prev.push(
                (
                    e.from_file@,
                    e.from_file@ + " -> "@ + e.to_file@ + prefer_detail(preferred_entry_paths(c), e.to_file@),
                ),
            )
        } else {
            prev
        }
    }
}

/// The severity of a concept's boundary findings: high for a critical concept.
pub open spec fn boundary_severity(c: ConceptRule) -> FindingSeverity {
    match c.priority {
        Some(p) => if p@ == "critical"@ {
            FindingSeverity::High
        } else {
            FindingSeverity::Medium
        },
        None => FindingSeverity::Medium,
    }
}

/// The import-bypass findings of a concept: none unless it has internal
/// files and canonical entries; otherwise one per bypassing file, in
/// increasing order, and, when several files bypass, one boundary-pressure
/// finding over all of them.
pub open spec fn import_bypass_spec(c: ConceptRule, semantic: SemanticSnapshot, edges: Seq<ImportEdge>) -> Seq<
    FindingView,
> {
    let preferred = preferred_entry_paths(c);
    if internal_boundary_paths(c).len() == 0 || preferred.len() == 0 {
        Seq::empty()
    } else {
        let pairs = bypass_pairs(c, semantic, edges);
        let g = grouping_of(pairs);
        let severity = boundary_severity(c);
        let summary = entry_summary(preferred);
        let per_file = group_findings(
            g,
            "authoritative_import_bypass"@,
            severity,
            c.id@,
            "Concept '"@ + c.id@ + "' bypasses "@ + summary + " at "@,
        );
        if g.len() > 1 {
            per_file.push(
                (
                    "concept_boundary_pressure"@,
                    severity,
                    c.id@,
                    "Concept '"@ + c.id@ + "' is bypassing "@ + summary + " from "@ + dec(g.len()) + " files"@,
                    group_keys(g),
                    sorted_set(pairs.map_values(|p: (Text, Text)| p.1).to_set()),
                ),
            )
        } else {
            per_file
        }
    }
}

/// Appends the path parts of the scoped values.
fn push_scoped_paths(out: &mut Vec<String>, values: &Vec<String>)
    ensures
        final(out).deep_view() == old(out).deep_view() + scoped_paths(values.deep_view()),
{
    let ghost start = out.deep_view();
    let mut i: usize = 0;
    while i < values.len()
        invariant
            i <= values@.len(),
            out.deep_view() == start + scoped_paths(values.deep_view().take(i as int)),
        decreases values@.len() - i,
    {
        push_line(out, path_from_scoped_value(values[i].as_str()));
        assert(scoped_paths(values.deep_view().take(i + 1)) =~= scoped_paths(values.deep_view().take(i as int)).push(
            scoped_path(values.deep_view()[i as int]),
        ));
        assert(out.deep_view() =~= start + scoped_paths(values.deep_view().take(i + 1)));
        i = i + 1;
    }
    assert(values.deep_view().take(values@.len() as int) =~= values.deep_view());
}

/// The internal boundary files of the concept (see `internal_boundary_paths`).
fn internal_path_list(c: &ConceptRule) -> (r: Vec<String>)
    ensures
        r.deep_view() == internal_boundary_paths(*c),
{
    let mut r: Vec<String> = Vec::new();
    assert(r.deep_view() =~= Seq::<Text>::empty());
    push_scoped_paths(&mut r, &c.authoritative_inputs);
    assert(Seq::<Text>::empty() + scoped_paths(c.authoritative_inputs.deep_view()) =~= scoped_paths(
        c.authoritative_inputs.deep_view(),
    ));
    if text_eq(c.kind.as_str(), "authoritative_state") {
        push_scoped_paths(&mut r, &c.anchors);
    }
    r
}

/// The canonical entry files of the concept (see `preferred_entry_paths`).
fn preferred_path_list(c: &ConceptRule) -> (r: Vec<String>)
    ensures
        r.deep_view() == preferred_entry_paths(*c),
{
    let mut all: Vec<String> = Vec::new();
    assert(all.deep_view() =~= Seq::<Text>::empty());
    push_scoped_paths(&mut all, &c.canonical_accessors);
    assert(Seq::<Text>::empty() + scoped_paths(c.canonical_accessors.deep_view()) =~= scoped_paths(
        c.canonical_accessors.deep_view(),
    ));
    if text_eq(c.kind.as_str(), "projection") {
        push_scoped_paths(&mut all, &c.anchors);
    }
    sorted_set_of(&all)
}

/// The importer patterns of the concept (see `allowed_importer_patterns`).
fn allowed_pattern_list(c: &ConceptRule) -> (r: Vec<String>)
    ensures
        r.deep_view() == allowed_importer_patterns(*c),
{
    let mut r: Vec<String> = Vec::new();
    assert(r.deep_view() =~= Seq::<Text>::empty());
    push_scoped_paths(&mut r, &c.anchors);
    push_scoped_paths(&mut r, &c.authoritative_inputs);
    push_scoped_paths(&mut r, &c.canonical_accessors);
    push_scoped_paths(&mut r, &c.allowed_writers);
    push_scoped_paths(&mut r, &c.related_tests);
    let ghost a = c.anchors.deep_view();
    let ghost b = c.authoritative_inputs.deep_view();
    let ghost d = c.canonical_accessors.deep_view();
    let ghost e = c.allowed_writers.deep_view();
    let ghost f = c.related_tests.deep_view();
    assert(r.deep_view() =~= scoped_paths(a + b + d + e + f));
    r
}

/// The files that use the concept (see `usage_paths`).
fn usage_path_list(c: &ConceptRule, semantic: &SemanticSnapshot) -> (r: Vec<String>)
    ensures
        r.deep_view() == usage_paths(*c, *semantic),
{
    let reads = concept_read_list(c, semantic);
    let writes = concept_write_list(c, semantic);
    let ghost rs = concept_reads(*c, *semantic);
    let ghost ws = concept_writes(*c, *semantic);
    let mut r: Vec<String> = Vec::new();
    let mut k: usize = 0;
    while k < reads.len()
        invariant
            rs == concept_reads(*c, *semantic),
            reads@.len() == rs.len(),
            forall|j: int|
                0 <= j < reads@.len() ==> #[trigger] reads@[j] < semantic.reads@.len() && semantic.reads@[reads@[j] as int]
                    == rs[j],
            k <= reads@.len(),
            r.deep_view() == rs.take(k as int).map_values(|x: ReadFact| x.path@),
        decreases reads@.len() - k,
    {
        push_line(&mut r, semantic.reads[reads[k]].path.clone());
        assert(rs.take(k + 1) =~= rs.take(k as int).push(rs[k as int]));
        assert(r.deep_view() =~= rs.take(k + 1).map_values(|x: ReadFact| x.path@));
        k = k + 1;
    }
    assert(rs.take(rs.len() as int) =~= rs);
    let ghost read_part = r.deep_view();
    let mut k: usize = 0;
    while k < writes.len()
        invariant
            ws == concept_writes(*c, *semantic),
            writes@.len() == ws.len(),
            forall|j: int|
                0 <= j < writes@.len() ==> #[trigger] writes@[j] < semantic.writes@.len()
                    && semantic.writes@[writes@[j] as int] == ws[j],
            k <= writes@.len(),
            r.deep_view() == read_part + ws.take(k as int).map_values(|x: WriteFact| x.path@),
        decreases writes@.len() - k,
    {
        push_line(&mut r, semantic.writes[writes[k]].path.clone());
        assert(ws.take(k + 1) =~= ws.take(k as int).push(ws[k as int]));
        assert(r.deep_view() =~= read_part + ws.take(k + 1).map_values(|x: WriteFact| x.path@));
        k = k + 1;
    }
    assert(ws.take(ws.len() as int) =~= ws);
    r
}

/// Whether one of the file patterns selects `path`.
pub fn any_path_pattern_matches(patterns: &Vec<String>, path: &str) -> (r: bool)
    ensures
        r == exists|i: int|
            0 <= i < patterns.deep_view().len() && path_pattern_matches(#[trigger] patterns.deep_view()[i], path@),
{
    let mut i: usize = 0;
    while i < patterns.len()
        invariant
            i <= patterns@.len(),
            forall|k: int| 0 <= k < i ==> !path_pattern_matches(#[trigger] patterns.deep_view()[k], path@),
        decreases patterns@.len() - i,
    {
        if glob_match(patterns[i].as_str(), path) || text_eq(patterns[i].as_str(), path) {
            assert(path_pattern_matches(patterns.deep_view()[i as int], path@));
            return true;
        }
        i = i + 1;
    }
    false
}

/// The hint of an import (see `prefer_detail`).
fn prefer_detail_text(preferred: &Vec<String>, imported: &str) -> (r: String)
    ensures
        r@ == prefer_detail(preferred.deep_view(), imported@),
{
    let ghost pv = preferred.deep_view();
    let mut alternatives: Vec<String> = Vec::new();
    let mut i: usize = 0;
    assert(pv.take(0) =~= Seq::<Text>::empty());
    while i < preferred.len()
        invariant
            pv == preferred.deep_view(),
            i <= pv.len(),
            alternatives.deep_view() == others(pv.take(i as int), imported@),
        decreases pv.len() - i,
    {
        assert(pv.take(i + 1).drop_last() =~= pv.take(i as int));
        assert(pv.take(i + 1).last() == pv[i as int]);
        if !text_eq(preferred[i].as_str(), imported) {
            push_line(&mut alternatives, preferred[i].clone());
        }
        i = i + 1;
    }
    assert(pv.take(pv.len() as int) =~= pv);
    if alternatives.len() == 0 {
        return String::new();
    }
    let mut r = " (prefer ".to_string();
    let joined = join_texts(&alternatives, ", ");
    r.append(joined.as_str());
    r.append(")");
    r
}

/// How a finding names the canonical entries (see `entry_summary`).
fn entry_summary_text(preferred: &Vec<String>) -> (r: String)
    ensures
        r@ == entry_summary(preferred.deep_view()),
{
    if preferred.len() == 0 {
        "canonical boundaries".to_string()
    } else if preferred.len() == 1 {
        let mut r = "canonical entrypoint ".to_string();
        r.append(preferred[0].as_str());
        r
    } else {
        let mut r = "canonical entrypoints ".to_string();
        let joined = join_texts(preferred, ", ");
        r.append(joined.as_str());
        r
    }
}

/// The import-bypass findings of a concept over the import edges (see
/// `import_bypass_spec`).
pub fn authoritative_import_bypass_findings(
    c: &ConceptRule,
    semantic: &SemanticSnapshot,
    snapshot: &Snapshot,
) -> (r: Vec<SemanticFinding>)
    ensures
        findings_view(r@) == import_bypass_spec(*c, *semantic, snapshot.import_graph@),
{
    let internal = internal_path_list(c);
    if internal.len() == 0 {
        return Vec::new();
    }
    let preferred = preferred_path_list(c);
    if preferred.len() == 0 {
        return Vec::new();
    }
    let allowed = allowed_pattern_list(c);
    let usage = usage_path_list(c, semantic);
    let ghost edges = snapshot.import_graph@;
    let mut pairs: Vec<(String, String)> = Vec::new();
    let mut values: Vec<String> = Vec::new();
    assert(edges.take(0) =~= Seq::<ImportEdge>::empty());
    let mut i: usize = 0;
    while i < snapshot.import_graph.len()
        invariant
            edges == snapshot.import_graph@,
            i <= edges.len(),
            internal.deep_view() == internal_boundary_paths(*c),
            preferred.deep_view() == preferred_entry_paths(*c),
            allowed.deep_view() == allowed_importer_patterns(*c),
            usage.deep_view() == usage_paths(*c, *semantic),
            pairs.deep_view() == bypass_pairs(*c, *semantic, edges.take(i as int)),
            values.deep_view() == pairs.deep_view().map_values(|p: (Text, Text)| p.1),
        decreases edges.len() - i,
    {
        let e = &snapshot.import_graph[i];
        assert(edges.take(i + 1).drop_last() =~= edges.take(i as int));
        assert(edges.take(i + 1).last() == edges[i as int]);
        let ghost p0 = pairs.deep_view();
        let ghost v0 = values.deep_view();
        if texts_contain(&internal, e.to_file.as_str()) && !text_eq(e.from_file.as_str(), e.to_file.as_str())
            && !is_test_file(e.from_file.as_str()) && texts_contain(&usage, e.from_file.as_str())
            && !any_path_pattern_matches(&allowed, e.from_file.as_str()) {
            let mut line = e.from_file.clone();
            line.append(" -> ");
            line.append(e.to_file.as_str());
            let detail = prefer_detail_text(&preferred, e.to_file.as_str());
            line.append(detail.as_str());
            pairs.push((e.from_file.clone(), line.clone()));
            push_line(&mut values, line);
            assert(pairs.deep_view() =~= p0.push((e.from_file@, line@)));
            assert(values.deep_view() =~= pairs.deep_view().map_values(|p: (Text, Text)| p.1));
        }
        i = i + 1;
    }
    assert(edges.take(edges.len() as int) =~= edges);
    let groups = group_pairs(&pairs);
    let severity = match &c.priority {
        Some(p) => if text_eq(p.as_str(), "critical") {
            FindingSeverity::High
        } else {
            FindingSeverity::Medium
        },
        None => FindingSeverity::Medium,
    };
    let summary = entry_summary_text(&preferred);
    let mut head = "Concept '".to_string();
    head.append(c.id.as_str());
    head.append("' bypasses ");
    head.append(summary.as_str());
    head.append(" at ");
    let mut r = group_finding_list(&groups, "authoritative_import_bypass", severity, c.id.as_str(), head.as_str());
    if groups.len() > 1 {
        let mut keys: Vec<String> = Vec::new();
        let mut k: usize = 0;
        while k < groups.len()
            invariant
                k <= groups@.len(),
                keys.deep_view() == group_keys(groups.deep_view()).take(k as int),
            decreases groups@.len() - k,
        {
            push_line(&mut keys, groups[k].0.clone());
            assert(keys.deep_view() =~= group_keys(groups.deep_view()).take(k + 1));
            k = k + 1;
        }
        assert(group_keys(groups.deep_view()).take(groups@.len() as int) =~= group_keys(groups.deep_view()));
        let mut pressure = "Concept '".to_string();
        pressure.append(c.id.as_str());
        pressure.append("' is bypassing ");
        pressure.append(summary.as_str());
        pressure.append(" from ");
        let count = decimal(groups.len() as u64);
        pressure.append(count.as_str());
        pressure.append(" files");
        let f = SemanticFinding {
            kind: "concept_boundary_pressure".to_string(),
            severity,
            concept_id: c.id.clone(),
            summary: pressure,
            files: keys,
            evidence: sorted_set_of(&values),
        };
        let ghost before = r@;
        r.push(f);
        assert(findings_view(r@) =~= findings_view(before).push(f@));
    }
    r
}

/// The authority and access findings of every concept, in order: for each,
/// its multi-writer, writer-policy and raw-read findings, then, given the
/// project's import graph, its import-bypass findings.
pub open spec fn authority_spec(
    concepts: Seq<ConceptRule>,
    semantic: SemanticSnapshot,
    edges: Option<Seq<ImportEdge>>,
) -> Seq<FindingView>
    decreases concepts.len(),
{
    if concepts.len() == 0 {
        Seq::empty()
    } else {
        let c = concepts.last();
        authority_spec(concepts.drop_last(), semantic, edges) + multi_writer_spec(c, semantic) + writer_policy_spec(
            c,
            semantic,
        ) + raw_access_spec(c, semantic) + match edges {
            Some(es) => import_bypass_spec(c, semantic, es),
            None => Seq::empty(),
        }
    }
}

/// The import edges of a snapshot, when there is one.
pub open spec fn import_edges_of(snapshot: Option<&Snapshot>) -> Option<Seq<ImportEdge>> {
    match snapshot {
        Some(s) => Some(s.import_graph@),
        None => None,
    }
}

/// The authority and access findings, given the project's import graph
/// when there is one (see `authority_spec`).
pub fn build_authority_and_access_findings_with_snapshot(
    config: &RulesConfig,
    semantic: &SemanticSnapshot,
    snapshot: Option<&Snapshot>,
) -> (r: Vec<SemanticFinding>)
    ensures
        findings_view(r@) == authority_spec(config.concept@, *semantic, import_edges_of(snapshot)),
{
    let ghost cs = config.concept@;
    let mut r: Vec<SemanticFinding> = Vec::new();
    let mut i: usize = 0;
    assert(cs.take(0) =~= Seq::<ConceptRule>::empty());
    while i < config.concept.len()
        invariant
            cs == config.concept@,
            i <= cs.len(),
            findings_view(r@) == authority_spec(cs.take(i as int), *semantic, import_edges_of(snapshot)),
        decreases cs.len() - i,
    {
        let c = &config.concept[i];
        assert(cs.take(i + 1).drop_last() =~= cs.take(i as int));
        assert(cs.take(i + 1).last() == cs[i as int]);
        let ghost r0 = r@;
        let mut a = multi_writer_findings(c, semantic);
        let mut b = writer_policy_findings(c, semantic);
        let mut d = raw_access_findings(c, semantic);
        let ghost (av, bv, dv) = (a@, b@, d@);
        r.append(&mut a);
        r.append(&mut b);
        r.append(&mut d);
        proof {
            lemma_findings_view_append(r0, av);
            lemma_findings_view_append(r0 + av, bv);
            lemma_findings_view_append(r0 + av + bv, dv);
        }
        match snapshot {
            Some(snap) => {
                let mut e = authoritative_import_bypass_findings(c, semantic, snap);
                let ghost r1 = r@;
                let ghost ev = e@;
                r.append(&mut e);
                proof {
                    lemma_findings_view_append(r1, ev);
                }
            },
            None => {
                assert(findings_view(r@) =~= findings_view(r@) + Seq::<FindingView>::empty());
            },
        }
        i = i + 1;
    }
    assert(cs.take(cs.len() as int) =~= cs);
    r
}

/// The authority and access findings without an import graph.
pub fn build_authority_and_access_findings(config: &RulesConfig, semantic: &SemanticSnapshot) -> (r: Vec<
    SemanticFinding,
>)
    ensures
        findings_view(r@) == authority_spec(config.concept@, *semantic, None),
{
    build_authority_and_access_findings_with_snapshot(config, semantic, None)
}

} // verus!
