//! Zero-config module boundaries: where the project's shape suggests a module
//! with a public API, imports that reach past that API from outside.
use crate::order::{lemma_lex_asymmetric, lemma_lex_irreflexive, lemma_lex_total, lemma_lex_transitive, lex_lt, text_less, texts_contain};
use crate::semantic::RulesConfig;
use crate::site_set::{sorted_by};
use crate::snapshot::{ImportEdge, Snapshot};
use crate::text::{concat, join, join_texts, push_line, starts_with, text_eq, Text};
use crate::{findings_view, FindingSeverity, FindingView, SemanticFinding};
use vstd::prelude::*;

verus! {

/// A declared module contract: a module root, its public API files, and
/// whether imports from outside may reach past the public API.
pub struct ModuleContractRule {
    pub id: String,
    pub root: String,
    pub public_api: Vec<String>,
    pub forbid_cross_module_deep_imports: bool,
}

/// A module boundary that the project's shape suggests, with how confident
/// the suggestion is and why.
pub struct ModuleContractSuggestion {
    pub id: String,
    pub root: String,
    pub public_api: Vec<String>,
    pub nested_public_api: Vec<String>,
    pub confidence: String,
    pub evidence: Vec<String>,
}

/// What the project's shape suggests: its module boundaries.
pub struct ProjectShapeReport {
    pub module_contracts: Vec<ModuleContractSuggestion>,
}

/// A breach of a module contract: what happened and the files involved.
pub struct ModuleContractViolation {
    pub message: String,
    pub files: Vec<String>,
}

/// The file lies under the module root.
pub open spec fn under_root(path: Text, root: Text) -> bool {
    (root + "/"@).is_prefix_of(path)
}

/// The import from `from` to `to` reaches past the module's public API from
/// outside the module.
pub open spec fn deep_import(rule: ModuleContractRule, from: Text, to: Text) -> bool {
    &&& rule.forbid_cross_module_deep_imports
    &&& under_root(to, rule.root@)
    &&& !under_root(from, rule.root@)
    &&& !rule.public_api.deep_view().contains(to)
}

/// The message of a deep import.
pub open spec fn deep_import_message(rule: ModuleContractRule, from: Text, to: Text) -> Text {
    from + " imports "@ + to + ", past the public API of module '"@ + rule.id@ + "'"@
}

/// The violations of a module contract, import by import: the message and
/// the importing and imported files.
pub open spec fn contract_violations(rule: ModuleContractRule, imports: Seq<(Text, Text)>) -> Seq<(Text, Seq<Text>)>
    decreases imports.len(),
{
    if imports.len() == 0 {
        Seq::empty()
    } else {
        let prev = contract_violations(rule, imports.drop_last());
        let e = imports.last();
        if deep_import(rule, e.0, e.1) {
            prev.push((deep_import_message(rule, e.0, e.1), seq![e.0, e.1]))
        } else {
            prev
        }
    }
}

/// The imports as pairs of texts.
pub open spec fn import_pairs(imports: Seq<ImportEdge>) -> Seq<(Text, Text)> {
    imports.map_values(|e: ImportEdge| (e.from_file@, e.to_file@))
}

/// The violations as plain values.
pub open spec fn violation_views(v: Seq<ModuleContractViolation>) -> Seq<(Text, Seq<Text>)> {
    v.map_values(|x: ModuleContractViolation| (x.message@, x.files.deep_view()))
}

/// The imports that reach past a module contract's public API from outside
/// the module, in order (see `deep_import`).
pub fn check_module_contract(rule: &ModuleContractRule, import_graph: &Vec<ImportEdge>) -> (r: Vec<ModuleContractViolation>)
    ensures
        violation_views(r@) == contract_violations(*rule, import_pairs(import_graph@)),
{
    let ghost ip = import_pairs(import_graph@);
    let mut prefix = concat(rule.root.as_str(), "/");
    let mut r: Vec<ModuleContractViolation> = Vec::new();
    let mut i: usize = 0;
    assert(violation_views(r@) =~= Seq::<(Text, Seq<Text>)>::empty());
    while i < import_graph.len()
        invariant
            i <= import_graph@.len(),
            ip == import_pairs(import_graph@),
            prefix@ == rule.root@ + "/"@,
            violation_views(r@) == contract_violations(*rule, ip.take(i as int)),
        decreases import_graph@.len() - i,
    {
        let e = &import_graph[i];
        assert(ip.take(i as int + 1).drop_last() =~= ip.take(i as int));
        assert(ip.take(i as int + 1).last() == (e.from_file@, e.to_file@));
        let deep = rule.forbid_cross_module_deep_imports && starts_with(e.to_file.as_str(), prefix.as_str())
            && !starts_with(e.from_file.as_str(), prefix.as_str()) && !texts_contain(&rule.public_api, e.to_file.as_str());
        if deep {
            let mut message = e.from_file.clone();
            message.append(" imports ");
            message.append(e.to_file.as_str());
            message.append(", past the public API of module '");
            message.append(rule.id.as_str());
            message.append("'");
            let mut files: Vec<String> = Vec::new();
            push_line(&mut files, e.from_file.clone());
            push_line(&mut files, e.to_file.clone());
            assert(files.deep_view() =~= seq![e.from_file@, e.to_file@]);
            let ghost before = violation_views(r@);
            r.push(ModuleContractViolation { message, files });
            assert(violation_views(r@) =~= before.push(
                (deep_import_message(*rule, e.from_file@, e.to_file@), seq![e.from_file@, e.to_file@]),
            ));
        }
        i = i + 1;
    }
    assert(ip.take(import_graph@.len() as int) =~= ip);
    r
}

/// Lists of texts compare element by element; a proper prefix comes first.
pub open spec fn texts_lt(a: Seq<Text>, b: Seq<Text>) -> bool
    decreases a.len(),
{
    if a.len() == 0 {
        b.len() > 0
    } else if b.len() == 0 {
        false
    } else if a[0] == b[0] {
        texts_lt(a.drop_first(), b.drop_first())
    } else {
        lex_lt(a[0], b[0])
    }
}

proof fn lemma_texts_lt_facts(a: Seq<Text>, b: Seq<Text>, c: Seq<Text>)
    ensures
        !texts_lt(a, a),
        texts_lt(a, b) && texts_lt(b, c) ==> texts_lt(a, c),
        a == b || texts_lt(a, b) || texts_lt(b, a),
    decreases a.len(),
{
    if a.len() > 0 {
        lemma_lex_irreflexive(a[0]);
        lemma_texts_lt_facts(a.drop_first(), a.drop_first(), a.drop_first());
        if b.len() > 0 {
            lemma_lex_total(a[0], b[0]);
            if c.len() > 0 {
                lemma_texts_lt_facts(a.drop_first(), b.drop_first(), c.drop_first());
                if lex_lt(a[0], b[0]) && lex_lt(b[0], c[0]) {
                    lemma_lex_transitive(a[0], b[0], c[0]);
                }
            } else {
                lemma_texts_lt_facts(a.drop_first(), b.drop_first(), b.drop_first());
            }
            if a.drop_first() == b.drop_first() && a[0] == b[0] {
                assert(a =~= b) by {
                    assert forall|k: int| 0 <= k < a.len() implies a[k] == b[k] by {
                        if k > 0 {
                            assert(a[k] == a.drop_first()[k - 1]);
                            assert(b[k] == b.drop_first()[k - 1]);
                        }
                    }
                }
            }
        }
    } else {
        if b.len() == 0 {
            assert(a =~= b);
        }
    }
}

fn texts_less(a: &Vec<String>, b: &Vec<String>) -> (r: bool)
    ensures
        r == texts_lt(a.deep_view(), b.deep_view()),
{
    let ghost av = a.deep_view();
    let ghost bv = b.deep_view();
    let mut i: usize = 0;
    assert(av.skip(0) =~= av);
    assert(bv.skip(0) =~= bv);
    while i < a.len() && i < b.len() && text_eq(a[i].as_str(), b[i].as_str())
        invariant
            av == a.deep_view(),
            bv == b.deep_view(),
            i <= av.len(),
            i <= bv.len(),
            texts_lt(av.skip(i as int), bv.skip(i as int)) == texts_lt(av, bv),
        decreases av.len() - i,
    {
        assert(av.skip(i as int).drop_first() =~= av.skip(i as int + 1));
        assert(bv.skip(i as int).drop_first() =~= bv.skip(i as int + 1));
        assert(av.skip(i as int)[0] == av[i as int]);
        assert(bv.skip(i as int)[0] == bv[i as int]);
        i = i + 1;
    }
    if i == a.len() {
        return i < b.len();
    }
    if i == b.len() {
        return false;
    }
    assert(av.skip(i as int)[0] == av[i as int]);
    assert(bv.skip(i as int)[0] == bv[i as int]);
    text_less(a[i].as_str(), b[i].as_str())
}

fn texts_equal(a: &Vec<String>, b: &Vec<String>) -> (r: bool)
    ensures
        r == (a.deep_view() == b.deep_view()),
{
    if a.len() != b.len() {
        assert(a.deep_view().len() != b.deep_view().len());
        return false;
    }
    let mut i: usize = 0;
    while i < a.len()
        invariant
            a@.len() == b@.len(),
            i <= a@.len(),
            forall|k: int| 0 <= k < i ==> a.deep_view()[k] == b.deep_view()[k],
        decreases a@.len() - i,
    {
        if !text_eq(a[i].as_str(), b[i].as_str()) {
            assert(a.deep_view()[i as int] != b.deep_view()[i as int]);
            return false;
        }
        i = i + 1;
    }
    assert(a.deep_view() =~= b.deep_view());
    true
}

/// The contract a suggestion implies: its root and public API, with deep
/// imports forbidden.
pub open spec fn suggested_rule(sg: ModuleContractSuggestion) -> ModuleContractRule {
    ModuleContractRule { id: sg.id, root: sg.root, public_api: sg.public_api, forbid_cross_module_deep_imports: true }
}

/// Some file of the violation changed.
pub open spec fn touches_change(files: Seq<Text>, changed: Seq<Text>) -> bool {
    exists|k: int| 0 <= k < files.len() && changed.contains(#[trigger] files[k])
}

/// The finding of a violation of a suggested boundary.
pub open spec fn boundary_finding(sg: ModuleContractSuggestion, v: (Text, Seq<Text>)) -> FindingView {
    (
        "zero_config_boundary_violation"@,
        FindingSeverity::Low,
        sg.id@,
        v.0 + " (inferred from project structure, not user-authored rules)"@,
        v.1,
        sg.evidence.deep_view() + seq![
            "inferred module root: "@ + sg.root@,
            "public API files: "@ + join(sg.public_api.deep_view(), ", "@),
        ],
    )
}

/// The findings of the violations of one suggestion that touch the change.
pub open spec fn suggestion_findings(sg: ModuleContractSuggestion, vs: Seq<(Text, Seq<Text>)>, changed: Seq<Text>) -> Seq<
    FindingView,
>
    decreases vs.len(),
{
    if vs.len() == 0 {
        Seq::empty()
    } else {
        suggestion_findings(sg, vs.drop_last(), changed) + if touches_change(vs.last().1, changed) {
            seq![boundary_finding(sg, vs.last())]
        } else {
            Seq::empty()
        }
    }
}

/// The findings of the high-confidence suggestions, suggestion by suggestion.
pub open spec fn boundary_candidates(
    sgs: Seq<ModuleContractSuggestion>,
    imports: Seq<(Text, Text)>,
    changed: Seq<Text>,
) -> Seq<FindingView>
    decreases sgs.len(),
{
    if sgs.len() == 0 {
        Seq::empty()
    } else {
        let sg = sgs.last();
        boundary_candidates(sgs.drop_last(), imports, changed) + if sg.confidence@ == "high"@ {
            suggestion_findings(sg, contract_violations(suggested_rule(sg), imports), changed)
        } else {
            Seq::empty()
        }
    }
}

/// The key findings are listed and told apart by: summary, then files.
pub open spec fn finding_key(v: FindingView) -> (Text, Seq<Text>) {
    (v.3, v.4)
}

/// Keys compare by summary, then files.
pub open spec fn key_lt(a: (Text, Seq<Text>), b: (Text, Seq<Text>)) -> bool {
    lex_lt(a.0, b.0) || (a.0 == b.0 && texts_lt(a.1, b.1))
}

/// The key order on findings as a value.
pub open spec fn finding_order() -> spec_fn(FindingView, FindingView) -> bool {
    |a: FindingView, b: FindingView| key_lt(finding_key(a), finding_key(b))
}

proof fn lemma_key_lt_facts(a: (Text, Seq<Text>), b: (Text, Seq<Text>), c: (Text, Seq<Text>))
    ensures
        !key_lt(a, a),
        key_lt(a, b) && key_lt(b, c) ==> key_lt(a, c),
        a == b || key_lt(a, b) || key_lt(b, a),
{
    lemma_lex_irreflexive(a.0);
    lemma_lex_total(a.0, b.0);
    lemma_texts_lt_facts(a.1, b.1, c.1);
    if lex_lt(a.0, b.0) && lex_lt(b.0, c.0) {
        lemma_lex_transitive(a.0, b.0, c.0);
    }
}

/// The first finding of the list with the key.
pub open spec fn first_with_key(vs: Seq<FindingView>, k: (Text, Seq<Text>)) -> Option<FindingView>
    decreases vs.len(),
{
    if vs.len() == 0 {
        None
    } else {
        match first_with_key(vs.drop_last(), k) {
            Some(v) => Some(v),
            None => if finding_key(vs.last()) == k {
                Some(vs.last())
            } else {
                None
            },
        }
    }
}

/// `r` holds, in key order, the first finding of `vs` for each key.
pub open spec fn first_per_key_sorted(r: Seq<FindingView>, vs: Seq<FindingView>) -> bool {
    &&& sorted_by(r, finding_order())
    &&& forall|k: (Text, Seq<Text>)| #[trigger] first_with_key(vs, k) is Some <==> exists|j: int| 0 <= j < r.len() && finding_key(r[j]) == k
    &&& forall|j: int| 0 <= j < r.len() ==> first_with_key(vs, finding_key(#[trigger] r[j])) == Some(r[j])
}

fn finding_key_less(a: &SemanticFinding, b: &SemanticFinding) -> (r: bool)
    ensures
        r == key_lt(finding_key(a@), finding_key(b@)),
{
    proof {
        lemma_lex_total(a.summary@, b.summary@);
    }
    if !text_eq(a.summary.as_str(), b.summary.as_str()) {
        return text_less(a.summary.as_str(), b.summary.as_str());
    }
    texts_less(&a.files, &b.files)
}

fn finding_key_equal(a: &SemanticFinding, b: &SemanticFinding) -> (r: bool)
    ensures
        r == (finding_key(a@) == finding_key(b@)),
{
    text_eq(a.summary.as_str(), b.summary.as_str()) && texts_equal(&a.files, &b.files)
}

/// Adds a finding where no finding of its key is listed yet.
fn insert_first(r: &mut Vec<SemanticFinding>, f: SemanticFinding, Ghost(vs): Ghost<Seq<FindingView>>)
    requires
        first_per_key_sorted(findings_view(old(r)@), vs),
    ensures
        first_per_key_sorted(findings_view(final(r)@), vs.push(f@)),
{
    let ghost old_view = findings_view(r@);
    let ghost fv = f@;
    let ghost next = vs.push(fv);
    assert(next.drop_last() =~= vs);
    let mut i: usize = 0;
    while i < r.len() && finding_key_less(&r[i], &f)
        invariant
            findings_view(r@) == old_view,
            sorted_by(old_view, finding_order()),
            fv == f@,
            i <= r@.len(),
            forall|k: int| 0 <= k < i ==> key_lt(finding_key(old_view[k]), finding_key(fv)),
        decreases r@.len() - i,
    {
        assert(old_view[i as int] == r@[i as int]@);
        i = i + 1;
    }
    if i < r.len() && finding_key_equal(&r[i], &f) {
        assert(old_view[i as int] == r@[i as int]@);
        assert(first_with_key(vs, finding_key(fv)) is Some);
        assert forall|k: (Text, Seq<Text>)| #[trigger] first_with_key(next, k) == first_with_key(vs, k) by {
            if first_with_key(vs, k) is None && finding_key(fv) == k {
                assert(false);
            }
        }
        return;
    }
    proof {
        assert forall|j: int| 0 <= j < old_view.len() implies finding_key(old_view[j]) != finding_key(fv) by {
            if j < i {
                lemma_key_lt_facts(finding_key(old_view[j]), finding_key(fv), finding_key(fv));
            } else if j == i {
                assert(old_view[i as int] == r@[i as int]@);
            } else {
                assert(old_view[i as int] == r@[i as int]@);
                lemma_key_lt_facts(finding_key(old_view[i as int]), finding_key(fv), finding_key(fv));
                assert(finding_order()(old_view[i as int], old_view[j]));
                if finding_key(old_view[j]) == finding_key(fv) {
                    assert(key_lt(finding_key(old_view[i as int]), finding_key(fv)));
                    assert(!key_lt(finding_key(old_view[i as int]), finding_key(fv))) by {
                        lemma_key_lt_facts(finding_key(fv), finding_key(old_view[i as int]), finding_key(fv));
                    }
                }
            }
        }
        assert(first_with_key(vs, finding_key(fv)) is None);
        if i < old_view.len() {
            lemma_key_lt_facts(finding_key(old_view[i as int]), finding_key(fv), finding_key(fv));
        }
    }
    let ghost fk = finding_key(fv);
    r.insert(i, f);
    let ghost new_view = findings_view(r@);
    assert(new_view =~= old_view.insert(i as int, fv));
    assert forall|a: int, b: int| 0 <= a < b < new_view.len() implies #[trigger] finding_order()(new_view[a], new_view[b]) by {
        if b < i {
            assert(finding_order()(old_view[a], old_view[b]));
        } else if a < i && b == i {
        } else if a < i {
            if b - 1 > i {
                assert(finding_order()(old_view[i as int], old_view[b - 1]));
                lemma_key_lt_facts(fk, finding_key(old_view[i as int]), finding_key(old_view[b - 1]));
            }
            lemma_key_lt_facts(finding_key(old_view[a]), fk, finding_key(old_view[b - 1]));
        } else if a == i {
            if b - 1 > i {
                assert(finding_order()(old_view[i as int], old_view[b - 1]));
                lemma_key_lt_facts(fk, finding_key(old_view[i as int]), finding_key(old_view[b - 1]));
            }
        } else {
            assert(finding_order()(old_view[a - 1], old_view[b - 1]));
        }
    }
    assert forall|k: (Text, Seq<Text>)| #[trigger] first_with_key(next, k) is Some <==> exists|j: int|
        0 <= j < new_view.len() && finding_key(new_view[j]) == k by {
        if first_with_key(next, k) is Some {
            if k == fk {
                assert(finding_key(new_view[i as int]) == k);
            } else {
                assert(next.last() == fv);
                assert(first_with_key(vs, k) is Some);
                let j = choose|j: int| 0 <= j < old_view.len() && finding_key(old_view[j]) == k;
                if j < i {
                    assert(new_view[j] == old_view[j]);
                } else {
                    assert(new_view[j + 1] == old_view[j]);
                }
            }
        }
        if exists|j: int| 0 <= j < new_view.len() && finding_key(new_view[j]) == k {
            let j = choose|j: int| 0 <= j < new_view.len() && finding_key(new_view[j]) == k;
            if j < i {
                assert(new_view[j] == old_view[j]);
            } else if j > i {
                assert(new_view[j] == old_view[j - 1]);
            }
        }
    }
    assert forall|j: int| 0 <= j < new_view.len() implies first_with_key(next, finding_key(#[trigger] new_view[j])) == Some(
        new_view[j],
    ) by {
        if j < i {
            assert(new_view[j] == old_view[j]);
        } else if j > i {
            assert(new_view[j] == old_view[j - 1]);
        }
    }
}

fn boundary_finding_of(sg: &ModuleContractSuggestion, v: &ModuleContractViolation) -> (r: SemanticFinding)
    ensures
        r@ == boundary_finding(*sg, (v.message@, v.files.deep_view())),
{
    let mut evidence = crate::clone_groups::copy_strings(&sg.evidence);
    let ghost base = evidence.deep_view();
    assert(base =~= sg.evidence.deep_view());
    let mut root_line = "inferred module root: ".to_string();
    root_line.append(sg.root.as_str());
    push_line(&mut evidence, root_line);
    let mut api_line = "public API files: ".to_string();
    let j = join_texts(&sg.public_api, ", ");
    api_line.append(j.as_str());
    push_line(&mut evidence, api_line);
    let mut summary = v.message.clone();
    summary.append(" (inferred from project structure, not user-authored rules)");
    let files = crate::clone_groups::copy_strings(&v.files);
    assert(files.deep_view() =~= v.files.deep_view());
    assert(evidence.deep_view() =~= sg.evidence.deep_view() + seq![
        "inferred module root: "@ + sg.root@,
        "public API files: "@ + join(sg.public_api.deep_view(), ", "@),
    ]);
    SemanticFinding {
        kind: "zero_config_boundary_violation".to_string(),
        severity: FindingSeverity::Low,
        concept_id: sg.id.clone(),
        summary,
        files,
        evidence,
    }
}

fn touches_changed(files: &Vec<String>, changed: &Vec<String>) -> (r: bool)
    ensures
        r == touches_change(files.deep_view(), changed.deep_view()),
{
    let mut k: usize = 0;
    while k < files.len()
        invariant
            k <= files@.len(),
            forall|q: int| 0 <= q < k ==> !changed.deep_view().contains(#[trigger] files.deep_view()[q]),
        decreases files@.len() - k,
    {
        if texts_contain(changed, files[k].as_str()) {
            assert(changed.deep_view().contains(files.deep_view()[k as int]));
            return true;
        }
        k = k + 1;
    }
    false
}

/// Zero-config boundary findings: where no module contract is declared and
/// files changed, every import that reaches past the public API of a
/// high-confidence suggested module and touches the change, listed by
/// summary and files, each once.
pub fn build_zero_config_boundary_findings(
    config: &RulesConfig,
    snapshot: &Snapshot,
    shape: &ProjectShapeReport,
    changed_files: &Vec<String>,
) -> (r: Vec<SemanticFinding>)
    ensures
        changed_files@.len() == 0 || config.module_contract@.len() > 0 ==> r@.len() == 0,
        changed_files@.len() > 0 && config.module_contract@.len() == 0 ==> first_per_key_sorted(
            findings_view(r@),
            boundary_candidates(shape.module_contracts@, import_pairs(snapshot.import_graph@), changed_files.deep_view()),
        ),
        forall|i: int, j: int|
            0 <= i < j < r@.len() ==> key_lt(finding_key(#[trigger] r@[i]@), finding_key(#[trigger] r@[j]@)),
        forall|i: int, j: int| 0 <= i < r@.len() && 0 <= j < r@.len() && i != j ==> finding_key(#[trigger] r@[i]@)
            != finding_key(#[trigger] r@[j]@),
{
    let mut r: Vec<SemanticFinding> = Vec::new();
    if changed_files.len() == 0 || config.module_contract.len() > 0 {
        return r;
    }
    let ghost ip = import_pairs(snapshot.import_graph@);
    let ghost ch = changed_files.deep_view();
    let ghost sgs = shape.module_contracts@;
    assert(findings_view(r@) =~= Seq::<FindingView>::empty());
    assert(first_per_key_sorted(findings_view(r@), boundary_candidates(sgs.take(0), ip, ch))) by {
        assert(sgs.take(0) =~= Seq::<ModuleContractSuggestion>::empty());
    }
    let mut i: usize = 0;
    while i < shape.module_contracts.len()
        invariant
            i <= sgs.len(),
            sgs == shape.module_contracts@,
            ip == import_pairs(snapshot.import_graph@),
            ch == changed_files.deep_view(),
            first_per_key_sorted(findings_view(r@), boundary_candidates(sgs.take(i as int), ip, ch)),
        decreases sgs.len() - i,
    {
        let sg = &shape.module_contracts[i];
        assert(sgs.take(i as int + 1).drop_last() =~= sgs.take(i as int));
        assert(sgs.take(i as int + 1).last() == *sg);
        let ghost head = boundary_candidates(sgs.take(i as int), ip, ch);
        if text_eq(sg.confidence.as_str(), "high") {
            let rule = ModuleContractRule {
                id: sg.id.clone(),
                root: sg.root.clone(),
                public_api: crate::clone_groups::copy_strings(&sg.public_api),
                forbid_cross_module_deep_imports: true,
            };
            let violations = check_module_contract(&rule, &snapshot.import_graph);
            let ghost vs = contract_violations(suggested_rule(*sg), ip);
            assert(violation_views(violations@) == vs) by {
                assert(rule.public_api.deep_view() =~= sg.public_api.deep_view());
                lemma_violations_agree(rule, suggested_rule(*sg), ip);
            }
            let mut k: usize = 0;
            while k < violations.len()
                invariant
                    k <= violations@.len(),
                    violation_views(violations@) == vs,
                    ch == changed_files.deep_view(),
                    first_per_key_sorted(findings_view(r@), head + suggestion_findings(*sg, vs.take(k as int), ch)),
                decreases violations@.len() - k,
            {
                let v = &violations[k];
                assert(vs.take(k as int + 1).drop_last() =~= vs.take(k as int));
                assert(vs.take(k as int + 1).last() == (v.message@, v.files.deep_view()));
                let ghost before = head + suggestion_findings(*sg, vs.take(k as int), ch);
                let ghost t1 = vs.take(k as int + 1);
                let touched = touches_changed(&v.files, changed_files);
                assert(suggestion_findings(*sg, t1, ch) == suggestion_findings(*sg, vs.take(k as int), ch) + if touches_change(
                    t1.last().1,
                    ch,
                ) {
                    seq![boundary_finding(*sg, t1.last())]
                } else {
                    Seq::empty()
                });
                let ghost sk = suggestion_findings(*sg, vs.take(k as int), ch);
                assert(t1.last().1 == v.files.deep_view());
                if touched {
                    let f = boundary_finding_of(sg, v);
                    assert(f@ == boundary_finding(*sg, t1.last()));
                    insert_first(&mut r, f, Ghost(before));
                    assert(suggestion_findings(*sg, t1, ch) == sk + seq![f@]);
                    assert(head + (sk + seq![f@]) =~= before.push(f@));
                } else {
                    assert(suggestion_findings(*sg, t1, ch) == sk + Seq::<FindingView>::empty());
                    assert(head + (sk + Seq::<FindingView>::empty()) =~= before);
                }
                k = k + 1;
            }
            assert(vs.take(vs.len() as int) =~= vs);
            assert(boundary_candidates(sgs.take(i as int + 1), ip, ch) =~= head + suggestion_findings(*sg, vs, ch));
        } else {
            assert(boundary_candidates(sgs.take(i as int + 1), ip, ch) =~= head);
        }
        i = i + 1;
    }
    assert(sgs.take(sgs.len() as int) =~= sgs);
    proof {
        lemma_keys_increase(findings_view(r@));
        assert forall|i: int, j: int| 0 <= i < j < r@.len() implies key_lt(
            finding_key(#[trigger] r@[i]@),
            finding_key(#[trigger] r@[j]@),
        ) by {
            assert(findings_view(r@)[i] == r@[i]@ && findings_view(r@)[j] == r@[j]@);
        }
        assert forall|i: int, j: int| 0 <= i < r@.len() && 0 <= j < r@.len() && i != j implies finding_key(
            #[trigger] r@[i]@,
        ) != finding_key(#[trigger] r@[j]@) by {
            assert(findings_view(r@)[i] == r@[i]@ && findings_view(r@)[j] == r@[j]@);
            if i < j {
                lemma_key_lt_facts(finding_key(r@[i]@), finding_key(r@[j]@), finding_key(r@[j]@));
            } else {
                lemma_key_lt_facts(finding_key(r@[j]@), finding_key(r@[i]@), finding_key(r@[i]@));
            }
        }
    }
    r
}

/// In a sequence sorted by `finding_order`, keys strictly increase.
proof fn lemma_keys_increase(v: Seq<FindingView>)
    requires
        sorted_by(v, finding_order()),
    ensures
        forall|i: int, j: int| 0 <= i < j < v.len() ==> key_lt(finding_key(#[trigger] v[i]), finding_key(#[trigger] v[j])),
{
    assert forall|i: int, j: int| 0 <= i < j < v.len() implies key_lt(finding_key(#[trigger] v[i]), finding_key(#[trigger] v[j])) by {
        assert(finding_order()(v[i], v[j]));
    }
}

/// Two rules with the same id, root, public API and flag breach alike.
proof fn lemma_violations_agree(a: ModuleContractRule, b: ModuleContractRule, imports: Seq<(Text, Text)>)
    requires
        a.id@ == b.id@,
        a.root@ == b.root@,
        a.public_api.deep_view() == b.public_api.deep_view(),
        a.forbid_cross_module_deep_imports == b.forbid_cross_module_deep_imports,
    ensures
        contract_violations(a, imports) == contract_violations(b, imports),
    decreases imports.len(),
{
    if imports.len() > 0 {
        lemma_violations_agree(a, b, imports.drop_last());
    }
}

} // verus!
