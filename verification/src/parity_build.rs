//! Building contract parity reports: which declared symbols exist, which
//! runtime entries exist and reference the contract family, and whether
//! snapshot and versioning demands are met. The files consulted are handed
//! in as `ParitySource` values.
use crate::obligations::{lemma_opt_text_lt_facts, opt_text, opt_text_lt};
use crate::order::{lemma_lex_asymmetric, lemma_lex_irreflexive, lemma_lex_total, lemma_lex_transitive, lex_lt, text_less};
use crate::grouping::sorted_set;
use crate::obligations_contract::{declared_line, symbol_declared, symbol_line};
use crate::obligations_domain::{patterns_touch, patterns_touch_changed, push_scoped_paths, scoped_value_paths};
use crate::order::{sorted_insert, strictly_sorted, texts_contain};
use crate::parity::{ContractParityReport, ParityBuildResult, ParityCell, ParityScope};
use crate::semantic::{
    path_from_scoped_value, scope_split, scoped_symbol, symbol_from_scoped_path, ConceptRule, ContractRule, RulesConfig,
    SemanticSnapshot, SymbolFact,
};
use crate::structural::utils::{lower_text, to_ascii_lower};
use crate::sorting::{ranked_order, sort_ranked, Ranked};
use crate::text::{push_line};
use crate::site_set::{is_strict_order, sorted_by, sorted_set_by};
use crate::text::{chars_of, chars_occur_at, occurs_at, text_eq, Text};
use vstd::prelude::*;

verus! {

/// A file the parity analysis consults: its path under the project root,
/// whether it exists, and what reading it gave (its text, or the error).
pub struct ParitySource {
    pub path: String,
    pub exists: bool,
    pub content: Result<String, String>,
}

/// A character of an identifier: an ASCII letter or digit, or `_`.
pub open spec fn is_ident_char(c: char) -> bool {
    ('a' <= c && c <= 'z') || ('A' <= c && c <= 'Z') || ('0' <= c && c <= '9') || c == '_'
}

/// `name` stands in `t` at `i` as a whole identifier: it is a non-empty run
/// of identifier characters that no identifier character touches.
pub open spec fn token_at(t: Text, i: int, name: Text) -> bool {
    &&& name.len() > 0
    &&& forall|k: int| 0 <= k < name.len() ==> is_ident_char(#[trigger] name[k])
    &&& occurs_at(t, name, i)
    &&& (i == 0 || !is_ident_char(t[i - 1]))
    &&& (i + name.len() == t.len() || !is_ident_char(t[i + name.len()]))
}

/// `name` is one of the identifiers of `t`.
pub open spec fn has_token(t: Text, name: Text) -> bool {
    exists|i: int| token_at(t, i, name)
}

fn ident_char(c: char) -> (r: bool)
    ensures
        r == is_ident_char(c),
{
    ('a' <= c && c <= 'z') || ('A' <= c && c <= 'Z') || ('0' <= c && c <= '9') || c == '_'
}

/// Whether `name` is one of the identifiers of `t` (see `has_token`).
pub fn contains_token(t: &str, name: &str) -> (r: bool)
    ensures
        r == has_token(t@, name@),
{
    let tc = chars_of(t);
    let nc = chars_of(name);
    if nc.len() == 0 {
        return false;
    }
    let mut k: usize = 0;
    while k < nc.len()
        invariant
            k <= nc@.len(),
            nc@ == name@,
            forall|q: int| 0 <= q < k ==> is_ident_char(#[trigger] nc@[q]),
        decreases nc@.len() - k,
    {
        if !ident_char(nc[k]) {
            assert(!token_at(t@, 0, name@));
            assert forall|i: int| !token_at(t@, i, name@) by {
                assert(!is_ident_char(name@[k as int]));
            }
            return false;
        }
        k = k + 1;
    }
    if nc.len() > tc.len() {
        return false;
    }
    let mut i: usize = 0;
    while i <= tc.len() - nc.len()
        invariant
            tc@ == t@,
            nc@ == name@,
            nc@.len() > 0,
            nc@.len() <= tc@.len(),
            i <= tc@.len() - nc@.len() + 1,
            forall|q: int| 0 <= q < nc@.len() ==> is_ident_char(#[trigger] nc@[q]),
            forall|j: int| 0 <= j < i ==> !token_at(t@, j, name@),
        decreases tc@.len() - nc@.len() + 1 - i,
    {
        if chars_occur_at(&tc, &nc, i) {
            let before_ok = i == 0 || !ident_char(tc[i - 1]);
            let after_ok = i + nc.len() == tc.len() || !ident_char(tc[i + nc.len()]);
            if before_ok && after_ok {
                assert(token_at(t@, i as int, name@));
                return true;
            }
        }
        i = i + 1;
    }
    assert forall|j: int| !token_at(t@, j, name@) by {
        if token_at(t@, j, name@) {
            assert(j < i);
        }
    }
    false
}

/// A cell as plain values: kind, status, detail, path.
pub type CellView = (Text, Text, Text, Option<Text>);

/// The plain values of a cell.
pub open spec fn cell_view(c: ParityCell) -> CellView {
    (c.kind@, c.status@, c.detail@, opt_text(c.path))
}

/// The plain values of cells.
pub open spec fn cell_views(v: Seq<ParityCell>) -> Seq<CellView> {
    v.map_values(|c: ParityCell| cell_view(c))
}

/// Cells compare by kind, then status, then detail, then path (a missing
/// path first).
pub open spec fn cell_lt(a: CellView, b: CellView) -> bool {
    ||| lex_lt(a.0, b.0)
    ||| (a.0 == b.0 && lex_lt(a.1, b.1))
    ||| (a.0 == b.0 && a.1 == b.1 && lex_lt(a.2, b.2))
    ||| (a.0 == b.0 && a.1 == b.1 && a.2 == b.2 && opt_text_lt(a.3, b.3))
}

/// The cell order as a value.
pub open spec fn cell_order() -> spec_fn(CellView, CellView) -> bool {
    |a: CellView, b: CellView| cell_lt(a, b)
}

proof fn lemma_cell_lt_facts(a: CellView, b: CellView, c: CellView)
    ensures
        !cell_lt(a, a),
        cell_lt(a, b) && cell_lt(b, c) ==> cell_lt(a, c),
        a == b || cell_lt(a, b) || cell_lt(b, a),
{
    lemma_lex_irreflexive(a.0);
    lemma_lex_irreflexive(a.1);
    lemma_lex_irreflexive(a.2);
    lemma_opt_text_lt_facts(a.3, b.3, c.3);
    lemma_lex_total(a.0, b.0);
    lemma_lex_total(a.1, b.1);
    lemma_lex_total(a.2, b.2);
    if lex_lt(a.0, b.0) && lex_lt(b.0, c.0) {
        lemma_lex_transitive(a.0, b.0, c.0);
    }
    if lex_lt(a.1, b.1) && lex_lt(b.1, c.1) {
        lemma_lex_transitive(a.1, b.1, c.1);
    }
    if lex_lt(a.2, b.2) && lex_lt(b.2, c.2) {
        lemma_lex_transitive(a.2, b.2, c.2);
    }
}

/// The cell order is a strict order.
pub proof fn lemma_cell_order_strict()
    ensures
        is_strict_order(cell_order()),
{
    assert forall|a: CellView| !#[trigger] cell_order()(a, a) by {
        lemma_cell_lt_facts(a, a, a);
    }
    assert forall|a: CellView, b: CellView, c: CellView|
        #[trigger] cell_order()(a, b) && #[trigger] cell_order()(b, c) implies cell_order()(a, c) by {
        lemma_cell_lt_facts(a, b, c);
    }
}

fn opt_text_less(a: &Option<String>, b: &Option<String>) -> (r: bool)
    ensures
        r == opt_text_lt(opt_text(*a), opt_text(*b)),
{
    match (a, b) {
        (None, Some(_)) => true,
        (Some(x), Some(y)) => text_less(x.as_str(), y.as_str()),
        _ => false,
    }
}

fn opt_text_equal(a: &Option<String>, b: &Option<String>) -> (r: bool)
    ensures
        r == (opt_text(*a) == opt_text(*b)),
{
    match (a, b) {
        (None, None) => true,
        (Some(x), Some(y)) => text_eq(x.as_str(), y.as_str()),
        _ => false,
    }
}

fn cell_less(a: &ParityCell, b: &ParityCell) -> (r: bool)
    ensures
        r == cell_lt(cell_view(*a), cell_view(*b)),
{
    proof {
        lemma_lex_total(a.kind@, b.kind@);
        lemma_lex_total(a.status@, b.status@);
        lemma_lex_total(a.detail@, b.detail@);
        if lex_lt(a.kind@, b.kind@) {
            lemma_lex_asymmetric(a.kind@, b.kind@);
        }
        if lex_lt(b.kind@, a.kind@) {
            lemma_lex_asymmetric(b.kind@, a.kind@);
        }
    }
    if !text_eq(a.kind.as_str(), b.kind.as_str()) {
        return text_less(a.kind.as_str(), b.kind.as_str());
    }
    if !text_eq(a.status.as_str(), b.status.as_str()) {
        return text_less(a.status.as_str(), b.status.as_str());
    }
    if !text_eq(a.detail.as_str(), b.detail.as_str()) {
        return text_less(a.detail.as_str(), b.detail.as_str());
    }
    opt_text_less(&a.path, &b.path)
}

fn cell_equal(a: &ParityCell, b: &ParityCell) -> (r: bool)
    ensures
        r == (cell_view(*a) == cell_view(*b)),
{
    text_eq(a.kind.as_str(), b.kind.as_str()) && text_eq(a.status.as_str(), b.status.as_str()) && text_eq(
        a.detail.as_str(),
        b.detail.as_str(),
    ) && opt_text_equal(&a.path, &b.path)
}

/// Adds a cell to an ordered set of cells.
fn cell_set_insert(v: &mut Vec<ParityCell>, c: ParityCell)
    requires
        sorted_by(cell_views(old(v)@), cell_order()),
    ensures
        sorted_by(cell_views(final(v)@), cell_order()),
        cell_views(final(v)@).to_set() == cell_views(old(v)@).to_set().insert(cell_view(c)),
        final(v)@.len() <= old(v)@.len() + 1,
{
    let ghost old_view = cell_views(v@);
    let ghost cv = cell_view(c);
    let mut i: usize = 0;
    while i < v.len() && cell_less(&v[i], &c)
        invariant
            cell_views(v@) == old_view,
            sorted_by(old_view, cell_order()),
            cv == cell_view(c),
            i <= v@.len(),
            forall|k: int| 0 <= k < i ==> cell_lt(old_view[k], cv),
        decreases v@.len() - i,
    {
        assert(old_view[i as int] == cell_view(v@[i as int]));
        i = i + 1;
    }
    if i < v.len() && cell_equal(&v[i], &c) {
        assert(old_view.to_set().insert(cv) =~= old_view.to_set()) by {
            assert(old_view[i as int] == cv);
        }
        return;
    }
    proof {
        if i < v@.len() {
            assert(old_view[i as int] == cell_view(v@[i as int]));
            lemma_cell_lt_facts(old_view[i as int], cv, cv);
        }
    }
    v.insert(i, c);
    let ghost new_view = cell_views(v@);
    assert(new_view =~= old_view.insert(i as int, cv));
    assert forall|a: int, b: int| 0 <= a < b < new_view.len() implies #[trigger] cell_order()(new_view[a], new_view[b]) by {
        if b < i {
            assert(cell_order()(old_view[a], old_view[b]));
        } else if a < i && b == i {
        } else if a < i {
            assert(cell_lt(cv, old_view[i as int]));
            if b - 1 > i {
                assert(cell_order()(old_view[i as int], old_view[b - 1]));
                lemma_cell_lt_facts(cv, old_view[i as int], old_view[b - 1]);
            }
            lemma_cell_lt_facts(old_view[a], cv, old_view[b - 1]);
        } else if a == i {
            if b - 1 > i {
                assert(cell_order()(old_view[i as int], old_view[b - 1]));
                lemma_cell_lt_facts(cv, old_view[i as int], old_view[b - 1]);
            }
        } else {
            assert(cell_order()(old_view[a - 1], old_view[b - 1]));
        }
    }
    assert(new_view.to_set() =~= old_view.to_set().insert(cv)) by {
        assert forall|x: CellView| new_view.to_set().contains(x) implies old_view.to_set().insert(cv).contains(x) by {
            let k = choose|k: int| 0 <= k < new_view.len() && new_view[k] == x;
            if k < i {
                assert(old_view[k] == x);
            } else if k > i {
                assert(old_view[k - 1] == x);
            }
        }
        assert forall|x: CellView| old_view.to_set().insert(cv).contains(x) implies new_view.to_set().contains(x) by {
            if x == cv {
                assert(new_view[i as int] == x);
            } else {
                let k = choose|k: int| 0 <= k < old_view.len() && old_view[k] == x;
                if k < i {
                    assert(new_view[k] == x);
                } else {
                    assert(new_view[k + 1] == x);
                }
            }
        }
    }
}

/// The source at position `i` is the file `p`.
pub open spec fn source_at(ss: Seq<ParitySource>, i: int, p: Text) -> bool {
    ss[i].path@ == p
}

/// Some source is the file `p`.
pub open spec fn has_source(ss: Seq<ParitySource>, p: Text) -> bool {
    exists|i: int| 0 <= i < ss.len() && source_at(ss, i, p)
}

/// The position of the first source of the file `p`.
pub open spec fn first_source(ss: Seq<ParitySource>, p: Text) -> int {
    choose|i: int| 0 <= i < ss.len() && source_at(ss, i, p) && forall|j: int| 0 <= j < i ==> !source_at(ss, j, p)
}

/// The file `p` exists, by its first source; a file without source does not.
pub open spec fn source_exists(ss: Seq<ParitySource>, p: Text) -> bool {
    has_source(ss, p) && ss[first_source(ss, p)].exists
}

/// What reading the file `p` gave, by its first source: its text or the
/// error; a file without source reads as an error with an empty message.
pub open spec fn source_read(ss: Seq<ParitySource>, p: Text) -> Result<Text, Text> {
    if has_source(ss, p) {
        match ss[first_source(ss, p)].content {
            Ok(t) => Ok(t@),
            Err(e) => Err(e@),
        }
    } else {
        Err(Seq::empty())
    }
}

fn find_source(ss: &Vec<ParitySource>, p: &str) -> (r: Option<usize>)
    ensures
        match r {
            Some(i) => has_source(ss@, p@) && i == first_source(ss@, p@) && i < ss@.len(),
            None => !has_source(ss@, p@),
        },
{
    let mut i: usize = 0;
    while i < ss.len()
        invariant
            i <= ss@.len(),
            forall|j: int| 0 <= j < i ==> !source_at(ss@, j, p@),
        decreases ss@.len() - i,
    {
        if text_eq(ss[i].path.as_str(), p) {
            assert(source_at(ss@, i as int, p@));
            let ghost k = first_source(ss@, p@);
            assert(k == i) by {
                if k < i {
                    assert(!source_at(ss@, k, p@));
                }
                if k > i {
                    assert(!source_at(ss@, i as int, p@));
                }
            }
            return Some(i);
        }
        i = i + 1;
    }
    None
}

fn file_exists_in(ss: &Vec<ParitySource>, p: &str) -> (r: bool)
    ensures
        r == source_exists(ss@, p@),
{
    match find_source(ss, p) {
        Some(i) => ss[i].exists,
        None => false,
    }
}

/// The value of an optional surface, as a list.
pub open spec fn opt_seq(o: Option<String>) -> Seq<Text> {
    match o {
        Some(s) => seq![s@],
        None => Seq::empty(),
    }
}

fn push_opt(out: &mut Vec<String>, o: &Option<String>)
    ensures
        final(out).deep_view() == old(out).deep_view() + opt_seq(*o),
{
    let ghost before = out.deep_view();
    match o {
        Some(s) => {
            push_line(out, s.clone());
        },
        None => {},
    }
    assert(out.deep_view() =~= before + opt_seq(*o));
}

/// The contract's scoped symbols: categories, payload map, registry.
pub open spec fn parity_scoped_symbols(c: ContractRule) -> Seq<Text> {
    opt_seq(c.categories_symbol) + opt_seq(c.payload_map_symbol) + opt_seq(c.registry_symbol)
}

/// The paths a contract names: those of its scoped symbols, then its
/// browser and electron entries.
pub open spec fn parity_rule_paths(c: ContractRule) -> Seq<Text> {
    scoped_value_paths(parity_scoped_symbols(c)) + opt_seq(c.browser_entry) + opt_seq(c.electron_entry)
}

fn contract_scoped_symbol_list(c: &ContractRule) -> (r: Vec<String>)
    ensures
        r.deep_view() == parity_scoped_symbols(*c),
{
    let mut r: Vec<String> = Vec::new();
    assert(r.deep_view() =~= Seq::<Text>::empty());
    push_opt(&mut r, &c.categories_symbol);
    push_opt(&mut r, &c.payload_map_symbol);
    push_opt(&mut r, &c.registry_symbol);
    assert(r.deep_view() =~= parity_scoped_symbols(*c));
    r
}

/// The paths a contract names (see `parity_rule_paths`).
pub fn contract_rule_paths(c: &ContractRule) -> (r: Vec<String>)
    ensures
        r.deep_view() == parity_rule_paths(*c),
{
    let scoped = contract_scoped_symbol_list(c);
    let mut r: Vec<String> = Vec::new();
    assert(r.deep_view() =~= Seq::<Text>::empty());
    push_scoped_paths(&mut r, &scoped);
    push_opt(&mut r, &c.browser_entry);
    push_opt(&mut r, &c.electron_entry);
    assert(r.deep_view() =~= parity_rule_paths(*c));
    r
}

/// A contract is in scope: always in full scope; in changed scope when one
/// of the paths it names selects a changed file.
pub open spec fn parity_in_scope(c: ContractRule, scope: ParityScope, changed: Seq<Text>) -> bool {
    scope == ParityScope::All || (changed.len() > 0 && patterns_touch(parity_rule_paths(c), changed))
}

/// Whether a contract is in scope (see `parity_in_scope`).
pub fn contract_in_scope(c: &ContractRule, scope: ParityScope, changed: &Vec<String>) -> (r: bool)
    ensures
        r == parity_in_scope(*c, scope, changed.deep_view()),
{
    if scope == ParityScope::All {
        return true;
    }
    if changed.len() == 0 {
        return false;
    }
    let paths = contract_rule_paths(c);
    patterns_touch_changed(&paths, changed)
}

/// The position of the first concept with the id.
pub open spec fn first_concept(cs: Seq<ConceptRule>, id: Text) -> int {
    choose|i: int| 0 <= i < cs.len() && cs[i].id@ == id && forall|j: int| 0 <= j < i ==> cs[j].id@ != id
}

/// Some concept has the id.
pub open spec fn has_concept(cs: Seq<ConceptRule>, id: Text) -> bool {
    exists|i: int| 0 <= i < cs.len() && (#[trigger] cs[i]).id@ == id
}

/// The paths of a concept's anchors and canonical accessors.
pub open spec fn binding_paths(k: ConceptRule) -> Seq<Text> {
    scoped_value_paths(k.anchors.deep_view()) + scoped_value_paths(k.canonical_accessors.deep_view())
}

/// The paths whose symbols belong to a contract's family: the paths it
/// names, and those the first concept of its id binds.
pub open spec fn related_paths(config: RulesConfig, c: ContractRule) -> Set<Text> {
    parity_rule_paths(c).to_set() + if has_concept(config.concept@, c.id@) {
        binding_paths(config.concept@[first_concept(config.concept@, c.id@)]).to_set()
    } else {
        Set::empty()
    }
}

/// The names of a contract's family: those of its scoped symbols, and those
/// of the symbols declared in its related paths.
pub open spec fn family_names(config: RulesConfig, c: ContractRule, semantic: SemanticSnapshot) -> Set<Text> {
    Set::new(
        |n: Text|
            (exists|k: int|
                0 <= k < parity_scoped_symbols(c).len() && scoped_symbol(#[trigger] parity_scoped_symbols(c)[k]) == Some(
                    n,
                )) || (exists|i: int|
                0 <= i < semantic.symbols@.len() && related_paths(config, c).contains(
                    (#[trigger] semantic.symbols@[i]).path@,
                ) && semantic.symbols@[i].name@ == n),
    )
}

fn related_path_list(config: &RulesConfig, c: &ContractRule) -> (r: Vec<String>)
    ensures
        r.deep_view().to_set() == related_paths(*config, *c),
{
    let mut r = contract_rule_paths(c);
    let ghost cs = config.concept@;
    let mut i: usize = 0;
    while i < config.concept.len()
        invariant
            i <= cs.len(),
            cs == config.concept@,
            r.deep_view() == parity_rule_paths(*c),
            forall|j: int| 0 <= j < i ==> cs[j].id@ != c.id@,
        decreases cs.len() - i,
    {
        if text_eq(config.concept[i].id.as_str(), c.id.as_str()) {
            let ghost k = first_concept(cs, c.id@);
            assert(k == i) by {
                assert(cs[i as int].id@ == c.id@);
                if k < i {
                    assert(cs[k].id@ != c.id@);
                }
                if k > i {
                    assert(cs[i as int].id@ != c.id@);
                }
            }
            let ghost base = r.deep_view();
            push_scoped_paths(&mut r, &config.concept[i].anchors);
            push_scoped_paths(&mut r, &config.concept[i].canonical_accessors);
            assert(r.deep_view() =~= base + binding_paths(cs[i as int]));
            proof {
                let bp = binding_paths(cs[i as int]);
                assert((base + bp).to_set() =~= base.to_set() + bp.to_set()) by {
                    assert forall|x: Text| (base + bp).to_set().contains(x) implies (base.to_set() + bp.to_set()).contains(x) by {
                        let q = choose|q: int| 0 <= q < (base + bp).len() && (base + bp)[q] == x;
                        if q < base.len() {
                            assert(base[q] == x);
                        } else {
                            assert(bp[q - base.len()] == x);
                        }
                    }
                    assert forall|x: Text| (base.to_set() + bp.to_set()).contains(x) implies (base + bp).to_set().contains(x) by {
                        if base.to_set().contains(x) {
                            let q = choose|q: int| 0 <= q < base.len() && base[q] == x;
                            assert((base + bp)[q] == x);
                        } else {
                            let q = choose|q: int| 0 <= q < bp.len() && bp[q] == x;
                            assert((base + bp)[q + base.len()] == x);
                        }
                    }
                }
            }
            assert(r.deep_view().to_set() =~= related_paths(*config, *c));
            return r;
        }
        i = i + 1;
    }
    assert(!has_concept(cs, c.id@));
    assert(r.deep_view().to_set() =~= related_paths(*config, *c));
    r
}

fn family_name_list(config: &RulesConfig, c: &ContractRule, semantic: &SemanticSnapshot) -> (r: Vec<String>)
    ensures
        strictly_sorted(r.deep_view()),
        r.deep_view().to_set() == family_names(*config, *c, *semantic),
{
    let scoped = contract_scoped_symbol_list(c);
    let ghost sc = scoped.deep_view();
    let mut names: Vec<String> = Vec::new();
    let mut k: usize = 0;
    assert(names.deep_view().to_set() =~= Set::<Text>::empty());
    while k < scoped.len()
        invariant
            k <= sc.len(),
            sc == scoped.deep_view(),
            strictly_sorted(names.deep_view()),
            names.deep_view().to_set() == Set::new(|n: Text| exists|q: int| 0 <= q < k && scoped_symbol(#[trigger] sc[q]) == Some(n)),
        decreases sc.len() - k,
    {
        assert(sc[k as int] == scoped@[k as int]@);
        match symbol_from_scoped_path(scoped[k].as_str()) {
            Some(name) => {
                sorted_insert(&mut names, name.as_str());
            },
            None => {},
        }
        assert(names.deep_view().to_set() =~= Set::new(
            |n: Text| exists|q: int| 0 <= q < k + 1 && scoped_symbol(#[trigger] sc[q]) == Some(n),
        ));
        k = k + 1;
    }
    let related = related_path_list(config, c);
    let ghost rel = related_paths(*config, *c);
    let ghost base = names.deep_view().to_set();
    let ghost syms = semantic.symbols@;
    let mut i: usize = 0;
    while i < semantic.symbols.len()
        invariant
            i <= syms.len(),
            syms == semantic.symbols@,
            related.deep_view().to_set() == rel,
            strictly_sorted(names.deep_view()),
            names.deep_view().to_set() == base + Set::new(
                |n: Text| exists|q: int| 0 <= q < i && rel.contains((#[trigger] syms[q]).path@) && syms[q].name@ == n,
            ),
        decreases syms.len() - i,
    {
        if texts_contain(&related, semantic.symbols[i].path.as_str()) {
            sorted_insert(&mut names, semantic.symbols[i].name.as_str());
        }
        assert(names.deep_view().to_set() =~= base + Set::new(
            |n: Text| exists|q: int| 0 <= q < i + 1 && rel.contains((#[trigger] syms[q]).path@) && syms[q].name@ == n,
        ));
        i = i + 1;
    }
    assert(names.deep_view().to_set() =~= family_names(*config, *c, *semantic));
    names
}

/// Some name of the family is an identifier of the text.
pub open spec fn mentions_family(t: Text, names: Set<Text>) -> bool {
    exists|n: Text| names.contains(n) && has_token(t, n)
}

/// A runtime entry binds the contract: it exists, was read, and its text
/// names a member of the contract family.
pub open spec fn entry_bound(ss: Seq<ParitySource>, entry: Option<String>, present: bool, names: Set<Text>) -> bool {
    present && match entry {
        Some(p) => match source_read(ss, p@) {
            Ok(t) => mentions_family(t, names),
            Err(_) => false,
        },
        None => false,
    }
}

/// The warning of a runtime entry that exists but could not be read while
/// the family has names.
pub open spec fn entry_warnings(ss: Seq<ParitySource>, entry: Option<String>, present: bool, names: Set<Text>) -> Seq<Text> {
    match entry {
        Some(p) => if present && names != Set::<Text>::empty() {
            match source_read(ss, p@) {
                Ok(_) => Seq::empty(),
                Err(e) => seq!["Failed to read parity source '"@ + p@ + "': "@ + e],
            }
        } else {
            Seq::empty()
        },
        None => Seq::empty(),
    }
}

fn text_mentions_family(t: &str, names: &Vec<String>) -> (r: bool)
    ensures
        r == mentions_family(t@, names.deep_view().to_set()),
{
    let mut i: usize = 0;
    while i < names.len()
        invariant
            i <= names@.len(),
            forall|k: int| 0 <= k < i ==> !has_token(t@, #[trigger] names.deep_view()[k]),
        decreases names@.len() - i,
    {
        if contains_token(t, names[i].as_str()) {
            assert(names.deep_view().to_set().contains(names.deep_view()[i as int]));
            return true;
        }
        i = i + 1;
    }
    assert forall|n: Text| names.deep_view().to_set().contains(n) implies !has_token(t@, n) by {
        let k = choose|k: int| 0 <= k < names.deep_view().len() && names.deep_view()[k] == n;
    }
    false
}

/// Whether a runtime entry binds the contract (see `entry_bound`); records
/// the warning of an entry that could not be read.
fn entry_binding(
    ss: &Vec<ParitySource>,
    entry: &Option<String>,
    present: bool,
    names: &Vec<String>,
    warnings: &mut Vec<String>,
) -> (r: bool)
    ensures
        r == entry_bound(ss@, *entry, present, names.deep_view().to_set()),
        final(warnings).deep_view() == old(warnings).deep_view() + entry_warnings(
            ss@,
            *entry,
            present,
            names.deep_view().to_set(),
        ),
{
    let ghost before = warnings.deep_view();
    let ghost nm = names.deep_view().to_set();
    proof {
        if names@.len() > 0 {
            assert(nm.contains(names.deep_view()[0]));
        } else {
            assert(nm =~= Set::<Text>::empty());
        }
    }
    if !present {
        assert(warnings.deep_view() =~= before + entry_warnings(ss@, *entry, present, nm));
        return false;
    }
    match entry {
        Some(p) => {
            if names.len() == 0 {
                assert(warnings.deep_view() =~= before + entry_warnings(ss@, *entry, present, nm));
                return false;
            }
            match find_source(ss, p.as_str()) {
                Some(i) => match &ss[i].content {
                    Ok(t) => {
                        assert(warnings.deep_view() =~= before + entry_warnings(ss@, *entry, present, nm));
                        text_mentions_family(t.as_str(), names)
                    },
                    Err(e) => {
                        let mut w = "Failed to read parity source '".to_string();
                        w.append(p.as_str());
                        w.append("': ");
                        w.append(e.as_str());
                        push_line(warnings, w);
                        assert(warnings.deep_view() =~= before + entry_warnings(ss@, *entry, present, nm));
                        false
                    },
                },
                None => {
                    let mut w = "Failed to read parity source '".to_string();
                    w.append(p.as_str());
                    w.append("': ");
                    push_line(warnings, w);
                    assert(warnings.deep_view() =~= before + entry_warnings(ss@, *entry, present, nm));
                    false
                },
            }
        },
        None => {
            assert(warnings.deep_view() =~= before + entry_warnings(ss@, *entry, present, nm));
            false
        },
    }
}

/// The text (in lower case) names a version: `version`, `schemaversion` or
/// `schema_version` is one of its identifiers.
pub open spec fn has_version_marker(t: Text) -> bool {
    let l = lower_text(t);
    has_token(l, "version"@) || has_token(l, "schemaversion"@) || has_token(l, "schema_version"@)
}

/// Some path reads to a text with a version marker.
pub open spec fn paths_versioned(ss: Seq<ParitySource>, paths: Seq<Text>) -> bool {
    exists|k: int|
        0 <= k < paths.len() && match source_read(ss, #[trigger] paths[k]) {
            Ok(t) => has_version_marker(t),
            Err(_) => false,
        }
}

fn paths_have_version_marker(ss: &Vec<ParitySource>, paths: &Vec<String>) -> (r: bool)
    ensures
        r == paths_versioned(ss@, paths.deep_view()),
{
    let mut k: usize = 0;
    while k < paths.len()
        invariant
            k <= paths@.len(),
            forall|q: int|
                0 <= q < k ==> !match source_read(ss@, #[trigger] paths.deep_view()[q]) {
                    Ok(t) => has_version_marker(t),
                    Err(_) => false,
                },
        decreases paths@.len() - k,
    {
        assert(paths.deep_view()[k as int] == paths@[k as int]@);
        match find_source(ss, paths[k].as_str()) {
            Some(i) => match &ss[i].content {
                Ok(t) => {
                    let l = to_ascii_lower(t.as_str());
                    if contains_token(l.as_str(), "version") || contains_token(l.as_str(), "schemaversion")
                        || contains_token(l.as_str(), "schema_version") {
                        return true;
                    }
                },
                Err(_) => {},
            },
            None => {},
        }
        k = k + 1;
    }
    false
}

/// The status of a cell.
pub open spec fn status_text(present: bool) -> Text {
    if present {
        "satisfied"@
    } else {
        "missing"@
    }
}

/// The detail of a presence cell: the label and the value, or that it is missing.
pub open spec fn presence_detail(label: Text, value: Text, present: bool) -> Text {
    if present {
        label + ": "@ + value
    } else {
        label + " missing: "@ + value
    }
}

/// The cell of a scoped symbol surface, where the contract names one:
/// satisfied when the symbol is declared in its path.
pub open spec fn symbol_cell(syms: Seq<SymbolFact>, target: Option<String>, kind: Text, label: Text) -> Seq<(CellView, bool)> {
    match target {
        Some(t) => match scope_split(t@) {
            Some(i) => {
                let path = t@.take(i);
                let present = symbol_declared(syms, path, t@.skip(i + 2));
                seq![((kind, status_text(present), presence_detail(label, t@, present), Some(path)), present)]
            },
            None => Seq::empty(),
        },
        None => Seq::empty(),
    }
}

/// The cell of a file surface, where the contract names one: satisfied
/// when the file exists.
pub open spec fn file_cell(ss: Seq<ParitySource>, path: Option<String>, kind: Text, label: Text) -> Seq<(CellView, bool)> {
    match path {
        Some(p) => {
            let present = source_exists(ss, p@);
            seq![((kind, status_text(present), presence_detail(label, p@, present), Some(p@)), present)]
        },
        None => Seq::empty(),
    }
}

/// The runtime entry is named and exists.
pub open spec fn entry_present(ss: Seq<ParitySource>, path: Option<String>) -> bool {
    match path {
        Some(p) => source_exists(ss, p@),
        None => false,
    }
}

/// The cell of a runtime binding of the entry.
pub open spec fn binding_cell(path: Option<String>, bound: bool, kind: Text) -> Seq<(CellView, bool)> {
    match path {
        Some(p) => seq![
            (
                (
                    kind,
                    status_text(bound),
                    if bound {
                        "runtime entry references contract-family symbols: "@ + p@
                    } else {
                        "runtime entry does not reference contract-family symbols: "@ + p@
                    },
                    Some(p@),
                ),
                bound,
            ),
        ],
        None => Seq::empty(),
    }
}

/// The contract requires the capability.
pub open spec fn requires_capability(c: ContractRule, cap: Text) -> bool {
    c.required_capabilities.deep_view().contains(cap)
}

/// The presence cells: the three scoped symbols, then the two entries.
pub open spec fn presence_cells(c: ContractRule, semantic: SemanticSnapshot, ss: Seq<ParitySource>) -> Seq<(CellView, bool)> {
    let syms = semantic.symbols@;
    symbol_cell(syms, c.categories_symbol, "categories_symbol"@, "categories symbol declared"@) + symbol_cell(
        syms,
        c.payload_map_symbol,
        "payload_map_symbol"@,
        "payload map symbol declared"@,
    ) + symbol_cell(syms, c.registry_symbol, "registry_symbol"@, "registry symbol declared"@) + file_cell(
        ss,
        c.browser_entry,
        "browser_entry"@,
        "browser entry present"@,
    ) + file_cell(ss, c.electron_entry, "electron_entry"@, "electron entry present"@)
}

/// The runtime binding cells, where live updates are required: one per
/// existing entry.
pub open spec fn live_cells(c: ContractRule, bp: bool, ep: bool, bb: bool, eb: bool) -> Seq<(CellView, bool)> {
    if requires_capability(c, "live_updates"@) {
        (if bp {
            binding_cell(c.browser_entry, bb, "browser_live_update_binding"@)
        } else {
            Seq::empty()
        }) + (if ep {
            binding_cell(c.electron_entry, eb, "electron_live_update_binding"@)
        } else {
            Seq::empty()
        })
    } else {
        Seq::empty()
    }
}

/// The entry a snapshot cell points at: the browser entry, else the electron one.
pub open spec fn snapshot_entry(c: ContractRule) -> Option<String> {
    match c.browser_entry {
        Some(b) => Some(b),
        None => c.electron_entry,
    }
}

/// The missing cell of a snapshot contract whose existing entries bind
/// nothing.
pub open spec fn snapshot_cells(c: ContractRule, bp: bool, ep: bool, bb: bool, eb: bool) -> Seq<(CellView, bool)> {
    if requires_capability(c, "snapshot"@) && (bp || ep) && !bb && !eb {
        match snapshot_entry(c) {
            Some(p) => seq![
                (
                    (
                        "snapshot_without_live_update"@,
                        "missing"@,
                        "snapshot contract exists without any runtime binding"@,
                        Some(p@),
                    ),
                    false,
                ),
            ],
            None => Seq::empty(),
        }
    } else {
        Seq::empty()
    }
}

/// The versioning cell, where versioning is required: satisfied when one of
/// the contract's paths holds a version marker.
pub open spec fn versioning_cells(ss: Seq<ParitySource>, c: ContractRule) -> Seq<(CellView, bool)> {
    if requires_capability(c, "versioning"@) {
        let paths = parity_rule_paths(c);
        let has = paths_versioned(ss, paths);
        seq![
            (
                (
                    "versioning"@,
                    status_text(has),
                    if has {
                        "version marker present in contract paths"@
                    } else {
                        "no version marker found in configured contract paths"@
                    },
                    if paths.len() > 0 {
                        Some(paths[0])
                    } else {
                        None
                    },
                ),
                has,
            ),
        ]
    } else {
        Seq::empty()
    }
}

/// Every cell of a contract with its status, in the order they are assessed.
pub open spec fn parity_cells(config: RulesConfig, c: ContractRule, semantic: SemanticSnapshot, ss: Seq<ParitySource>) -> Seq<
    (CellView, bool),
> {
    let names = family_names(config, c, semantic);
    let bp = entry_present(ss, c.browser_entry);
    let ep = entry_present(ss, c.electron_entry);
    let bb = entry_bound(ss, c.browser_entry, bp, names);
    let eb = entry_bound(ss, c.electron_entry, ep, names);
    presence_cells(c, semantic, ss) + live_cells(c, bp, ep, bb, eb) + snapshot_cells(c, bp, ep, bb, eb)
        + versioning_cells(ss, c)
}

/// The warnings met while assessing a contract: the browser entry's, then the electron entry's.
pub open spec fn parity_warnings(config: RulesConfig, c: ContractRule, semantic: SemanticSnapshot, ss: Seq<ParitySource>) -> Seq<Text> {
    let names = family_names(config, c, semantic);
    entry_warnings(ss, c.browser_entry, entry_present(ss, c.browser_entry), names) + entry_warnings(
        ss,
        c.electron_entry,
        entry_present(ss, c.electron_entry),
        names,
    )
}

/// The cells with the given status.
pub open spec fn cells_with(cells: Seq<(CellView, bool)>, present: bool) -> Set<CellView> {
    Set::new(|v: CellView| exists|k: int| 0 <= k < cells.len() && (#[trigger] cells[k]).1 == present && cells[k].0 == v)
}

/// The files a contract's report names: the paths of its presence cells.
pub open spec fn parity_files(c: ContractRule, semantic: SemanticSnapshot, ss: Seq<ParitySource>) -> Set<Text> {
    Set::new(
        |p: Text|
            exists|k: int|
                0 <= k < presence_cells(c, semantic, ss).len() && (#[trigger] presence_cells(c, semantic, ss)[k]).0.3 == Some(p),
    )
}

/// The summary of a parity report.
pub open spec fn parity_summary(id: Text, satisfied: nat, missing: Seq<CellView>) -> Text {
    if satisfied + missing.len() == 0 {
        "Contract '"@ + id + "' has no assessable parity cells"@
    } else if missing.len() == 0 {
        "Contract '"@ + id + "' satisfied "@ + crate::text::dec(satisfied) + " parity cells"@
    } else {
        "Contract '"@ + id + "' is missing parity cells: "@ + crate::text::join(missing.map_values(|v: CellView| v.0), ", "@)
    }
}

/// `r` is the parity report of the contract `c`.
pub open spec fn is_parity_report(
    r: ContractParityReport,
    config: RulesConfig,
    c: ContractRule,
    semantic: SemanticSnapshot,
    ss: Seq<ParitySource>,
) -> bool {
    let cells = parity_cells(config, c, semantic, ss);
    let sat = sorted_set_by(cells_with(cells, true), cell_order());
    let mis = sorted_set_by(cells_with(cells, false), cell_order());
    &&& r.id@ == c.id@
    &&& r.kind@ == c.kind@
    &&& opt_text(r.priority) == opt_text(c.priority)
    &&& r.files.deep_view() == sorted_set(parity_files(c, semantic, ss))
    &&& cell_views(r.satisfied_cells@) == sat
    &&& cell_views(r.missing_cells@) == mis
    &&& r.score_0_10000 == (if sat.len() + mis.len() == 0 {
        0
    } else {
        crate::obligations::ratio_score(sat.len(), sat.len() + mis.len())
    })
    &&& r.summary@ == parity_summary(c.id@, sat.len(), mis)
}

fn push_cell(
    sat: &mut Vec<ParityCell>,
    mis: &mut Vec<ParityCell>,
    cell: ParityCell,
    present: bool,
    Ghost(acc): Ghost<Seq<(CellView, bool)>>,
)
    requires
        sorted_by(cell_views(old(sat)@), cell_order()),
        sorted_by(cell_views(old(mis)@), cell_order()),
        cell_views(old(sat)@).to_set() == cells_with(acc, true),
        cell_views(old(mis)@).to_set() == cells_with(acc, false),
    ensures
        sorted_by(cell_views(final(sat)@), cell_order()),
        sorted_by(cell_views(final(mis)@), cell_order()),
        cell_views(final(sat)@).to_set() == cells_with(acc.push((cell_view(cell), present)), true),
        cell_views(final(mis)@).to_set() == cells_with(acc.push((cell_view(cell), present)), false),
        final(sat)@.len() + final(mis)@.len() <= old(sat)@.len() + old(mis)@.len() + 1,
{
    let ghost x = (cell_view(cell), present);
    let ghost next = acc.push(x);
    assert forall|b: bool| #[trigger] cells_with(next, b) == if x.1 == b {
        cells_with(acc, b).insert(x.0)
    } else {
        cells_with(acc, b)
    } by {
        assert forall|v: CellView| cells_with(next, b).contains(v) implies (if x.1 == b {
            cells_with(acc, b).insert(x.0)
        } else {
            cells_with(acc, b)
        }).contains(v) by {
            let k = choose|k: int| 0 <= k < next.len() && (#[trigger] next[k]).1 == b && next[k].0 == v;
            if k < acc.len() {
                assert(next[k] == acc[k]);
            }
        }
        assert forall|v: CellView| (if x.1 == b {
            cells_with(acc, b).insert(x.0)
        } else {
            cells_with(acc, b)
        }).contains(v) implies cells_with(next, b).contains(v) by {
            if x.1 == b && v == x.0 {
                assert(next[acc.len() as int] == x);
            } else {
                let k = choose|k: int| 0 <= k < acc.len() && (#[trigger] acc[k]).1 == b && acc[k].0 == v;
                assert(next[k] == acc[k]);
            }
        }
        assert(cells_with(next, b) =~= if x.1 == b {
            cells_with(acc, b).insert(x.0)
        } else {
            cells_with(acc, b)
        });
    }
    if present {
        cell_set_insert(sat, cell);
    } else {
        cell_set_insert(mis, cell);
    }
    assert(cells_with(next, true) == if x.1 == true {
        cells_with(acc, true).insert(x.0)
    } else {
        cells_with(acc, true)
    });
    assert(cells_with(next, false) == if x.1 == false {
        cells_with(acc, false).insert(x.0)
    } else {
        cells_with(acc, false)
    });
}

fn new_cell(kind: &str, present: bool, detail: String, path: Option<String>) -> (r: ParityCell)
    ensures
        cell_view(r) == (kind@, status_text(present), detail@, opt_text(path)),
{
    ParityCell {
        kind: kind.to_string(),
        status: if present {
            "satisfied".to_string()
        } else {
            "missing".to_string()
        },
        detail,
        path,
    }
}

fn detail_text(label: &str, value: &str, present: bool) -> (r: String)
    ensures
        r@ == presence_detail(label@, value@, present),
{
    let mut r = label.to_string();
    if present {
        r.append(": ");
    } else {
        r.append(" missing: ");
    }
    r.append(value);
    r
}

/// The paths of cells.
pub open spec fn paths_of(cells: Seq<(CellView, bool)>) -> Set<Text> {
    Set::new(|p: Text| exists|k: int| 0 <= k < cells.len() && (#[trigger] cells[k]).0.3 == Some(p))
}

proof fn lemma_paths_of_append(a: Seq<(CellView, bool)>, b: Seq<(CellView, bool)>)
    ensures
        paths_of(a + b) == paths_of(a) + paths_of(b),
{
    assert forall|p: Text| paths_of(a + b).contains(p) implies (paths_of(a) + paths_of(b)).contains(p) by {
        let k = choose|k: int| 0 <= k < (a + b).len() && (#[trigger] (a + b)[k]).0.3 == Some(p);
        if k < a.len() {
            assert((a + b)[k] == a[k]);
        } else {
            assert((a + b)[k] == b[k - a.len()]);
        }
    }
    assert forall|p: Text| (paths_of(a) + paths_of(b)).contains(p) implies paths_of(a + b).contains(p) by {
        if paths_of(a).contains(p) {
            let k = choose|k: int| 0 <= k < a.len() && (#[trigger] a[k]).0.3 == Some(p);
            assert((a + b)[k] == a[k]);
        } else {
            let k = choose|k: int| 0 <= k < b.len() && (#[trigger] b[k]).0.3 == Some(p);
            assert((a + b)[k + a.len()] == b[k]);
        }
    }
    assert(paths_of(a + b) =~= paths_of(a) + paths_of(b));
}

fn add_symbol_cell(
    sat: &mut Vec<ParityCell>,
    mis: &mut Vec<ParityCell>,
    files: &mut Vec<String>,
    syms: &Vec<SymbolFact>,
    target: &Option<String>,
    kind: &str,
    label: &str,
    Ghost(acc): Ghost<Seq<(CellView, bool)>>,
)
    requires
        sorted_by(cell_views(old(sat)@), cell_order()),
        sorted_by(cell_views(old(mis)@), cell_order()),
        cell_views(old(sat)@).to_set() == cells_with(acc, true),
        cell_views(old(mis)@).to_set() == cells_with(acc, false),
        strictly_sorted(old(files).deep_view()),
    ensures
        sorted_by(cell_views(final(sat)@), cell_order()),
        sorted_by(cell_views(final(mis)@), cell_order()),
        cell_views(final(sat)@).to_set() == cells_with(acc + symbol_cell(syms@, *target, kind@, label@), true),
        cell_views(final(mis)@).to_set() == cells_with(acc + symbol_cell(syms@, *target, kind@, label@), false),
        final(sat)@.len() + final(mis)@.len() <= old(sat)@.len() + old(mis)@.len() + 1,
        strictly_sorted(final(files).deep_view()),
        final(files).deep_view().to_set() == old(files).deep_view().to_set() + paths_of(symbol_cell(syms@, *target, kind@, label@)),
{
    let ghost part = symbol_cell(syms@, *target, kind@, label@);
    match target {
        Some(t) => match symbol_from_scoped_path(t.as_str()) {
            Some(name) => {
                let path = path_from_scoped_value(t.as_str());
                sorted_insert(files, path.as_str());
                let present = symbol_line(syms, path.as_str(), name.as_str()).is_some();
                let detail = detail_text(label, t.as_str(), present);
                let cell = new_cell(kind, present, detail, Some(path));
                assert(part == seq![(cell_view(cell), present)]);
                assert(acc + part =~= acc.push((cell_view(cell), present)));
                assert(paths_of(part) =~= Set::<Text>::empty().insert(path@)) by {
                    assert(part[0].0.3 == Some(path@));
                }
                push_cell(sat, mis, cell, present, Ghost(acc));
            },
            None => {
                assert(part =~= Seq::<(CellView, bool)>::empty());
                assert(acc + part =~= acc);
                assert(paths_of(part) =~= Set::<Text>::empty());
                assert(files.deep_view().to_set() =~= files.deep_view().to_set() + paths_of(part));
            },
        },
        None => {
            assert(part =~= Seq::<(CellView, bool)>::empty());
            assert(acc + part =~= acc);
            assert(paths_of(part) =~= Set::<Text>::empty());
            assert(files.deep_view().to_set() =~= files.deep_view().to_set() + paths_of(part));
        },
    }
}

fn add_file_cell(
    sat: &mut Vec<ParityCell>,
    mis: &mut Vec<ParityCell>,
    files: &mut Vec<String>,
    ss: &Vec<ParitySource>,
    entry: &Option<String>,
    kind: &str,
    label: &str,
    Ghost(acc): Ghost<Seq<(CellView, bool)>>,
) -> (present: bool)
    requires
        sorted_by(cell_views(old(sat)@), cell_order()),
        sorted_by(cell_views(old(mis)@), cell_order()),
        cell_views(old(sat)@).to_set() == cells_with(acc, true),
        cell_views(old(mis)@).to_set() == cells_with(acc, false),
        strictly_sorted(old(files).deep_view()),
    ensures
        present == entry_present(ss@, *entry),
        sorted_by(cell_views(final(sat)@), cell_order()),
        sorted_by(cell_views(final(mis)@), cell_order()),
        cell_views(final(sat)@).to_set() == cells_with(acc + file_cell(ss@, *entry, kind@, label@), true),
        cell_views(final(mis)@).to_set() == cells_with(acc + file_cell(ss@, *entry, kind@, label@), false),
        final(sat)@.len() + final(mis)@.len() <= old(sat)@.len() + old(mis)@.len() + 1,
        strictly_sorted(final(files).deep_view()),
        final(files).deep_view().to_set() == old(files).deep_view().to_set() + paths_of(file_cell(ss@, *entry, kind@, label@)),
{
    let ghost part = file_cell(ss@, *entry, kind@, label@);
    match entry {
        Some(p) => {
            sorted_insert(files, p.as_str());
            let present = file_exists_in(ss, p.as_str());
            let detail = detail_text(label, p.as_str(), present);
            let cell = new_cell(kind, present, detail, Some(p.clone()));
            assert(part == seq![(cell_view(cell), present)]);
            assert(acc + part =~= acc.push((cell_view(cell), present)));
            assert(paths_of(part) =~= Set::<Text>::empty().insert(p@)) by {
                assert(part[0].0.3 == Some(p@));
            }
            push_cell(sat, mis, cell, present, Ghost(acc));
            present
        },
        None => {
            assert(part =~= Seq::<(CellView, bool)>::empty());
            assert(acc + part =~= acc);
            assert(paths_of(part) =~= Set::<Text>::empty());
            assert(files.deep_view().to_set() =~= files.deep_view().to_set() + paths_of(part));
            false
        },
    }
}

fn add_binding_cell(
    sat: &mut Vec<ParityCell>,
    mis: &mut Vec<ParityCell>,
    entry: &Option<String>,
    bound: bool,
    kind: &str,
    Ghost(acc): Ghost<Seq<(CellView, bool)>>,
)
    requires
        sorted_by(cell_views(old(sat)@), cell_order()),
        sorted_by(cell_views(old(mis)@), cell_order()),
        cell_views(old(sat)@).to_set() == cells_with(acc, true),
        cell_views(old(mis)@).to_set() == cells_with(acc, false),
    ensures
        sorted_by(cell_views(final(sat)@), cell_order()),
        sorted_by(cell_views(final(mis)@), cell_order()),
        cell_views(final(sat)@).to_set() == cells_with(acc + binding_cell(*entry, bound, kind@), true),
        cell_views(final(mis)@).to_set() == cells_with(acc + binding_cell(*entry, bound, kind@), false),
        final(sat)@.len() + final(mis)@.len() <= old(sat)@.len() + old(mis)@.len() + 1,
{
    let ghost part = binding_cell(*entry, bound, kind@);
    match entry {
        Some(p) => {
            let mut detail = if bound {
                "runtime entry references contract-family symbols: ".to_string()
            } else {
                "runtime entry does not reference contract-family symbols: ".to_string()
            };
            detail.append(p.as_str());
            let cell = new_cell(kind, bound, detail, Some(p.clone()));
            assert(part == seq![(cell_view(cell), bound)]);
            assert(acc + part =~= acc.push((cell_view(cell), bound)));
            push_cell(sat, mis, cell, bound, Ghost(acc));
        },
        None => {
            assert(acc + part =~= acc);
        },
    }
}

fn cell_kinds(cells: &Vec<ParityCell>) -> (r: Vec<String>)
    ensures
        r.deep_view() == cell_views(cells@).map_values(|v: CellView| v.0),
{
    let mut r: Vec<String> = Vec::new();
    let mut i: usize = 0;
    while i < cells.len()
        invariant
            i <= cells@.len(),
            r.deep_view() == cell_views(cells@.take(i as int)).map_values(|v: CellView| v.0),
        decreases cells@.len() - i,
    {
        push_line(&mut r, cells[i].kind.clone());
        assert(cell_views(cells@.take(i as int + 1)).map_values(|v: CellView| v.0) =~= cell_views(
            cells@.take(i as int),
        ).map_values(|v: CellView| v.0).push(cells@[i as int].kind@));
        i = i + 1;
    }
    assert(cells@.take(cells@.len() as int) =~= cells@);
    r
}

/// The cells of a contract so far: satisfied and missing, each an ordered set.
struct CellSets {
    sat: Vec<ParityCell>,
    mis: Vec<ParityCell>,
}

/// The cells hold exactly the assessed cells `acc`, split by status.
spec fn holds_cells(cs: CellSets, acc: Seq<(CellView, bool)>) -> bool {
    &&& sorted_by(cell_views(cs.sat@), cell_order())
    &&& sorted_by(cell_views(cs.mis@), cell_order())
    &&& cell_views(cs.sat@).to_set() == cells_with(acc, true)
    &&& cell_views(cs.mis@).to_set() == cells_with(acc, false)
}

fn assess_presence(c: &ContractRule, semantic: &SemanticSnapshot, ss: &Vec<ParitySource>) -> (r: (CellSets, Vec<String>, bool, bool))
    ensures
        holds_cells(r.0, presence_cells(*c, *semantic, ss@)),
        r.0.sat@.len() + r.0.mis@.len() <= 5,
        strictly_sorted(r.1.deep_view()),
        r.1.deep_view().to_set() == parity_files(*c, *semantic, ss@),
        r.2 == entry_present(ss@, c.browser_entry),
        r.3 == entry_present(ss@, c.electron_entry),
{
    let ghost syms = semantic.symbols@;
    let mut sat: Vec<ParityCell> = Vec::new();
    let mut mis: Vec<ParityCell> = Vec::new();
    let mut files: Vec<String> = Vec::new();
    let ghost mut acc: Seq<(CellView, bool)> = Seq::empty();
    assert(cell_views(sat@) =~= Seq::<CellView>::empty());
    assert(cell_views(mis@) =~= Seq::<CellView>::empty());
    assert(cell_views(sat@).to_set() =~= Set::<CellView>::empty());
    assert(cell_views(mis@).to_set() =~= Set::<CellView>::empty());
    assert(cells_with(acc, true) =~= Set::<CellView>::empty());
    assert(cells_with(acc, false) =~= Set::<CellView>::empty());
    assert(files.deep_view().to_set() =~= Set::<Text>::empty());
    assert(paths_of(acc) =~= Set::<Text>::empty());
    let ghost p1 = symbol_cell(syms, c.categories_symbol, "categories_symbol"@, "categories symbol declared"@);
    add_symbol_cell(&mut sat, &mut mis, &mut files, &semantic.symbols, &c.categories_symbol, "categories_symbol", "categories symbol declared", Ghost(acc));
    proof {
        lemma_paths_of_append(acc, p1);
        acc = acc + p1;
    }
    let ghost p2 = symbol_cell(syms, c.payload_map_symbol, "payload_map_symbol"@, "payload map symbol declared"@);
    add_symbol_cell(&mut sat, &mut mis, &mut files, &semantic.symbols, &c.payload_map_symbol, "payload_map_symbol", "payload map symbol declared", Ghost(acc));
    proof {
        lemma_paths_of_append(acc, p2);
        acc = acc + p2;
    }
    let ghost p3 = symbol_cell(syms, c.registry_symbol, "registry_symbol"@, "registry symbol declared"@);
    add_symbol_cell(&mut sat, &mut mis, &mut files, &semantic.symbols, &c.registry_symbol, "registry_symbol", "registry symbol declared", Ghost(acc));
    proof {
        lemma_paths_of_append(acc, p3);
        acc = acc + p3;
    }
    let ghost p4 = file_cell(ss@, c.browser_entry, "browser_entry"@, "browser entry present"@);
    let bp = add_file_cell(&mut sat, &mut mis, &mut files, ss, &c.browser_entry, "browser_entry", "browser entry present", Ghost(acc));
    proof {
        lemma_paths_of_append(acc, p4);
        acc = acc + p4;
    }
    let ghost p5 = file_cell(ss@, c.electron_entry, "electron_entry"@, "electron entry present"@);
    let ep = add_file_cell(&mut sat, &mut mis, &mut files, ss, &c.electron_entry, "electron_entry", "electron entry present", Ghost(acc));
    proof {
        lemma_paths_of_append(acc, p5);
        acc = acc + p5;
    }
    assert(acc =~= presence_cells(*c, *semantic, ss@));
    assert(files.deep_view().to_set() =~= parity_files(*c, *semantic, ss@));
    (CellSets { sat, mis }, files, bp, ep)
}

fn assess_runtime(
    cells: CellSets,
    c: &ContractRule,
    ss: &Vec<ParitySource>,
    bp: bool,
    ep: bool,
    bb: bool,
    eb: bool,
    Ghost(acc): Ghost<Seq<(CellView, bool)>>,
) -> (r: CellSets)
    requires
        holds_cells(cells, acc),
        cells.sat@.len() + cells.mis@.len() <= 5,
    ensures
        holds_cells(r, acc + live_cells(*c, bp, ep, bb, eb) + snapshot_cells(*c, bp, ep, bb, eb) + versioning_cells(ss@, *c)),
        r.sat@.len() + r.mis@.len() <= 9,
{
    let CellSets { mut sat, mut mis } = cells;
    let ghost mut acc = acc;
    let ghost start = acc;
    let ghost live = live_cells(*c, bp, ep, bb, eb);
    if texts_contain(&c.required_capabilities, "live_updates") {
        let ghost q1 = if bp {
            binding_cell(c.browser_entry, bb, "browser_live_update_binding"@)
        } else {
            Seq::empty()
        };
        if bp {
            add_binding_cell(&mut sat, &mut mis, &c.browser_entry, bb, "browser_live_update_binding", Ghost(acc));
        } else {
            assert(acc + q1 =~= acc);
        }
        proof {
            acc = acc + q1;
        }
        let ghost q2 = if ep {
            binding_cell(c.electron_entry, eb, "electron_live_update_binding"@)
        } else {
            Seq::empty()
        };
        if ep {
            add_binding_cell(&mut sat, &mut mis, &c.electron_entry, eb, "electron_live_update_binding", Ghost(acc));
        } else {
            assert(acc + q2 =~= acc);
        }
        proof {
            acc = acc + q2;
        }
    }
    assert(acc =~= start + live);
    let ghost snap = snapshot_cells(*c, bp, ep, bb, eb);
    if texts_contain(&c.required_capabilities, "snapshot") && (bp || ep) && !bb && !eb {
        let entry = match &c.browser_entry {
            Some(b) => Some(b),
            None => c.electron_entry.as_ref(),
        };
        match entry {
            Some(p) => {
                let cell = new_cell(
                    "snapshot_without_live_update",
                    false,
                    "snapshot contract exists without any runtime binding".to_string(),
                    Some(p.clone()),
                );
                assert(snap == seq![(cell_view(cell), false)]);
                push_cell(&mut sat, &mut mis, cell, false, Ghost(acc));
                proof {
                    acc = acc.push((cell_view(cell), false));
                }
            },
            None => {},
        }
    }
    assert(acc =~= start + live + snap);
    let ghost ver = versioning_cells(ss@, *c);
    if texts_contain(&c.required_capabilities, "versioning") {
        let paths = contract_rule_paths(c);
        let has = paths_have_version_marker(ss, &paths);
        let detail = if has {
            "version marker present in contract paths".to_string()
        } else {
            "no version marker found in configured contract paths".to_string()
        };
        let first = if paths.len() > 0 {
            Some(paths[0].clone())
        } else {
            None
        };
        let cell = new_cell("versioning", has, detail, first);
        assert(ver == seq![(cell_view(cell), has)]);
        push_cell(&mut sat, &mut mis, cell, has, Ghost(acc));
        proof {
            acc = acc.push((cell_view(cell), has));
        }
    }
    assert(acc =~= start + live + snap + ver);
    CellSets { sat, mis }
}

/// The parity report of a contract (see `is_parity_report`); records the
/// warnings of runtime entries that could not be read.
pub fn build_contract_parity_report(
    config: &RulesConfig,
    c: &ContractRule,
    semantic: &SemanticSnapshot,
    ss: &Vec<ParitySource>,
    warnings: &mut Vec<String>,
) -> (r: ContractParityReport)
    ensures
        is_parity_report(r, *config, *c, *semantic, ss@),
        final(warnings).deep_view() == old(warnings).deep_view() + parity_warnings(*config, *c, *semantic, ss@),
{
    let (cells, files, bp, ep) = assess_presence(c, semantic, ss);
    let names = family_name_list(config, c, semantic);
    let bb = entry_binding(ss, &c.browser_entry, bp, &names, warnings);
    let eb = entry_binding(ss, &c.electron_entry, ep, &names, warnings);
    assert(warnings.deep_view() =~= old(warnings).deep_view() + parity_warnings(*config, *c, *semantic, ss@));
    let cells = assess_runtime(cells, c, ss, bp, ep, bb, eb, Ghost(presence_cells(*c, *semantic, ss@)));
    assert(presence_cells(*c, *semantic, ss@) + live_cells(*c, bp, ep, bb, eb) + snapshot_cells(*c, bp, ep, bb, eb)
        + versioning_cells(ss@, *c) =~= parity_cells(*config, *c, *semantic, ss@));
    let CellSets { sat, mis } = cells;
    proof {
        lemma_cell_order_strict();
        crate::site_set::lemma_sorted_set_by_of(cell_views(sat@), cell_order());
        crate::site_set::lemma_sorted_set_by_of(cell_views(mis@), cell_order());
        crate::grouping::lemma_sorted_set_of(files.deep_view());
    }
    let total = sat.len() + mis.len();
    let score = if total == 0 {
        0
    } else {
        crate::obligations::rounded_ratio_score(sat.len(), total)
    };
    let mut summary = "Contract '".to_string();
    summary.append(c.id.as_str());
    if total == 0 {
        summary.append("' has no assessable parity cells");
    } else if mis.len() == 0 {
        summary.append("' satisfied ");
        let n = crate::text::decimal(sat.len() as u64);
        summary.append(n.as_str());
        summary.append(" parity cells");
    } else {
        summary.append("' is missing parity cells: ");
        let kinds = cell_kinds(&mis);
        let j = crate::text::join_texts(&kinds, ", ");
        summary.append(j.as_str());
    }
    ContractParityReport {
        id: c.id.clone(),
        kind: c.kind.clone(),
        priority: c.priority.clone(),
        files,
        satisfied_cells: sat,
        missing_cells: mis,
        score_0_10000: score,
        summary,
    }
}

impl Ranked for ContractParityReport {
    /// Parity reports are listed by contract id.
    open spec fn ranks_before(self, other: Self) -> bool {
        lex_lt(self.id@, other.id@)
    }

    fn is_ranked_before(&self, other: &Self) -> (r: bool) {
        text_less(self.id.as_str(), other.id.as_str())
    }

    proof fn lemma_ranking_irreflexive(a: Self) {
        lemma_lex_irreflexive(a.id@);
    }

    proof fn lemma_ranking_transitive(a: Self, b: Self, c: Self) {
        lemma_lex_transitive(a.id@, b.id@, c.id@);
    }

    proof fn lemma_ranking_connected(a: Self, b: Self, c: Self) {
        lemma_lex_total(a.id@, b.id@);
        lemma_lex_total(b.id@, c.id@);
        if lex_lt(b.id@, a.id@) && lex_lt(c.id@, b.id@) {
            lemma_lex_transitive(c.id@, b.id@, a.id@);
            lemma_lex_asymmetric(c.id@, a.id@);
        }
        if lex_lt(b.id@, a.id@) && b.id@ == c.id@ {
            lemma_lex_asymmetric(b.id@, a.id@);
        }
        if a.id@ == b.id@ && lex_lt(c.id@, b.id@) {
            lemma_lex_asymmetric(c.id@, b.id@);
        }
    }
}

/// The contracts in scope, in order.
pub open spec fn contracts_in_scope(cs: Seq<ContractRule>, scope: ParityScope, changed: Seq<Text>) -> Seq<ContractRule>
    decreases cs.len(),
{
    if cs.len() == 0 {
        Seq::empty()
    } else {
        let prev = contracts_in_scope(cs.drop_last(), scope, changed);
        if parity_in_scope(cs.last(), scope, changed) {
            prev.push(cs.last())
        } else {
            prev
        }
    }
}

/// The warnings met while assessing the contracts, contract by contract.
pub open spec fn contracts_warnings(
    config: RulesConfig,
    cs: Seq<ContractRule>,
    semantic: SemanticSnapshot,
    ss: Seq<ParitySource>,
) -> Seq<Text>
    decreases cs.len(),
{
    if cs.len() == 0 {
        Seq::empty()
    } else {
        contracts_warnings(config, cs.drop_last(), semantic, ss) + parity_warnings(config, cs.last(), semantic, ss)
    }
}

/// The parity reports of the contracts in scope, listed by id, and the
/// warnings of the runtime entries that could not be read; the files are
/// those of `sources`.
pub fn build_parity_reports(
    config: &RulesConfig,
    semantic: &SemanticSnapshot,
    sources: &Vec<ParitySource>,
    scope: ParityScope,
    changed_files: &Vec<String>,
) -> (r: ParityBuildResult)
    ensures
        ranked_order(r.reports@),
        exists|planned: Seq<ContractParityReport>|
            {
                let kept = contracts_in_scope(config.contract@, scope, changed_files.deep_view());
                &&& planned.len() == kept.len()
                &&& forall|k: int|
                    0 <= k < planned.len() ==> is_parity_report(#[trigger] planned[k], *config, kept[k], *semantic, sources@)
                &&& #[trigger] planned.to_multiset() == r.reports@.to_multiset()
                &&& crate::sorting::keeps_ties_in_order(r.reports@, planned)
            },
        r.read_warnings.deep_view() == contracts_warnings(
            *config,
            contracts_in_scope(config.contract@, scope, changed_files.deep_view()),
            *semantic,
            sources@,
        ),
{
    let ghost cs = config.contract@;
    let ghost ch = changed_files.deep_view();
    let mut reports: Vec<ContractParityReport> = Vec::new();
    let mut warnings: Vec<String> = Vec::new();
    let mut i: usize = 0;
    assert(warnings.deep_view() =~= Seq::<Text>::empty());
    while i < config.contract.len()
        invariant
            i <= cs.len(),
            cs == config.contract@,
            ch == changed_files.deep_view(),
            reports@.len() == contracts_in_scope(cs.take(i as int), scope, ch).len(),
            forall|k: int|
                0 <= k < reports@.len() ==> is_parity_report(
                    #[trigger] reports@[k],
                    *config,
                    contracts_in_scope(cs.take(i as int), scope, ch)[k],
                    *semantic,
                    sources@,
                ),
            warnings.deep_view() == contracts_warnings(*config, contracts_in_scope(cs.take(i as int), scope, ch), *semantic, sources@),
        decreases cs.len() - i,
    {
        let c = &config.contract[i];
        assert(cs.take(i as int + 1).drop_last() =~= cs.take(i as int));
        assert(cs.take(i as int + 1).last() == *c);
        let ghost kept = contracts_in_scope(cs.take(i as int), scope, ch);
        if contract_in_scope(c, scope, changed_files) {
            let report = build_contract_parity_report(config, c, semantic, sources, &mut warnings);
            let ghost before = reports@;
            reports.push(report);
            assert(contracts_in_scope(cs.take(i as int + 1), scope, ch) == kept.push(*c));
            assert(kept.push(*c).drop_last() =~= kept);
            assert(kept.push(*c).last() == *c);
            assert forall|k: int| 0 <= k < reports@.len() implies is_parity_report(
                #[trigger] reports@[k],
                *config,
                kept.push(*c)[k],
                *semantic,
                sources@,
            ) by {
                if k < before.len() {
                    assert(reports@[k] == before[k]);
                    assert(kept.push(*c)[k] == kept[k]);
                }
            }
        }
        i = i + 1;
    }
    assert(cs.take(cs.len() as int) =~= cs);
    let ghost planned = reports@;
    let sorted = sort_ranked(reports);
    assert(planned.to_multiset() == sorted@.to_multiset());
    ParityBuildResult { reports: sorted, read_warnings: warnings }
}

} // verus!
