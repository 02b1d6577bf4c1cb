//! Semantic facts about a project and the concept rules that govern them:
//! which symbols are read and written where, and how a rule's scoped
//! patterns (`path::symbol`) select those facts.
use crate::paths::is_test_path;
use crate::text::Text;
use vstd::prelude::*;

verus! {

/// A read of a symbol at a source location.
pub struct ReadFact {
    pub path: String,
    pub symbol_name: String,
    pub read_kind: String,
    pub line: usize,
}

/// A write of a symbol at a source location.
pub struct WriteFact {
    pub path: String,
    pub symbol_name: String,
    pub write_kind: String,
    pub line: usize,
}

/// A closed domain: a union of named variants declared at a source location.
pub struct ClosedDomain {
    pub path: String,
    pub symbol_name: String,
    pub variants: Vec<String>,
    pub line: u32,
    pub defining_file: Option<String>,
}

/// The construct that handles the variants of a closed domain.
#[derive(Debug, Clone, Copy, PartialEq, Eq, Structural)]
pub enum ExhaustivenessSiteKind {
    Switch,
    Other,
}

/// How a site proves that it handles every variant.
#[derive(Debug, Clone, Copy, PartialEq, Eq, Structural)]
pub enum ExhaustivenessProofKind {
    Switch,
    AssertNever,
    Other,
}

/// A place that handles the variants of a closed domain.
pub struct ExhaustivenessSite {
    pub path: String,
    pub domain_symbol_name: String,
    pub defining_file: Option<String>,
    pub site_kind: ExhaustivenessSiteKind,
    pub proof_kind: ExhaustivenessProofKind,
    pub covered_variants: Vec<String>,
    pub line: u32,
}

/// How a transition is written.
#[derive(Debug, Clone, Copy, PartialEq, Eq, Structural)]
pub enum TransitionKind {
    SwitchCase,
    Other,
}

/// A branch that moves a closed domain from a source variant to targets;
/// branches of one construct share a group id.
pub struct TransitionSite {
    pub path: String,
    pub domain_symbol_name: String,
    pub group_id: String,
    pub transition_kind: TransitionKind,
    pub source_variant: Option<String>,
    pub target_variants: Vec<String>,
    pub line: usize,
}

/// A declared symbol: where it stands, its name and kind, and its line.
pub struct SymbolFact {
    pub id: String,
    pub path: String,
    pub name: String,
    pub kind: String,
    pub line: u32,
}

/// A file that the semantic analysis read.
pub struct SemanticFileFact {
    pub path: String,
}

/// A kind of fact that the semantic analysis can extract.
#[derive(Debug, Clone, Copy, PartialEq, Eq, Structural)]
pub enum SemanticCapability {
    Symbols,
    Reads,
    Writes,
    ClosedDomains,
    ClosedDomainSites,
    TransitionSites,
}

/// The semantic facts found in a project: reads and writes of symbols,
/// closed domains with the sites that handle them, transition sites, and
/// which kinds of fact were extracted at all.
pub struct SemanticSnapshot {
    pub capabilities: Vec<SemanticCapability>,
    pub files: Vec<SemanticFileFact>,
    pub symbols: Vec<SymbolFact>,
    pub reads: Vec<ReadFact>,
    pub writes: Vec<WriteFact>,
    pub closed_domains: Vec<ClosedDomain>,
    pub closed_domain_sites: Vec<ExhaustivenessSite>,
    pub transition_sites: Vec<TransitionSite>,
}

/// A configured state model: the files (globs) that hold its state machine
/// and which exhaustiveness proofs it demands.
pub struct StateModelRule {
    pub id: String,
    pub kind: String,
    pub roots: Vec<String>,
    pub require_exhaustive_switch: bool,
    pub require_assert_never: bool,
}

/// A configured concept: the state it names (`anchors`, as `path::symbol`),
/// the inputs it is derived from, and who may write or read it raw.
pub struct ConceptRule {
    pub id: String,
    pub kind: String,
    pub priority: Option<String>,
    pub anchors: Vec<String>,
    pub authoritative_inputs: Vec<String>,
    pub allowed_writers: Vec<String>,
    pub forbid_writers: Vec<String>,
    pub forbid_raw_reads: Vec<String>,
    pub canonical_accessors: Vec<String>,
    pub related_tests: Vec<String>,
}

/// `s` holds `::` at position `i`.
pub open spec fn scope_at(s: Text, i: int) -> bool {
    0 <= i && i + 1 < s.len() && s[i] == ':' && s[i + 1] == ':'
}

/// A configured contract: the surfaces (scoped symbols and files) that must
/// change together, and the symbols and files whose change triggers it.
pub struct ContractRule {
    pub id: String,
    pub kind: String,
    pub priority: Option<String>,
    pub categories_symbol: Option<String>,
    pub payload_map_symbol: Option<String>,
    pub registry_symbol: Option<String>,
    pub browser_entry: Option<String>,
    pub electron_entry: Option<String>,
    pub required_capabilities: Vec<String>,
    pub required_symbols: Vec<String>,
    pub required_files: Vec<String>,
    pub trigger_symbols: Vec<String>,
    pub trigger_files: Vec<String>,
}

/// The configured rules: the concepts, the contracts, the module contracts
/// and the state models.
pub struct RulesConfig {
    pub concept: Vec<ConceptRule>,
    pub contract: Vec<ContractRule>,
    pub module_contract: Vec<crate::boundary::ModuleContractRule>,
    pub state_model: Vec<StateModelRule>,
}

/// The first position at or after `i` where `s` holds `::`.
pub open spec fn first_scope_from(s: Text, i: int) -> Option<int>
    decreases s.len() - i,
{
    if i < 0 || i + 2 > s.len() {
        None
    } else if scope_at(s, i) {
        Some(i)
    } else {
        first_scope_from(s, i + 1)
    }
}

/// The position of the first `::` in `s`.
pub open spec fn scope_split(s: Text) -> Option<int> {
    first_scope_from(s, 0)
}

/// The symbol part of a scoped value `path::symbol`: what follows the first `::`.
pub open spec fn scoped_symbol(value: Text) -> Option<Text> {
    match scope_split(value) {
        Some(i) => Some(value.skip(i + 2)),
        None => None,
    }
}

/// The path part of a scoped value: what precedes the first `::`, or the
/// whole value when it has none.
pub open spec fn scoped_path(value: Text) -> Text {
    match scope_split(value) {
        Some(i) => value.take(i),
        None => value,
    }
}

/// The position of the first `::` in `v` at or after `i`.
fn find_scope_from(v: &Vec<char>, i: usize) -> (r: Option<usize>)
    requires
        i <= v@.len(),
    ensures
        match r {
            Some(k) => first_scope_from(v@, i as int) == Some(k as int) && k + 2 <= v@.len(),
            None => first_scope_from(v@, i as int) is None,
        },
    decreases v@.len() - i,
{
    if v.len() - i < 2 {
        return None;
    }
    if v[i] == ':' && v[i + 1] == ':' {
        return Some(i);
    }
    find_scope_from(v, i + 1)
}

/// The symbol of a scoped value (`path::symbol`), if it has one.
pub fn symbol_from_scoped_path(value: &str) -> (r: Option<String>)
    ensures
        match r {
            Some(sym) => scoped_symbol(value@) == Some(sym@),
            None => scoped_symbol(value@) is None,
        },
{
    let v = crate::text::chars_of(value);
    let n = v.len();
    match find_scope_from(&v, 0) {
        Some(k) => {
            Some(crate::paths::slice_text(&v, k + 2, n))
        },
        None => None,
    }
}

/// The path part of a scoped value (see `scoped_path`).
pub fn path_from_scoped_value(value: &str) -> (r: String)
    ensures
        r@ == scoped_path(value@),
{
    let v = crate::text::chars_of(value);
    match find_scope_from(&v, 0) {
        Some(k) => {
            crate::paths::slice_text(&v, 0, k)
        },
        None => crate::text::copy_text(value),
    }
}

/// Whether the path glob `p` matches all of `s`: `**` matches any run of
/// characters, and `**/` also matches nothing at all; `*` matches a run of
/// characters without `/`; `?` one character other than `/`; any other
/// character matches itself.
pub open spec fn glob_matches(p: Text, s: Text) -> bool
    decreases p.len() + s.len(),
{
    if p.len() == 0 {
        s.len() == 0
    } else if p.len() >= 2 && p[0] == '*' && p[1] == '*' {
        ||| glob_matches(p.skip(2), s)
        ||| (p.len() >= 3 && p[2] == '/' && glob_matches(p.skip(3), s))
        ||| (s.len() > 0 && glob_matches(p, s.skip(1)))
    } else if p[0] == '*' {
        ||| glob_matches(p.skip(1), s)
        ||| (s.len() > 0 && s[0] != '/' && glob_matches(p, s.skip(1)))
    } else if p[0] == '?' {
        s.len() > 0 && s[0] != '/' && glob_matches(p.skip(1), s.skip(1))
    } else {
        s.len() > 0 && s[0] == p[0] && glob_matches(p.skip(1), s.skip(1))
    }
}

fn glob_from(p: &Vec<char>, pi: usize, s: &Vec<char>, si: usize) -> (r: bool)
    requires
        pi <= p@.len(),
        si <= s@.len(),
    ensures
        r == glob_matches(p@.skip(pi as int), s@.skip(si as int)),
    decreases (p@.len() - pi) + (s@.len() - si),
{
    let ghost ps = p@.skip(pi as int);
    let ghost ss = s@.skip(si as int);
    let plen = p.len();
    let slen = s.len();
    if pi == plen {
        return si == slen;
    }
    assert(ps[0] == p@[pi as int]);
    assert(si < slen ==> ss[0] == s@[si as int]);
    assert(si < slen ==> ss.skip(1) =~= s@.skip(si + 1));
    assert(ps.skip(1) =~= p@.skip(pi + 1));
    if plen - pi >= 2 && p[pi] == '*' && p[pi + 1] == '*' {
        assert(ps[1] == p@[pi + 1]);
        assert(ps.skip(2) =~= p@.skip(pi + 2));
        if glob_from(p, pi + 2, s, si) {
            return true;
        }
        if plen - pi >= 3 && p[pi + 2] == '/' {
            assert(ps[2] == p@[pi + 2]);
            assert(ps.skip(3) =~= p@.skip(pi + 3));
            if glob_from(p, pi + 3, s, si) {
                return true;
            }
        } else {
            assert(!(ps.len() >= 3 && ps[2] == '/')) by {
                if ps.len() >= 3 {
                    assert(ps[2] == p@[pi + 2]);
                }
            }
        }
        return si < slen && glob_from(p, pi, s, si + 1);
    }
    if p[pi] == '*' {
        assert(!(ps.len() >= 2 && ps[0] == '*' && ps[1] == '*')) by {
            if ps.len() >= 2 {
                assert(ps[1] == p@[pi + 1]);
            }
        }
        if glob_from(p, pi + 1, s, si) {
            return true;
        }
        return si < slen && s[si] != '/' && glob_from(p, pi, s, si + 1);
    }
    if p[pi] == '?' {
        return si < slen && s[si] != '/' && glob_from(p, pi + 1, s, si + 1);
    }
    si < slen && s[si] == p[pi] && glob_from(p, pi + 1, s, si + 1)
}

/// Whether the path glob `pattern` matches all of `path` (see `glob_matches`).
pub fn glob_match(pattern: &str, path: &str) -> (r: bool)
    ensures
        r == glob_matches(pattern@, path@),
{
    let p = crate::text::chars_of(pattern);
    let s = crate::text::chars_of(path);
    assert(p@.skip(0) =~= p@);
    assert(s@.skip(0) =~= s@);
    glob_from(&p, 0, &s, 0)
}

} // verus!
