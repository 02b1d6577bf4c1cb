//! The facts the structural reports know about each analysed file, and the
//! role tags a file's context adds to them.
use crate::order::texts_contain;
use crate::paths::{file_name_of, is_test_file, is_test_path};
use crate::snapshot::{FileNode, Snapshot};
use crate::structural::graph::{edge_view, fact_index, find_facts, sources, sources_of};
use crate::structural::roles::{
    api_route_path, entry_surface_path, is_api_route_surface, is_entry_surface_path, is_route_surface,
    is_transport_facade, path_role_tags, path_roles_of, route_path, sw, transport_facade_path,
};
use crate::structural::utils::{dedupe, dedupe_strings_preserve_order, has_role_tag, has_tag};
use crate::structural::FileFacts;
use crate::text::{contains, contains_text, push_line, starts_with, text_eq, Text};
use vstd::prelude::*;

verus! {

/// What the architecture guardrail tests of a project say about one file.
pub struct GuardrailFileEvidence {
    pub path: String,
    pub tests: Vec<String>,
    pub required_literals: Vec<String>,
    pub forbidden_literals: Vec<String>,
    pub facade_owner_factories: Vec<String>,
    pub boundary_guard_literals: Vec<String>,
}

/// The complexity of a function: the larger of its cyclomatic and cognitive
/// complexity, zero where unknown.
pub open spec fn function_complexity(f: crate::snapshot::FunctionFacts) -> u32 {
    let cc: u32 = match f.cc {
        Some(c) => c,
        None => 0,
    };
    let cog: u32 = match f.cog {
        Some(c) => c,
        None => 0,
    };
    if cc > cog { cc } else { cog }
}

/// The largest complexity among the functions; zero when there are none.
pub open spec fn max_complexity_of(fs: Seq<crate::snapshot::FunctionFacts>) -> u32
    decreases fs.len(),
{
    if fs.len() == 0 {
        0
    } else {
        let prev = max_complexity_of(fs.drop_last());
        let c = function_complexity(fs.last());
        if c > prev { c } else { prev }
    }
}

/// The number of public functions.
pub open spec fn public_count_of(fs: Seq<crate::snapshot::FunctionFacts>) -> nat
    decreases fs.len(),
{
    if fs.len() == 0 {
        0
    } else {
        public_count_of(fs.drop_last()) + if fs.last().is_public { 1nat } else { 0 }
    }
}

fn function_measures(fs: &Vec<crate::snapshot::FunctionFacts>) -> (r: (u32, usize))
    ensures
        r.0 == max_complexity_of(fs@),
        r.1 == public_count_of(fs@),
{
    let mut max: u32 = 0;
    let mut public: usize = 0;
    let mut i: usize = 0;
    while i < fs.len()
        invariant
            i <= fs@.len(),
            max == max_complexity_of(fs@.take(i as int)),
            public == public_count_of(fs@.take(i as int)),
            public <= i,
        decreases fs@.len() - i,
    {
        assert(fs@.take(i + 1).drop_last() =~= fs@.take(i as int));
        let f = fs[i];
        let cc: u32 = match f.cc {
            Some(c) => c,
            None => 0,
        };
        let cog: u32 = match f.cog {
            Some(c) => c,
            None => 0,
        };
        let c = if cc > cog {
            cc
        } else {
            cog
        };
        if c > max {
            max = c;
        }
        if f.is_public {
            public = public + 1;
        }
        i = i + 1;
    }
    assert(fs@.take(fs@.len() as int) =~= fs@);
    (max, public)
}

/// An index file of a JavaScript or TypeScript package, a Python package's
/// `__init__.py`, or a Rust `mod.rs`.
pub open spec fn is_package_index_path(p: Text) -> bool {
    let name = file_name_of(p);
    ||| name == "index.ts"@
    ||| name == "index.tsx"@
    ||| name == "index.js"@
    ||| name == "index.jsx"@
    ||| name == "index.mjs"@
    ||| name == "index.cjs"@
    ||| name == "__init__.py"@
    ||| name == "mod.rs"@
}

fn package_index_path(p: &str) -> (r: bool)
    ensures
        r == is_package_index_path(p@),
{
    let name = crate::paths::file_name(p);
    let n = name.as_str();
    text_eq(n, "index.ts") || text_eq(n, "index.tsx") || text_eq(n, "index.js") || text_eq(n, "index.jsx")
        || text_eq(n, "index.mjs") || text_eq(n, "index.cjs") || text_eq(n, "__init__.py") || text_eq(n, "mod.rs")
}

/// Some tag holds `test`.
pub open spec fn has_test_tag(tags: Seq<Text>) -> bool {
    exists|i: int| 0 <= i < tags.len() && contains_text(#[trigger] tags[i], "test"@)
}

fn any_test_tag(tags: &Vec<String>) -> (r: bool)
    ensures
        r == has_test_tag(tags.deep_view()),
{
    let mut i: usize = 0;
    while i < tags.len()
        invariant
            i <= tags@.len(),
            forall|k: int| 0 <= k < i ==> !contains_text(#[trigger] tags.deep_view()[k], "test"@),
        decreases tags@.len() - i,
    {
        if contains(tags[i].as_str(), "test") {
            assert(contains_text(tags.deep_view()[i as int], "test"@));
            return true;
        }
        i = i + 1;
    }
    false
}

/// The role tags of a file before its graph context is known.
pub open spec fn base_roles_of(path: Text, is_entry_surface: bool, evidence: Option<GuardrailFileEvidence>) -> Seq<Text> {
    let t0: Seq<Text> = if is_entry_surface { seq!["entry_surface"@] } else { Seq::empty() };
    let t1 = match evidence {
        Some(e) => {
            let a = if e.tests@.len() > 0 { t0.push("guarded_seam"@) } else { t0 };
            let b = if e.facade_owner_factories@.len() >= 2 { a.push("facade_with_extracted_owners"@) } else { a };
            if e.boundary_guard_literals@.len() > 0 { b.push("guarded_boundary"@) } else { b }
        },
        None => t0,
    };
    let t2 = if contains_text(path, "store/store."@) && t1.contains("guarded_boundary"@) {
        t1.push("component_barrel"@)
    } else {
        t1
    };
    dedupe(t2 + path_roles_of(path))
}

/// The functions of a file.
pub open spec fn functions_of(f: FileNode) -> Seq<crate::snapshot::FunctionFacts> {
    match f.functions {
        Some(v) => v@,
        None => Seq::empty(),
    }
}

/// The analysis tags of a file.
pub open spec fn tags_of(f: FileNode) -> Seq<Text> {
    match f.tags {
        Some(v) => v.deep_view(),
        None => Seq::empty(),
    }
}

/// `facts` describes file `f` with the given entry flag and guardrail evidence.
pub open spec fn describes_file(facts: FileFacts, f: FileNode, is_entry_surface: bool, evidence: Option<GuardrailFileEvidence>) -> bool {
    &&& facts.path@ == f.path@
    &&& facts.lang@ == f.lang@
    &&& facts.lines == f.lines as usize
    &&& facts.function_count == f.funcs
    &&& facts.max_complexity == max_complexity_of(functions_of(f))
    &&& facts.is_test == (has_test_tag(tags_of(f)) || is_test_path(f.path@))
    &&& facts.is_package_index == is_package_index_path(f.path@)
    &&& facts.has_entry_tag == tags_of(f).contains("entry"@)
    &&& facts.public_function_count == public_count_of(functions_of(f))
    &&& facts.role_tags.deep_view() == base_roles_of(f.path@, is_entry_surface, evidence)
    &&& facts.guardrail_tests.deep_view() == (match evidence {
        Some(e) => e.tests.deep_view(),
        None => Seq::empty(),
    })
    &&& facts.facade_owner_factories.deep_view() == (match evidence {
        Some(e) => e.facade_owner_factories.deep_view(),
        None => Seq::empty(),
    })
    &&& facts.boundary_guard_literals.deep_view() == (match evidence {
        Some(e) => e.boundary_guard_literals.deep_view(),
        None => Seq::empty(),
    })
}

fn copy_list(v: &Vec<String>) -> (r: Vec<String>)
    ensures
        r.deep_view() == v.deep_view(),
{
    let r = crate::clone_groups::copy_strings(v);
    assert(r.deep_view() =~= v.deep_view());
    r
}

pub fn append_all(dst: &mut Vec<String>, src: &Vec<String>)
    ensures
        final(dst).deep_view() == old(dst).deep_view() + src.deep_view(),
{
    let ghost start = dst.deep_view();
    let mut i: usize = 0;
    while i < src.len()
        invariant
            i <= src@.len(),
            dst.deep_view() == start + src.deep_view().take(i as int),
        decreases src@.len() - i,
    {
        push_line(dst, src[i].clone());
        i = i + 1;
        assert(dst.deep_view() =~= start + src.deep_view().take(i as int));
    }
    assert(src.deep_view().take(src@.len() as int) =~= src.deep_view());
}

/// The facts of one file (see `describes_file`).
pub fn file_facts(f: &FileNode, is_entry_surface: bool, evidence: Option<&GuardrailFileEvidence>) -> (r: FileFacts)
    ensures
        describes_file(
            r,
            *f,
            is_entry_surface,
            match evidence {
                Some(e) => Some(*e),
                None => None,
            },
        ),
{
    let ghost ev = match evidence {
        Some(e) => Some(*e),
        None => None,
    };
    let (max_complexity, public_function_count) = match &f.functions {
        Some(fs) => function_measures(fs),
        None => (0, 0),
    };
    let (is_tagged_test, has_entry_tag) = match &f.tags {
        Some(tags) => (any_test_tag(tags), texts_contain(tags, "entry")),
        None => (false, false),
    };
    let mut role_tags: Vec<String> = Vec::new();
    let ghost mut expected: Seq<Text> = Seq::empty();
    if is_entry_surface {
        push_line(&mut role_tags, "entry_surface".to_string());
        proof { expected = expected.push("entry_surface"@); }
    }
    let mut tests: Vec<String> = Vec::new();
    let mut factories: Vec<String> = Vec::new();
    let mut literals: Vec<String> = Vec::new();
    match evidence {
        Some(e) => {
            if e.tests.len() > 0 {
                push_line(&mut role_tags, "guarded_seam".to_string());
                proof { expected = expected.push("guarded_seam"@); }
            }
            if e.facade_owner_factories.len() >= 2 {
                push_line(&mut role_tags, "facade_with_extracted_owners".to_string());
                proof { expected = expected.push("facade_with_extracted_owners"@); }
            }
            if e.boundary_guard_literals.len() > 0 {
                push_line(&mut role_tags, "guarded_boundary".to_string());
                proof { expected = expected.push("guarded_boundary"@); }
            }
            tests = copy_list(&e.tests);
            factories = copy_list(&e.facade_owner_factories);
            literals = copy_list(&e.boundary_guard_literals);
        },
        None => {},
    }
    assert(role_tags.deep_view() =~= expected);
    if contains(f.path.as_str(), "store/store.") && has_role_tag(&role_tags, "guarded_boundary") {
        push_line(&mut role_tags, "component_barrel".to_string());
    }
    let path_tags = path_role_tags(f.path.as_str());
    append_all(&mut role_tags, &path_tags);
    let deduped = dedupe_strings_preserve_order(&role_tags);
    let is_test = is_tagged_test || is_test_file(f.path.as_str());
    let facts = FileFacts {
        path: f.path.clone(),
        lang: f.lang.clone(),
        lines: f.lines as usize,
        function_count: f.funcs,
        max_complexity,
        is_test,
        is_package_index: package_index_path(f.path.as_str()),
        has_entry_tag,
        public_function_count,
        role_tags: deduped,
        guardrail_tests: tests,
        facade_owner_factories: factories,
        boundary_guard_literals: literals,
    };
    assert(tests.deep_view() =~= (match ev {
        Some(e) => e.tests.deep_view(),
        None => Seq::<Text>::empty(),
    }));
    assert(factories.deep_view() =~= (match ev {
        Some(e) => e.facade_owner_factories.deep_view(),
        None => Seq::<Text>::empty(),
    }));
    assert(literals.deep_view() =~= (match ev {
        Some(e) => e.boundary_guard_literals.deep_view(),
        None => Seq::<Text>::empty(),
    }));
    facts
}

/// Some source of an import of `path` is an analysed entry surface, is tagged
/// as an entry, or looks like one by its path.
pub open spec fn imported_by_entry(facts: Seq<FileFacts>, imports: Seq<(Text, Text)>, path: Text) -> bool {
    exists|s: Text|
        #[trigger] sources_of(imports, path).contains(s) && (is_entry_surface_path(s) || match fact_index(facts, s) {
            Some(i) => facts[i].role_tags.deep_view().contains("entry_surface"@) || facts[i].has_entry_tag,
            None => false,
        })
}

/// A file's role tags in its graph context: its own tags, `transport_facade`
/// for IPC bridges, and `composition_root` for source files imported by an
/// entry surface (other than framework routes).
pub open spec fn contextual_roles_of(path: Text, own: Seq<Text>, facts: Seq<FileFacts>, imports: Seq<(Text, Text)>) -> Seq<Text> {
    let t0 = if is_transport_facade(path) { own.push("transport_facade"@) } else { own };
    let t1 = if imported_by_entry(facts, imports, path) && sw(path, "src/"@) && !is_api_route_surface(path)
        && !is_route_surface(path) {
        t0.push("composition_root"@)
    } else {
        t0
    };
    dedupe(t1)
}

fn entry_like_source(facts: &Vec<FileFacts>, s: &str) -> (r: bool)
    ensures
        r == (is_entry_surface_path(s@) || match fact_index(facts@, s@) {
            Some(i) => facts@[i].role_tags.deep_view().contains("entry_surface"@) || facts@[i].has_entry_tag,
            None => false,
        }),
{
    if entry_surface_path(s) {
        return true;
    }
    match find_facts(facts, s) {
        Some(i) => has_role_tag(&facts[i].role_tags, "entry_surface") || facts[i].has_entry_tag,
        None => false,
    }
}

/// A file's role tags in its graph context (see `contextual_roles_of`).
pub fn contextual_role_tags(path: &str, own: &Vec<String>, facts: &Vec<FileFacts>, import_edges: &Vec<(String, String)>) -> (r:
    Vec<String>)
    ensures
        r.deep_view() == contextual_roles_of(path@, own.deep_view(), facts@, edge_view(import_edges@)),
{
    let mut tags = copy_list(own);
    if transport_facade_path(path) {
        push_line(&mut tags, "transport_facade".to_string());
    }
    let srcs = sources(import_edges, path);
    let mut imported = false;
    let mut i: usize = 0;
    while i < srcs.len()
        invariant
            i <= srcs@.len(),
            imported ==> imported_by_entry(facts@, edge_view(import_edges@), path@),
            !imported ==> forall|k: int| 0 <= k < i ==> !(is_entry_surface_path(#[trigger] srcs.deep_view()[k]) || match fact_index(facts@, srcs.deep_view()[k]) {
                Some(j) => facts@[j].role_tags.deep_view().contains("entry_surface"@) || facts@[j].has_entry_tag,
                None => false,
            }),
            srcs.deep_view().to_set() == sources_of(edge_view(import_edges@), path@),
        decreases srcs@.len() - i,
    {
        if !imported && entry_like_source(facts, srcs[i].as_str()) {
            imported = true;
            assert(srcs.deep_view().to_set().contains(srcs.deep_view()[i as int]));
        }
        i = i + 1;
    }
    proof {
        if !imported {
            assert forall|s: Text| #[trigger] sources_of(edge_view(import_edges@), path@).contains(s) implies !(is_entry_surface_path(s) || match fact_index(facts@, s) {
                Some(j) => facts@[j].role_tags.deep_view().contains("entry_surface"@) || facts@[j].has_entry_tag,
                None => false,
            }) by {
                assert(srcs.deep_view().to_set().contains(s));
                let k = choose|k: int| 0 <= k < srcs.deep_view().len() && srcs.deep_view()[k] == s;
            }
        }
    }
    if imported && starts_with(path, "src/") && !api_route_path(path) && !route_path(path) {
        push_line(&mut tags, "composition_root".to_string());
    }
    dedupe_strings_preserve_order(&tags)
}

/// A file the structural reports analyse: one with a known language.
pub open spec fn is_analysed(f: FileNode) -> bool {
    f.lang@.len() > 0 && f.lang@ != "unknown"@
}

/// Entry `k` is the last analysed entry of the scan with its path.
pub open spec fn last_analysed_at(files: Seq<FileNode>, k: int) -> bool {
    &&& 0 <= k < files.len()
    &&& is_analysed(files[k])
    &&& forall|m: int| k < m < files.len() && is_analysed(#[trigger] files[m]) ==> files[m].path@ != files[k].path@
}

/// Some entry point of the snapshot lies in file `p`.
pub open spec fn is_entry_path(snapshot: Snapshot, p: Text) -> bool {
    exists|i: int| 0 <= i < snapshot.entry_points@.len() && (#[trigger] snapshot.entry_points@[i]).file@ == p
}

/// The last guardrail evidence listed for path `p`, if any.
pub open spec fn evidence_of(gs: Seq<GuardrailFileEvidence>, p: Text) -> Option<GuardrailFileEvidence>
    decreases gs.len(),
{
    if gs.len() == 0 {
        None
    } else if gs.last().path@ == p {
        Some(gs.last())
    } else {
        evidence_of(gs.drop_last(), p)
    }
}

/// `facts` are the facts of entry `k` of the scan, the last analysed entry
/// with its path.
pub open spec fn facts_of_entry(facts: FileFacts, snapshot: Snapshot, gs: Seq<GuardrailFileEvidence>, k: int) -> bool {
    &&& last_analysed_at(snapshot.files@, k)
    &&& describes_file(
        facts,
        snapshot.files@[k],
        is_entry_path(snapshot, snapshot.files@[k].path@),
        evidence_of(gs, snapshot.files@[k].path@),
    )
}

/// `facts` are the facts of some entry of the scan (see `facts_of_entry`).
pub open spec fn facts_of_some_entry(facts: FileFacts, snapshot: Snapshot, gs: Seq<GuardrailFileEvidence>) -> bool {
    exists|k: int| #[trigger] facts_of_entry(facts, snapshot, gs, k)
}

/// The facts carry exactly the analysed files of the snapshot, each path
/// once, each from its last analysed entry.
pub open spec fn facts_of_snapshot(r: Seq<FileFacts>, snapshot: Snapshot, gs: Seq<GuardrailFileEvidence>) -> bool {
    &&& forall|i: int| 0 <= i < r.len() ==> facts_of_some_entry(#[trigger] r[i], snapshot, gs)
    &&& forall|k: int|
        0 <= k < snapshot.files@.len() && is_analysed(#[trigger] snapshot.files@[k]) ==> exists|i: int|
            #![trigger r[i]] 0 <= i < r.len() && r[i].path@ == snapshot.files@[k].path@
}

proof fn lemma_sorted_facts(facts: Seq<FileFacts>, r: Seq<FileFacts>, snapshot: Snapshot, gs: Seq<GuardrailFileEvidence>)
    requires
        facts_of_snapshot(facts, snapshot, gs),
        forall|a: int, b: int| 0 <= a < b < facts.len() ==> (#[trigger] facts[a]).path@ != (#[trigger] facts[b]).path@,
        r.to_multiset() == facts.to_multiset(),
        crate::sorting::ranked_order(r),
    ensures
        facts_of_snapshot(r, snapshot, gs),
        forall|a: int, b: int| 0 <= a < b < r.len() ==> crate::order::lex_lt((#[trigger] r[a]).path@, (#[trigger] r[b]).path@),
{
    broadcast use vstd::seq_lib::to_multiset_contains;

    assert(facts.no_duplicates()) by {
        assert forall|i: int, j: int| 0 <= i < facts.len() && 0 <= j < facts.len() && i != j implies facts[i]
            != facts[j] by {
            if i < j {
                assert(facts[i].path@ != facts[j].path@);
            } else {
                assert(facts[j].path@ != facts[i].path@);
            }
        }
    }
    facts.lemma_multiset_has_no_duplicates();
    r.lemma_multiset_has_no_duplicates_conv();
    assert forall|i: int| 0 <= i < r.len() implies facts.contains(#[trigger] r[i]) by {
        assert(r.to_multiset().count(r[i]) > 0);
    }
    assert forall|i: int| 0 <= i < r.len() implies facts_of_some_entry(#[trigger] r[i], snapshot, gs) by {
        assert(facts.contains(r[i]));
        let a = choose|a: int| 0 <= a < facts.len() && facts[a] == r[i];
        assert(facts_of_some_entry(facts[a], snapshot, gs));
        let k = choose|k: int| #[trigger] facts_of_entry(facts[a], snapshot, gs, k);
        assert(facts_of_entry(r[i], snapshot, gs, k));
    }
    assert forall|k: int| 0 <= k < snapshot.files@.len() && is_analysed(#[trigger] snapshot.files@[k]) implies exists|i: int|
        #![trigger r[i]] 0 <= i < r.len() && r[i].path@ == snapshot.files@[k].path@ by {
        let a = choose|a: int| 0 <= a < facts.len() && facts[a].path@ == snapshot.files@[k].path@;
        assert(facts.contains(facts[a]));
        assert(r.to_multiset().count(facts[a]) > 0);
        assert(r.contains(facts[a]));
    }
    assert forall|a: int, b: int| 0 <= a < b < r.len() implies crate::order::lex_lt((#[trigger] r[a]).path@, (#[trigger] r[b]).path@) by {
        assert(facts.contains(r[a]) && facts.contains(r[b]));
        let x = choose|x: int| 0 <= x < facts.len() && facts[x] == r[a];
        let y = choose|y: int| 0 <= y < facts.len() && facts[y] == r[b];
        assert(r[a] != r[b]);
        if r[a].path@ == r[b].path@ {
            if x < y {
                assert(facts[x].path@ != facts[y].path@);
            } else if y < x {
                assert(facts[y].path@ != facts[x].path@);
            }
        }
        assert(!crate::sorting::Ranked::ranks_before(r[b], r[a]));
        crate::order::lemma_lex_total(r[a].path@, r[b].path@);
    }
}

/// The facts of every analysed file (a file with a known language), in path
/// order; where a path is listed twice, its last entry counts.
pub fn build_file_facts(snapshot: &Snapshot, guardrails: &Vec<GuardrailFileEvidence>) -> (r: Vec<FileFacts>)
    ensures
        crate::sorting::ranked_order(r@),
        r@.len() <= snapshot.files@.len(),
        facts_of_snapshot(r@, *snapshot, guardrails@),
        forall|a: int, b: int| 0 <= a < b < r@.len() ==> crate::order::lex_lt((#[trigger] r@[a]).path@, (#[trigger] r@[b]).path@),
{
    let ghost files = snapshot.files@;
    let mut entry_paths: Vec<String> = Vec::new();
    let mut i: usize = 0;
    while i < snapshot.entry_points.len()
        invariant
            i <= snapshot.entry_points@.len(),
            entry_paths@.len() == i,
            forall|j: int| 0 <= j < i ==> (#[trigger] entry_paths@[j])@ == snapshot.entry_points@[j].file@,
        decreases snapshot.entry_points@.len() - i,
    {
        entry_paths.push(snapshot.entry_points[i].file.clone());
        i = i + 1;
    }
    assert forall|p: Text| entry_paths.deep_view().contains(p) == is_entry_path(*snapshot, p) by {
        if entry_paths.deep_view().contains(p) {
            let j = choose|j: int| 0 <= j < entry_paths.deep_view().len() && entry_paths.deep_view()[j] == p;
            assert(snapshot.entry_points@[j].file@ == p);
        }
        if is_entry_path(*snapshot, p) {
            let j = choose|j: int| 0 <= j < snapshot.entry_points@.len() && (#[trigger] snapshot.entry_points@[j]).file@ == p;
            assert(entry_paths.deep_view()[j] == p);
        }
    }
    let mut paths: Vec<String> = Vec::new();
    let mut chosen: Vec<usize> = Vec::new();
    let mut k: usize = snapshot.files.len();
    while k > 0
        invariant
            files == snapshot.files@,
            k <= files.len(),
            chosen@.len() + k <= files.len(),
            paths@.len() == chosen@.len(),
            forall|j: int| 0 <= j < chosen@.len() ==> k <= #[trigger] chosen@[j] < files.len(),
            forall|j: int| 0 <= j < chosen@.len() ==> last_analysed_at(files, #[trigger] chosen@[j] as int),
            forall|j: int| 0 <= j < chosen@.len() ==> (#[trigger] paths@[j])@ == files[chosen@[j] as int].path@,
            forall|a: int, b: int| 0 <= a < b < paths@.len() ==> (#[trigger] paths@[a])@ != (#[trigger] paths@[b])@,
            forall|m: int| k <= m < files.len() && is_analysed(#[trigger] files[m]) ==> paths.deep_view().contains(files[m].path@),
        decreases k,
    {
        k = k - 1;
        let f = &snapshot.files[k];
        let lang = f.lang.as_str();
        proof {
            reveal_strlit("unknown");
        }
        if crate::text::char_len(lang) > 0 && !text_eq(lang, "unknown") && !texts_contain(&paths, f.path.as_str()) {
            assert(last_analysed_at(files, k as int)) by {
                assert forall|m: int| k < m < files.len() && is_analysed(#[trigger] files[m]) implies files[m].path@
                    != files[k as int].path@ by {
                    assert(paths.deep_view().contains(files[m].path@));
                }
            }
            let ghost before = paths.deep_view();
            paths.push(f.path.clone());
            chosen.push(k);
            assert(paths.deep_view() =~= before.push(f.path@));
            assert(paths.deep_view()[before.len() as int] == files[k as int].path@);
            assert forall|m: int| k <= m < files.len() && is_analysed(#[trigger] files[m]) implies paths.deep_view().contains(
                files[m].path@,
            ) by {
                if m > k {
                    let j = choose|j: int| 0 <= j < before.len() && before[j] == files[m].path@;
                    assert(paths.deep_view()[j] == files[m].path@);
                }
            }
        } else {
            assert(f.path@ == files[k as int].path@);
            assert(is_analysed(files[k as int]) ==> paths.deep_view().contains(files[k as int].path@));
        }
    }
    let mut facts: Vec<FileFacts> = Vec::new();
    let mut c: usize = 0;
    while c < chosen.len()
        invariant
            files == snapshot.files@,
            c <= chosen@.len(),
            facts@.len() == c,
            chosen@.len() <= files.len(),
            paths@.len() == chosen@.len(),
            forall|p: Text| entry_paths.deep_view().contains(p) == is_entry_path(*snapshot, p),
            forall|j: int| 0 <= j < chosen@.len() ==> #[trigger] chosen@[j] < files.len(),
            forall|j: int| 0 <= j < chosen@.len() ==> last_analysed_at(files, #[trigger] chosen@[j] as int),
            forall|j: int| 0 <= j < chosen@.len() ==> (#[trigger] paths@[j])@ == files[chosen@[j] as int].path@,
            forall|j: int| 0 <= j < c ==> facts_of_entry(#[trigger] facts@[j], *snapshot, guardrails@, chosen@[j] as int),
            forall|j: int| 0 <= j < c ==> (#[trigger] facts@[j]).path@ == paths@[j]@,
        decreases chosen@.len() - c,
    {
        let f = &snapshot.files[chosen[c]];
        let is_entry = texts_contain(&entry_paths, f.path.as_str());
        let mut evidence: Option<&GuardrailFileEvidence> = None;
        let mut g: usize = 0;
        while g < guardrails.len()
            invariant
                g <= guardrails@.len(),
                (match evidence {
                    Some(e) => Some(*e),
                    None => None,
                }) == evidence_of(guardrails@.take(g as int), f.path@),
            decreases guardrails@.len() - g,
        {
            assert(guardrails@.take(g + 1).drop_last() =~= guardrails@.take(g as int));
            if text_eq(guardrails[g].path.as_str(), f.path.as_str()) {
                evidence = Some(&guardrails[g]);
            }
            g = g + 1;
        }
        assert(guardrails@.take(guardrails@.len() as int) =~= guardrails@);
        let ff = file_facts(f, is_entry, evidence);
        assert(facts_of_entry(ff, *snapshot, guardrails@, chosen@[c as int] as int));
        facts.push(ff);
        c = c + 1;
    }
    proof {
        assert forall|i: int| 0 <= i < facts@.len() implies facts_of_some_entry(#[trigger] facts@[i], *snapshot, guardrails@) by {
            assert(facts_of_entry(facts@[i], *snapshot, guardrails@, chosen@[i] as int));
        }
        assert forall|m: int| 0 <= m < files.len() && is_analysed(#[trigger] files[m]) implies exists|i: int|
            #![trigger facts@[i]] 0 <= i < facts@.len() && facts@[i].path@ == files[m].path@ by {
            assert(paths.deep_view().contains(files[m].path@));
            let j = choose|j: int| 0 <= j < paths.deep_view().len() && paths.deep_view()[j] == files[m].path@;
            assert(facts@[j].path@ == paths@[j]@);
        }
        assert forall|a: int, b: int| 0 <= a < b < facts@.len() implies (#[trigger] facts@[a]).path@ != (#[trigger] facts@[b]).path@ by {
            assert(paths@[a]@ != paths@[b]@);
        }
    }
    let ghost unsorted = facts@;
    let r = crate::sorting::sort_ranked(facts);
    proof {
        lemma_sorted_facts(unsorted, r@, *snapshot, guardrails@);
    }
    r
}

impl crate::sorting::Ranked for FileFacts {
    /// Facts are listed by path.
    open spec fn ranks_before(self, other: Self) -> bool {
        crate::order::lex_lt(self.path@, other.path@)
    }

    fn is_ranked_before(&self, other: &Self) -> (r: bool) {
        crate::order::text_less(self.path.as_str(), other.path.as_str())
    }

    proof fn lemma_ranking_irreflexive(a: Self) {
        crate::order::lemma_lex_irreflexive(a.path@);
    }

    proof fn lemma_ranking_transitive(a: Self, b: Self, c: Self) {
        crate::order::lemma_lex_transitive(a.path@, b.path@, c.path@);
    }

    proof fn lemma_ranking_connected(a: Self, b: Self, c: Self) {
        crate::order::lemma_lex_total(a.path@, b.path@);
        crate::order::lemma_lex_total(b.path@, c.path@);
        if crate::order::lex_lt(b.path@, a.path@) && crate::order::lex_lt(c.path@, b.path@) {
            crate::order::lemma_lex_transitive(c.path@, b.path@, a.path@);
            crate::order::lemma_lex_asymmetric(c.path@, a.path@);
        }
        if crate::order::lex_lt(b.path@, a.path@) && b.path@ == c.path@ {
            crate::order::lemma_lex_asymmetric(b.path@, a.path@);
        }
        if a.path@ == b.path@ && crate::order::lex_lt(c.path@, b.path@) {
            crate::order::lemma_lex_asymmetric(c.path@, b.path@);
        }
    }
}

} // verus!
