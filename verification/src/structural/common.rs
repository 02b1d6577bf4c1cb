//! Pieces shared by the per-file structural reports: dependency categories,
//! split axes and the suggested first cut of an oversized file.
use crate::order::{lex_lt, strictly_sorted, text_less, texts_contain};
use crate::paths::{first_index_of, path_category, path_category_of};
use crate::sorting::{ranked_order, sort_ranked, Ranked};
use crate::structural::utils::{dedupe, dedupe_strings_preserve_order, first_values, has_role_tag, has_tag};
use crate::structural::FileFacts;
use crate::text::{dec, decimal, join, join_texts, number_phrase, phrase, push_line, text_eq, Text};
use vstd::prelude::*;

verus! {

/// A dependency category and how many paths fall in it.
pub struct CategoryCount {
    pub name: String,
    pub count: usize,
}

impl Ranked for CategoryCount {
    /// Larger counts first, then category names in increasing order.
    open spec fn ranks_before(self, other: Self) -> bool {
        self.count > other.count || (self.count == other.count && lex_lt(self.name@, other.name@))
    }

    fn is_ranked_before(&self, other: &Self) -> (r: bool) {
        if self.count != other.count {
            return self.count > other.count;
        }
        text_less(self.name.as_str(), other.name.as_str())
    }

    proof fn lemma_ranking_irreflexive(a: Self) {
        crate::order::lemma_lex_irreflexive(a.name@);
    }

    proof fn lemma_ranking_transitive(a: Self, b: Self, c: Self) {
        if lex_lt(a.name@, b.name@) && lex_lt(b.name@, c.name@) {
            crate::order::lemma_lex_transitive(a.name@, b.name@, c.name@);
        }
    }

    proof fn lemma_ranking_connected(a: Self, b: Self, c: Self) {
        crate::order::lemma_lex_total(a.name@, b.name@);
        crate::order::lemma_lex_total(b.name@, c.name@);
        if lex_lt(b.name@, a.name@) && lex_lt(c.name@, b.name@) {
            crate::order::lemma_lex_transitive(c.name@, b.name@, a.name@);
            crate::order::lemma_lex_asymmetric(c.name@, a.name@);
        }
        if lex_lt(b.name@, a.name@) && b.name@ == c.name@ {
            crate::order::lemma_lex_asymmetric(b.name@, a.name@);
        }
        if a.name@ == b.name@ && lex_lt(c.name@, b.name@) {
            crate::order::lemma_lex_asymmetric(c.name@, b.name@);
        }
    }
}

/// How many of the paths fall in category `c`.
pub open spec fn category_count(paths: Seq<Text>, c: Text) -> nat
    decreases paths.len(),
{
    if paths.len() == 0 {
        0
    } else {
        category_count(paths.drop_last(), c) + if path_category_of(paths.last()) == c { 1nat } else { 0 }
    }
}

/// No two entries name the same category.
pub open spec fn names_distinct(counts: Seq<CategoryCount>) -> bool {
    forall|i: int, j: int| 0 <= i < j < counts.len() ==> (#[trigger] counts[i]).name@ != (#[trigger] counts[j]).name@
}

/// `counts` lists every category of the paths exactly once, each with the
/// number of paths in it.
pub open spec fn counts_categories(counts: Seq<CategoryCount>, paths: Seq<Text>) -> bool {
    &&& names_distinct(counts)
    &&& forall|i: int| #![trigger counts[i]] 0 <= i < counts.len() ==> counts[i].count == category_count(paths, counts[i].name@)
        && counts[i].count > 0
    &&& forall|c: Text| #[trigger] category_count(paths, c) > 0 ==> exists|i: int| 0 <= i < counts.len() && counts[i].name@ == c
}

fn add_category(counts: &mut Vec<CategoryCount>, c: String)
    requires
        forall|i: int| 0 <= i < old(counts)@.len() ==> (#[trigger] old(counts)@[i]).count < usize::MAX,
    ensures
        forall|i: int|
            #![trigger old(counts)@[i]]
            0 <= i < old(counts)@.len() && old(counts)@[i].name@ == c@ && (forall|j: int|
                0 <= j < i ==> (#[trigger] old(counts)@[j]).name@ != c@) ==> {
                &&& final(counts)@.len() == old(counts)@.len()
                &&& final(counts)@[i].name@ == c@
                &&& final(counts)@[i].count == old(counts)@[i].count + 1
                &&& forall|j: int| 0 <= j < old(counts)@.len() && j != i ==> final(counts)@[j] == old(counts)@[j]
            },
        (forall|i: int| 0 <= i < old(counts)@.len() ==> (#[trigger] old(counts)@[i]).name@ != c@) ==> {
            &&& final(counts)@.len() == old(counts)@.len() + 1
            &&& forall|j: int| 0 <= j < old(counts)@.len() ==> final(counts)@[j] == old(counts)@[j]
            &&& final(counts)@[old(counts)@.len() as int].name@ == c@
            &&& final(counts)@[old(counts)@.len() as int].count == 1
        },
{
    let mut i: usize = 0;
    while i < counts.len()
        invariant
            i <= counts@.len(),
            counts@ == old(counts)@,
            forall|j: int| 0 <= j < i ==> (#[trigger] counts@[j]).name@ != c@,
            forall|j: int| 0 <= j < counts@.len() ==> (#[trigger] counts@[j]).count < usize::MAX,
        decreases counts@.len() - i,
    {
        if text_eq(counts[i].name.as_str(), c.as_str()) {
            let n = counts[i].count + 1;
            let name = counts[i].name.clone();
            counts.set(i, CategoryCount { name, count: n });
            return;
        }
        i = i + 1;
    }
    counts.push(CategoryCount { name: c, count: 1 });
}

/// The counts reordered by rank keep every fact of the counts.
proof fn lemma_ranked_counts(counts: Seq<CategoryCount>, r: Seq<CategoryCount>, paths: Seq<Text>)
    requires
        counts_categories(counts, paths),
        r.to_multiset() == counts.to_multiset(),
    ensures
        counts_categories(r, paths),
{
    broadcast use vstd::seq_lib::to_multiset_contains;

    assert(counts.no_duplicates()) by {
        assert forall|i: int, j: int| 0 <= i < counts.len() && 0 <= j < counts.len() && i != j implies counts[i]
            != counts[j] by {
            if i < j {
                assert(counts[i].name@ != counts[j].name@);
            } else {
                assert(counts[j].name@ != counts[i].name@);
            }
        }
    }
    counts.lemma_multiset_has_no_duplicates();
    r.lemma_multiset_has_no_duplicates_conv();
    assert forall|i: int| 0 <= i < r.len() implies counts.contains(#[trigger] r[i]) by {
        assert(r.to_multiset().count(r[i]) > 0);
    }
    assert forall|i: int, j: int| 0 <= i < j < r.len() implies (#[trigger] r[i]).name@ != (#[trigger] r[j]).name@ by {
        assert(counts.contains(r[i]) && counts.contains(r[j]));
        let a = choose|a: int| 0 <= a < counts.len() && counts[a] == r[i];
        let b = choose|b: int| 0 <= b < counts.len() && counts[b] == r[j];
        if r[i].name@ == r[j].name@ {
            if a < b {
                assert(counts[a].name@ != counts[b].name@);
            } else if b < a {
                assert(counts[b].name@ != counts[a].name@);
            }
        }
    }
    assert forall|i: int| #![trigger r[i]] 0 <= i < r.len() implies r[i].count == category_count(paths, r[i].name@)
        && r[i].count > 0 by {
        assert(counts.contains(r[i]));
        let a = choose|a: int| 0 <= a < counts.len() && counts[a] == r[i];
        assert(counts[a] == r[i]);
    }
    assert forall|c: Text| #[trigger] category_count(paths, c) > 0 implies exists|i: int|
        0 <= i < r.len() && r[i].name@ == c by {
        let a = choose|a: int| 0 <= a < counts.len() && counts[a].name@ == c;
        assert(counts.contains(counts[a]));
        assert(r.to_multiset().count(counts[a]) > 0);
        assert(r.contains(counts[a]));
    }
}

/// The categories of the paths with their counts, largest first, then by
/// name.
pub fn category_counts(paths: &Vec<String>) -> (r: Vec<CategoryCount>)
    ensures
        ranked_order(r@),
        counts_categories(r@, paths.deep_view()),
{
    let ghost pv = paths.deep_view();
    let mut counts: Vec<CategoryCount> = Vec::new();
    let mut i: usize = 0;
    while i < paths.len()
        invariant
            i <= paths@.len(),
            pv == paths.deep_view(),
            counts_categories(counts@, pv.take(i as int)),
            forall|j: int| 0 <= j < counts@.len() ==> (#[trigger] counts@[j]).count <= i,
        decreases paths@.len() - i,
    {
        let c = path_category(paths[i].as_str());
        let ghost prev = pv.take(i as int);
        let ghost next = pv.take(i + 1);
        let ghost old_counts = counts@;
        assert(next.drop_last() =~= prev);
        assert(next.last() == pv[i as int]);
        assert(c@ == path_category_of(next.last()));
        assert forall|d: Text| #[trigger] category_count(next, d) == category_count(prev, d) + if d == c@ { 1nat } else { 0 } by {}
        add_category(&mut counts, c);
        proof {
            if exists|k: int| 0 <= k < old_counts.len() && old_counts[k].name@ == c@ {
                let k = choose|k: int| 0 <= k < old_counts.len() && old_counts[k].name@ == c@;
                assert forall|j: int| 0 <= j < k implies (#[trigger] old_counts[j]).name@ != c@ by {
                    assert(old_counts[j].name@ != old_counts[k].name@);
                }
                assert(old_counts[k].name@ == c@);
                assert(counts@.len() == old_counts.len());
                assert forall|a: int, b: int| 0 <= a < b < counts@.len() implies (#[trigger] counts@[a]).name@
                    != (#[trigger] counts@[b]).name@ by {
                    assert(old_counts[a].name@ != old_counts[b].name@);
                    if a == k {
                        assert(counts@[b] == old_counts[b]);
                    } else if b == k {
                        assert(counts@[a] == old_counts[a]);
                    } else {
                        assert(counts@[a] == old_counts[a] && counts@[b] == old_counts[b]);
                    }
                }
                assert forall|j: int| #![trigger counts@[j]] 0 <= j < counts@.len() implies counts@[j].count
                    == category_count(next, counts@[j].name@) && counts@[j].count > 0 && counts@[j].count <= i + 1 by {
                    if j != k {
                        assert(counts@[j] == old_counts[j]);
                        assert(old_counts[j].name@ != c@) by {
                            if j < k {
                                assert(old_counts[j].name@ != old_counts[k].name@);
                            } else {
                                assert(old_counts[k].name@ != old_counts[j].name@);
                            }
                        }
                    }
                }
                assert forall|d: Text| #[trigger] category_count(next, d) > 0 implies exists|j: int|
                    0 <= j < counts@.len() && counts@[j].name@ == d by {
                    if d == c@ {
                        assert(counts@[k].name@ == d);
                    } else {
                        assert(category_count(prev, d) > 0);
                        let j = choose|j: int| 0 <= j < old_counts.len() && old_counts[j].name@ == d;
                        assert(j != k);
                        assert(counts@[j] == old_counts[j]);
                    }
                }
            } else {
                assert forall|k: int| 0 <= k < old_counts.len() implies (#[trigger] old_counts[k]).name@ != c@ by {}
                let n = old_counts.len() as int;
                assert(counts@.len() == n + 1);
                assert(category_count(prev, c@) == 0) by {
                    if category_count(prev, c@) > 0 {
                        let j = choose|j: int| 0 <= j < old_counts.len() && old_counts[j].name@ == c@;
                    }
                }
                assert forall|a: int, b: int| 0 <= a < b < counts@.len() implies (#[trigger] counts@[a]).name@
                    != (#[trigger] counts@[b]).name@ by {
                    if b == n {
                        assert(counts@[a] == old_counts[a]);
                    } else {
                        assert(counts@[a] == old_counts[a] && counts@[b] == old_counts[b]);
                        assert(old_counts[a].name@ != old_counts[b].name@);
                    }
                }
                assert forall|j: int| #![trigger counts@[j]] 0 <= j < counts@.len() implies counts@[j].count
                    == category_count(next, counts@[j].name@) && counts@[j].count > 0 && counts@[j].count <= i + 1 by {
                    if j < n {
                        assert(counts@[j] == old_counts[j]);
                    }
                }
                assert forall|d: Text| #[trigger] category_count(next, d) > 0 implies exists|j: int|
                    0 <= j < counts@.len() && counts@[j].name@ == d by {
                    if d == c@ {
                        assert(counts@[n].name@ == d);
                    } else {
                        assert(category_count(prev, d) > 0);
                        let j = choose|j: int| 0 <= j < old_counts.len() && old_counts[j].name@ == d;
                        assert(counts@[j] == old_counts[j]);
                    }
                }
            }
        }
        i = i + 1;
    }
    assert(pv.take(pv.len() as int) =~= pv);
    let ghost unsorted = counts@;
    let r = sort_ranked(counts);
    proof {
        lemma_ranked_counts(unsorted, r@, pv);
    }
    r
}

/// The summary of a category: its name and count, as `name(count)`.
pub open spec fn category_summary(c: CategoryCount) -> Text {
    c.name@ + "("@ + dec(c.count as nat) + ")"@
}

/// `category(count)` for the `limit` largest categories of the paths (by
/// count, then name).
pub fn dependency_category_summaries(paths: &Vec<String>, limit: usize) -> (r: Vec<String>)
    ensures
        exists|counts: Seq<CategoryCount>|
            #![trigger counts_categories(counts, paths.deep_view())]
            {
                &&& ranked_order(counts)
                &&& counts_categories(counts, paths.deep_view())
                &&& r@.len() == if counts.len() < limit { counts.len() } else { limit as nat }
                &&& forall|i: int| 0 <= i < r@.len() ==> r@[i]@ == category_summary(#[trigger] counts[i])
            },
{
    let counts = category_counts(paths);
    let mut r: Vec<String> = Vec::new();
    let mut i: usize = 0;
    while i < counts.len() && i < limit
        invariant
            r@.len() == i,
            i <= limit,
            i <= counts@.len(),
            forall|k: int| 0 <= k < i ==> r@[k]@ == category_summary(#[trigger] counts@[k]),
        decreases counts@.len() - i,
    {
        let mut s = counts[i].name.clone();
        s.append("(");
        let n = decimal(counts[i].count as u64);
        s.append(n.as_str());
        s.append(")");
        r.push(s);
        i = i + 1;
    }
    r
}

/// The part of a category name before its first `(`.
pub open spec fn before_paren(c: Text) -> Text {
    match first_index_of(c, '(') {
        Some(i) => c.take(i),
        None => c,
    }
}

fn category_name_before_paren(c: &str) -> (r: String)
    ensures
        r@ == before_paren(c@),
{
    let v = crate::text::chars_of(c);
    match crate::paths::find_first(&v, '(') {
        Some(i) => {
            let s = crate::paths::slice_text(&v, 0, i);
            assert(s@ =~= c@.take(i as int));
            s
        },
        None => c.to_string(),
    }
}

/// `names` are the names (before any `(`) of the `limit` largest categories
/// of the paths (by count, then name).
pub open spec fn dominant_names(names: Seq<Text>, paths: Seq<Text>, limit: usize) -> bool {
    exists|counts: Seq<CategoryCount>|
        #![trigger counts_categories(counts, paths)]
        {
            &&& ranked_order(counts)
            &&& counts_categories(counts, paths)
            &&& names.len() == if counts.len() < limit { counts.len() } else { limit as nat }
            &&& forall|i: int| 0 <= i < names.len() ==> names[i] == before_paren((#[trigger] counts[i]).name@)
        }
}

/// Each name followed by the suffix.
pub open spec fn suffix_all(names: Seq<Text>, suffix: Text) -> Seq<Text> {
    Seq::new(names.len(), |i: int| names[i] + suffix)
}

/// One dependency boundary per category name, or the orchestration boundary
/// when there is none.
pub open spec fn category_axes_of(names: Seq<Text>) -> Seq<Text> {
    if names.len() == 0 {
        seq!["orchestration boundary"@]
    } else {
        suffix_all(names, " dependency boundary"@)
    }
}

/// The names (before any `(`) of the `limit` largest categories of the
/// paths (by count, then name).
pub fn dominant_categories(paths: &Vec<String>, limit: usize) -> (r: Vec<String>)
    ensures
        dominant_names(r.deep_view(), paths.deep_view(), limit),
{
    let counts = category_counts(paths);
    let mut r: Vec<String> = Vec::new();
    let mut i: usize = 0;
    while i < counts.len() && i < limit
        invariant
            r@.len() == i,
            i <= limit,
            i <= counts@.len(),
            forall|k: int| 0 <= k < i ==> r@[k]@ == before_paren((#[trigger] counts@[k]).name@),
        decreases counts@.len() - i,
    {
        r.push(category_name_before_paren(counts[i].name.as_str()));
        i = i + 1;
    }
    assert(forall|k: int| 0 <= k < r.deep_view().len() ==> r.deep_view()[k] == before_paren((#[trigger] counts@[k]).name@));
    assert(counts_categories(counts@, paths.deep_view()));
    r
}

/// The dependency boundaries along which a file could be split: one per
/// dominant category, or the orchestration boundary when there is none.
pub fn dependency_category_axes(paths: Option<&Vec<String>>, limit: usize) -> (r: Vec<String>)
    ensures
        r@.len() >= 1,
        paths is None ==> r.deep_view() == seq!["orchestration boundary"@],
        paths matches Some(p) ==> exists|names: Seq<Text>|
            #![trigger dominant_names(names, p.deep_view(), limit)]
            dominant_names(names, p.deep_view(), limit) && r.deep_view() == category_axes_of(names),
{
    let mut r: Vec<String> = Vec::new();
    match paths {
        Some(p) => {
            let categories = dominant_categories(p, limit);
            suffixed(&categories, " dependency boundary", &mut r);
            assert(r.deep_view() =~= suffix_all(categories.deep_view(), " dependency boundary"@));
            if r.len() == 0 {
                r.push("orchestration boundary".to_string());
                assert(r.deep_view() =~= seq!["orchestration boundary"@]);
            }
            assert(r.deep_view() == category_axes_of(categories.deep_view()));
        },
        None => {
            r.push("orchestration boundary".to_string());
            assert(r.deep_view() =~= seq!["orchestration boundary"@]);
        },
    }
    r
}

fn suffixed(categories: &Vec<String>, suffix: &str, out: &mut Vec<String>)
    ensures
        final(out).deep_view() == old(out).deep_view() + suffix_all(categories.deep_view(), suffix@),
{
    let ghost start = out.deep_view();
    let mut i: usize = 0;
    while i < categories.len()
        invariant
            i <= categories@.len(),
            out.deep_view() == start + suffix_all(categories.deep_view().take(i as int), suffix@),
        decreases categories@.len() - i,
    {
        let mut s = categories[i].clone();
        s.append(suffix);
        push_line(out, s);
        i = i + 1;
        assert(out.deep_view() =~= start + suffix_all(categories.deep_view().take(i as int), suffix@));
    }
    assert(categories.deep_view().take(i as int) =~= categories.deep_view());
}

/// The boundaries along which a hotspot could be split, given its callers'
/// and its dependencies' dominant category names: each once, at most
/// `max(limit, 1)` of them, or the stable contract boundary.
pub open spec fn hotspot_axes_of(inbound: Seq<Text>, outbound: Seq<Text>, tags: Seq<Text>, limit: usize) -> Seq<Text> {
    let all = suffix_all(inbound, " caller boundary"@) + suffix_all(outbound, " dependency boundary"@) + (if has_tag(
        tags,
        "guarded_boundary"@,
    ) {
        seq!["guarded boundary"@]
    } else {
        Seq::empty()
    }) + (if has_tag(tags, "facade_with_extracted_owners"@) {
        seq!["facade owner boundary"@]
    } else {
        Seq::empty()
    });
    let d = dedupe(all);
    let keep: int = if limit > 1 { limit as int } else { 1 };
    let kept = d.take(if keep < d.len() { keep } else { d.len() as int });
    if kept.len() == 0 {
        seq!["stable contract boundary"@]
    } else {
        kept
    }
}

/// The boundaries along which a hotspot could be split: its callers' and its
/// dependencies' dominant categories, guarded and facade-owner boundaries, at
/// most `max(limit, 1)` of them, or a stable contract boundary.
pub fn hotspot_split_axes(facts: &FileFacts, incoming: &Vec<String>, outgoing: &Vec<String>, limit: usize) -> (r: Vec<
    String,
>)
    ensures
        r@.len() >= 1,
        r@.len() <= if limit > 1 { limit } else { 1 },
        exists|inbound: Seq<Text>, outbound: Seq<Text>|
            #![trigger dominant_names(inbound, incoming.deep_view(), (limit / 2 + 1) as usize), dominant_names(outbound, outgoing.deep_view(), (limit / 2 + 1) as usize)]
            {
                &&& dominant_names(inbound, incoming.deep_view(), (limit / 2 + 1) as usize)
                &&& dominant_names(outbound, outgoing.deep_view(), (limit / 2 + 1) as usize)
                &&& r.deep_view() == hotspot_axes_of(inbound, outbound, facts.role_tags.deep_view(), limit)
            },
{
    let half = limit / 2 + 1;
    let inbound = dominant_categories(incoming, half);
    let outbound = dominant_categories(outgoing, half);
    let mut axes: Vec<String> = Vec::new();
    suffixed(&inbound, " caller boundary", &mut axes);
    suffixed(&outbound, " dependency boundary", &mut axes);
    let ghost base = suffix_all(inbound.deep_view(), " caller boundary"@) + suffix_all(outbound.deep_view(), " dependency boundary"@);
    assert(axes.deep_view() =~= Seq::<Text>::empty() + suffix_all(inbound.deep_view(), " caller boundary"@) + suffix_all(outbound.deep_view(), " dependency boundary"@));
    assert(axes.deep_view() =~= base);
    let ghost tags = facts.role_tags.deep_view();
    let ghost g: Seq<Text> = if has_tag(tags, "guarded_boundary"@) {
        seq!["guarded boundary"@]
    } else {
        Seq::empty()
    };
    if has_role_tag(&facts.role_tags, "guarded_boundary") {
        push_line(&mut axes, "guarded boundary".to_string());
    }
    assert(axes.deep_view() =~= base + g);
    let ghost f: Seq<Text> = if has_tag(tags, "facade_with_extracted_owners"@) {
        seq!["facade owner boundary"@]
    } else {
        Seq::empty()
    };
    if has_role_tag(&facts.role_tags, "facade_with_extracted_owners") {
        push_line(&mut axes, "facade owner boundary".to_string());
    }
    assert(axes.deep_view() =~= base + g + f);
    let deduped = dedupe_strings_preserve_order(&axes);
    let keep = if limit > 1 {
        limit
    } else {
        1
    };
    let mut r = first_values(&deduped, keep);
    assert(r@.len() == r.deep_view().len());
    if r.len() == 0 {
        r.push("stable contract boundary".to_string());
        assert(r.deep_view() =~= seq!["stable contract boundary"@]);
    }
    assert(r.deep_view() == hotspot_axes_of(inbound.deep_view(), outbound.deep_view(), tags, limit));
    r
}

/// The boundaries along which an oversized file could be split, given its
/// dependency axes: those, then the facade owner boundary, the entry surface
/// split, the high-complexity helper extraction and the private helper
/// surface split where they apply, each once; the orchestration boundary
/// when none applies.
pub open spec fn large_axes_of(base: Seq<Text>, facts: FileFacts) -> Seq<Text> {
    let tags = facts.role_tags.deep_view();
    let all = base + (if has_tag(tags, "facade_with_extracted_owners"@) {
        seq!["facade owner boundary"@]
    } else {
        Seq::empty()
    }) + (if has_tag(tags, "entry_surface"@) {
        seq!["entry surface split"@]
    } else {
        Seq::empty()
    }) + (if facts.max_complexity >= 40 {
        seq!["high-complexity helper extraction"@]
    } else {
        Seq::empty()
    }) + (if facts.function_count >= 20 {
        seq!["private helper surface split"@]
    } else {
        Seq::empty()
    });
    let d = dedupe(all);
    if d.len() == 0 {
        seq!["orchestration boundary"@]
    } else {
        d
    }
}

/// The boundaries along which an oversized file could be split.
pub fn large_file_split_axes(facts: &FileFacts, outgoing: Option<&Vec<String>>) -> (r: Vec<String>)
    ensures
        r@.len() >= 1,
        outgoing is None ==> r.deep_view() == large_axes_of(Seq::empty(), *facts),
        outgoing matches Some(p) ==> exists|names: Seq<Text>|
            #![trigger dominant_names(names, p.deep_view(), 3)]
            dominant_names(names, p.deep_view(), 3) && r.deep_view() == large_axes_of(category_axes_of(names), *facts),
{
    let mut axes: Vec<String> = match outgoing {
        Some(p) => dependency_category_axes(Some(p), 3),
        None => Vec::new(),
    };
    let ghost base = axes.deep_view();
    let ghost tags = facts.role_tags.deep_view();
    let ghost a1: Seq<Text> = if has_tag(tags, "facade_with_extracted_owners"@) {
        seq!["facade owner boundary"@]
    } else {
        Seq::empty()
    };
    let ghost a2: Seq<Text> = if has_tag(tags, "entry_surface"@) {
        seq!["entry surface split"@]
    } else {
        Seq::empty()
    };
    let ghost a3: Seq<Text> = if facts.max_complexity >= 40 {
        seq!["high-complexity helper extraction"@]
    } else {
        Seq::empty()
    };
    if has_role_tag(&facts.role_tags, "facade_with_extracted_owners") {
        push_line(&mut axes, "facade owner boundary".to_string());
    }
    assert(axes.deep_view() =~= base + a1);
    if has_role_tag(&facts.role_tags, "entry_surface") {
        push_line(&mut axes, "entry surface split".to_string());
    }
    assert(axes.deep_view() =~= base + a1 + a2);
    if facts.max_complexity >= 40 {
        push_line(&mut axes, "high-complexity helper extraction".to_string());
    }
    assert(axes.deep_view() =~= base + a1 + a2 + a3);
    let ghost a4: Seq<Text> = if facts.function_count >= 20 {
        seq!["private helper surface split"@]
    } else {
        Seq::empty()
    };
    if facts.function_count >= 20 {
        push_line(&mut axes, "private helper surface split".to_string());
    }
    assert(axes.deep_view() =~= base + a1 + a2 + a3 + a4);
    let mut r = dedupe_strings_preserve_order(&axes);
    if r.len() == 0 {
        r.push("orchestration boundary".to_string());
        assert(r.deep_view() =~= seq!["orchestration boundary"@]);
    }
    assert(r.deep_view() == large_axes_of(base, *facts));
    assert(outgoing is None ==> base =~= Seq::<Text>::empty());
    r
}

/// The suggested first extraction from an oversized file and how admissible it is.
pub struct LargeFileFirstCut {
    pub extraction: String,
    pub admissibility: String,
    pub confidence_0_10000: u32,
}

/// The confidence in an oversized file's first cut.
pub open spec fn first_cut_confidence(facts: FileFacts, tags: Seq<Text>, fan_out: nat) -> u32 {
    let c = 1200 + (if facts.function_count >= 20 { 1800int } else { 0 }) + (if facts.max_complexity >= 40 {
        2000int
    } else if facts.max_complexity >= 25 {
        1000int
    } else {
        0
    }) + (if fan_out >= 2 { 1600int } else { 0 }) + (if facts.guardrail_tests@.len() > 0 { 1700int } else { 0 }) + (
    if has_tag(tags, "composition_root"@) || has_tag(tags, "entry_surface"@) || has_tag(
        tags,
        "facade_with_extracted_owners"@,
    ) || has_tag(tags, "guarded_seam"@) {
        1000int
    } else {
        0
    });
    if c > 10000 { 10000 } else { c as u32 }
}

/// The label of a first-cut confidence.
pub open spec fn confidence_label(c: u32) -> Text {
    if 6500 <= c && c <= 10000 {
        "high"@
    } else if 4000 <= c && c <= 6499 {
        "medium"@
    } else {
        "watchpoint"@
    }
}

/// The suggested first extraction from an oversized file: moving facade
/// owner behavior, entry orchestration, the highest-complexity helper path,
/// the private helper group, or behavior coupled to the first dependency
/// behind the first split axis (the orchestration boundary when there is
/// none), by the first that applies.
pub open spec fn first_cut_extraction(facts: FileFacts, tags: Seq<Text>, outgoing: Seq<Text>, axes: Seq<Text>) -> Text {
    let fa = if axes.len() > 0 { axes[0] } else { "orchestration boundary"@ };
    if has_tag(facts.role_tags.deep_view(), "facade_with_extracted_owners"@) {
        "move remaining facade owner behavior behind the "@ + fa
    } else if has_tag(tags, "composition_root"@) || has_tag(tags, "entry_surface"@) {
        if outgoing.len() > 0 {
            "move entry orchestration coupled to "@ + outgoing[0] + " behind the "@ + fa
        } else {
            "extract entry orchestration behind the "@ + fa
        }
    } else if facts.max_complexity >= 40 {
        "extract the highest-complexity helper path into a focused module"@
    } else if facts.function_count >= 20 {
        "extract the private helper group into a focused module"@
    } else if outgoing.len() > 0 {
        "move behavior coupled to "@ + outgoing[0] + " behind the "@ + fa
    } else {
        "start with a narrow "@ + fa + " only after identifying a cohesive helper group"@
    }
}

/// The reasons behind a first cut's confidence: function count, peak
/// complexity, fan-out, guardrail tests and role tags.
pub open spec fn first_cut_reasons(facts: FileFacts, tags: Seq<Text>, fan_out: nat) -> Seq<Text> {
    seq![
        "symbol/function count: "@ + dec(facts.function_count as nat) + ""@,
        "peak complexity: "@ + dec(facts.max_complexity as nat) + ""@,
        "fan-out: "@ + dec(fan_out) + ""@,
        if facts.guardrail_tests@.len() > 0 {
            "guardrail tests: "@ + dec(facts.guardrail_tests@.len()) + ""@
        } else {
            "guardrail tests: 0"@
        },
        if tags.len() > 0 {
            "role tags: "@ + join(tags, ", "@)
        } else {
            "role tags: none"@
        },
    ]
}

/// The suggested first extraction from an oversized file.
pub fn large_file_first_cut(facts: &FileFacts, tags: &Vec<String>, outgoing: &Vec<String>, axes: &Vec<String>) -> (r:
    LargeFileFirstCut)
    ensures
        r.confidence_0_10000 == first_cut_confidence(*facts, tags.deep_view(), outgoing@.len() as nat),
        r.extraction@ == first_cut_extraction(*facts, tags.deep_view(), outgoing.deep_view(), axes.deep_view()),
        r.admissibility@ == confidence_label(r.confidence_0_10000) + " ("@ + join(
            first_cut_reasons(*facts, tags.deep_view(), outgoing@.len() as nat),
            "; "@,
        ) + ")"@,
{
    let fan_out = outgoing.len();
    let first_axis = if axes.len() > 0 {
        assert(axes.deep_view()[0] == axes@[0]@);
        axes[0].clone()
    } else {
        "orchestration boundary".to_string()
    };
    let fa = first_axis.as_str();
    let extraction = if has_role_tag(&facts.role_tags, "facade_with_extracted_owners") {
        let mut s = "move remaining facade owner behavior behind the ".to_string();
        s.append(fa);
        s
    } else if has_role_tag(tags, "composition_root") || has_role_tag(tags, "entry_surface") {
        if outgoing.len() > 0 {
            let mut s = "move entry orchestration coupled to ".to_string();
            s.append(outgoing[0].as_str());
            s.append(" behind the ");
            s.append(fa);
            s
        } else {
            let mut s = "extract entry orchestration behind the ".to_string();
            s.append(fa);
            s
        }
    } else if facts.max_complexity >= 40 {
        "extract the highest-complexity helper path into a focused module".to_string()
    } else if facts.function_count >= 20 {
        "extract the private helper group into a focused module".to_string()
    } else if outgoing.len() > 0 {
        let mut s = "move behavior coupled to ".to_string();
        s.append(outgoing[0].as_str());
        s.append(" behind the ");
        s.append(fa);
        s
    } else {
        let mut s = "start with a narrow ".to_string();
        s.append(fa);
        s.append(" only after identifying a cohesive helper group");
        s
    };
    let mut confidence: u32 = 1200;
    let mut reasons: Vec<String> = Vec::new();
    if facts.function_count >= 20 {
        confidence = confidence + 1800;
    }
    push_line(&mut reasons, phrase("symbol/function count: ", facts.function_count as u64, ""));
    if facts.max_complexity >= 40 {
        confidence = confidence + 2000;
    } else if facts.max_complexity >= 25 {
        confidence = confidence + 1000;
    }
    push_line(&mut reasons, phrase("peak complexity: ", facts.max_complexity as u64, ""));
    if fan_out >= 2 {
        confidence = confidence + 1600;
    }
    push_line(&mut reasons, phrase("fan-out: ", fan_out as u64, ""));
    if facts.guardrail_tests.len() > 0 {
        confidence = confidence + 1700;
        push_line(&mut reasons, phrase("guardrail tests: ", facts.guardrail_tests.len() as u64, ""));
    } else {
        push_line(&mut reasons, "guardrail tests: 0".to_string());
    }
    if has_role_tag(tags, "composition_root") || has_role_tag(tags, "entry_surface") || has_role_tag(
        tags,
        "facade_with_extracted_owners",
    ) || has_role_tag(tags, "guarded_seam") {
        confidence = confidence + 1000;
        let mut s = "role tags: ".to_string();
        let joined = join_texts(tags, ", ");
        s.append(joined.as_str());
        push_line(&mut reasons, s);
    } else if tags.len() > 0 {
        let mut s = "role tags: ".to_string();
        let joined = join_texts(tags, ", ");
        s.append(joined.as_str());
        push_line(&mut reasons, s);
    } else {
        push_line(&mut reasons, "role tags: none".to_string());
    }
    let confidence = if confidence > 10000 {
        10000
    } else {
        confidence
    };
    let label = if 6500 <= confidence && confidence <= 10000 {
        "high"
    } else if 4000 <= confidence && confidence <= 6499 {
        "medium"
    } else {
        "watchpoint"
    };
    let mut admissibility = label.to_string();
    admissibility.append(" (");
    let joined = join_texts(&reasons, "; ");
    admissibility.append(joined.as_str());
    admissibility.append(")");
    assert(reasons.deep_view() =~= first_cut_reasons(*facts, tags.deep_view(), outgoing@.len() as nat));
    LargeFileFirstCut { extraction, admissibility, confidence_0_10000: confidence }
}

} // verus!
