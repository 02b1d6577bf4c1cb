//! Findings for new production files that arrive without a sibling test.
use crate::order::{lex_lt, sorted_unique, strictly_sorted, texts_contain};
use crate::paths::{extension_of_name, file_extension, file_name, file_name_of, file_stem, is_test_file, is_test_path, last_index_of, parent_dir, parent_of, stem_of_name};
use crate::snapshot::{has_file, snapshot_has_file, FileNode};
use crate::text::{char_len, dec, number_phrase, push_line, starts_with, text_eq, Text};
use crate::{FindingSeverity, SemanticFinding};
use vstd::prelude::*;

verus! {

/// The extensions of source files that are expected to have tests.
pub open spec fn is_source_extension(e: Text) -> bool {
    ||| e == "ts"@
    ||| e == "tsx"@
    ||| e == "js"@
    ||| e == "jsx"@
    ||| e == "mjs"@
    ||| e == "cjs"@
    ||| e == "rs"@
    ||| e == "java"@
    ||| e == "kt"@
    ||| e == "py"@
}

/// A production source file: not a test, with a source extension, under
/// `src/`, `app/` or `lib/`.
pub open spec fn is_production_source(p: Text) -> bool {
    &&& !is_test_path(p)
    &&& is_source_extension(extension_of_name(file_name_of(p)))
    &&& ("src/"@.is_prefix_of(p) || "app/"@.is_prefix_of(p) || "lib/"@.is_prefix_of(p))
}

/// The places where a test of `p` would be expected.
pub open spec fn sibling_candidates(p: Text) -> Seq<Text> {
    let parent = parent_of(p);
    let name = file_name_of(p);
    let stem = stem_of_name(name);
    let ext = extension_of_name(name);
    let base = parent + "/"@ + stem;
    let nested = parent + "/__tests__/"@ + stem;
    seq![
        base + ".test."@ + ext,
        base + ".spec."@ + ext,
        nested + ".test."@ + ext,
        nested + ".spec."@ + ext,
        base + "Test."@ + ext,
        base + ".test.ts"@,
        base + ".spec.ts"@,
        base + ".test.tsx"@,
        base + ".spec.tsx"@,
        base + ".test.js"@,
        base + ".spec.js"@,
        base + ".test.jsx"@,
        base + ".spec.jsx"@,
        base + "Test.java"@,
    ]
}

/// `p` is a test itself or the scan holds a test next to it.
pub open spec fn has_sibling_test(p: Text, files: Seq<FileNode>) -> bool {
    ||| is_test_path(p)
    ||| (file_name_of(p).len() > 0 && exists|k: int| 0 <= k < 14 && has_file(files, #[trigger] sibling_candidates(p)[k]))
}

/// A test of `p` lies beside it in the scan under one of the usual naming
/// conventions: `stem.test.ext`, `stem.spec.ext`, the same under
/// `__tests__/`, `stemTest.ext`, or a `.test`/`.spec` file in TypeScript or
/// JavaScript (`.ts`, `.tsx`, `.js`, `.jsx`), or `stemTest.java`.
pub open spec fn test_file_beside(p: Text, files: Seq<FileNode>) -> bool {
    let dir = parent_of(p) + "/"@;
    let stem = stem_of_name(file_name_of(p));
    let ext = extension_of_name(file_name_of(p));
    let nested = parent_of(p) + "/__tests__/"@ + stem;
    ||| has_file(files, dir + stem + ".test."@ + ext)
    ||| has_file(files, dir + stem + ".spec."@ + ext)
    ||| has_file(files, nested + ".test."@ + ext)
    ||| has_file(files, nested + ".spec."@ + ext)
    ||| has_file(files, dir + stem + "Test."@ + ext)
    ||| has_file(files, dir + stem + ".test.ts"@)
    ||| has_file(files, dir + stem + ".spec.ts"@)
    ||| has_file(files, dir + stem + ".test.tsx"@)
    ||| has_file(files, dir + stem + ".spec.tsx"@)
    ||| has_file(files, dir + stem + ".test.js"@)
    ||| has_file(files, dir + stem + ".spec.js"@)
    ||| has_file(files, dir + stem + ".test.jsx"@)
    ||| has_file(files, dir + stem + ".spec.jsx"@)
    ||| has_file(files, dir + stem + "Test.java"@)
}

/// A source file has a non-empty name.
proof fn lemma_source_name_nonempty(p: Text)
    requires
        is_source_extension(extension_of_name(file_name_of(p))),
    ensures
        file_name_of(p).len() > 0,
{
    reveal_strlit("ts");
    reveal_strlit("tsx");
    reveal_strlit("js");
    reveal_strlit("jsx");
    reveal_strlit("mjs");
    reveal_strlit("cjs");
    reveal_strlit("rs");
    reveal_strlit("java");
    reveal_strlit("kt");
    reveal_strlit("py");
    if file_name_of(p).len() == 0 {
        assert(last_index_of(file_name_of(p), '.') is None);
        assert(extension_of_name(file_name_of(p)).len() == 0);
    }
}

/// A named file counts as tested exactly when it is a test itself or a test
/// lies beside it under one of the conventions of `test_file_beside`.
pub proof fn lemma_sibling_test_iff(p: Text, files: Seq<FileNode>)
    requires
        file_name_of(p).len() > 0,
    ensures
        has_sibling_test(p, files) == (is_test_path(p) || test_file_beside(p, files)),
{
    let c = sibling_candidates(p);
    if test_file_beside(p, files) {
        if has_file(files, c[0]) {} else if has_file(files, c[1]) {} else if has_file(files, c[2]) {} else if has_file(files, c[3]) {
        } else if has_file(files, c[4]) {} else if has_file(files, c[5]) {} else if has_file(files, c[6]) {} else if has_file(
            files,
            c[7],
        ) {} else if has_file(files, c[8]) {} else if has_file(files, c[9]) {} else if has_file(files, c[10]) {
        } else if has_file(files, c[11]) {} else if has_file(files, c[12]) {} else {
            assert(has_file(files, c[13]));
        }
    }
    if exists|k: int| 0 <= k < 14 && has_file(files, #[trigger] c[k]) {
        let k = choose|k: int| 0 <= k < 14 && has_file(files, #[trigger] c[k]);
        assert(test_file_beside(p, files));
    }
}

proof fn lemma_untested_contains(changed: Seq<Text>, baseline: Seq<Text>, files: Seq<FileNode>, p: Text)
    requires
        changed.contains(p),
        has_file(files, p),
        !baseline.contains(p),
        is_production_source(p),
        !has_sibling_test(p, files),
    ensures
        untested_new_files(changed, baseline, files).contains(p),
    decreases changed.len(),
{
    let prev = untested_new_files(changed.drop_last(), baseline, files);
    if changed.last() == p {
        assert(untested_new_files(changed, baseline, files) == prev.push(p));
        assert(prev.push(p)[prev.len() as int] == p);
    } else {
        let q = choose|q: int| 0 <= q < changed.len() && changed[q] == p;
        assert(changed.drop_last()[q] == p);
        lemma_untested_contains(changed.drop_last(), baseline, files, p);
        let k = choose|k: int| 0 <= k < prev.len() && prev[k] == p;
        let now = untested_new_files(changed, baseline, files);
        if has_file(files, changed.last()) && !baseline.contains(changed.last()) && is_production_source(changed.last())
            && !has_sibling_test(changed.last(), files) {
            assert(now == prev.push(changed.last()));
            assert(now[k] == p);
        } else {
            assert(now == prev);
        }
    }
}

/// No untested new file is a test, and none has a test beside it under any
/// of the naming conventions of `test_file_beside`.
pub proof fn lemma_untested_have_no_test_beside(changed: Seq<Text>, baseline: Seq<Text>, files: Seq<FileNode>)
    ensures
        forall|m: int|
            0 <= m < untested_new_files(changed, baseline, files).len() ==> {
                let p = #[trigger] untested_new_files(changed, baseline, files)[m];
                &&& !is_test_path(p)
                &&& has_file(files, p)
                &&& !baseline.contains(p)
                &&& !test_file_beside(p, files)
            },
    decreases changed.len(),
{
    if changed.len() > 0 {
        lemma_untested_have_no_test_beside(changed.drop_last(), baseline, files);
        let p = changed.last();
        let prev = untested_new_files(changed.drop_last(), baseline, files);
        if has_file(files, p) && !baseline.contains(p) && is_production_source(p) && !has_sibling_test(p, files) {
            lemma_source_name_nonempty(p);
            let c = sibling_candidates(p);
            assert forall|k: int| 0 <= k < 14 implies !has_file(files, #[trigger] c[k]) by {}
            assert(!has_file(files, c[0]) && !has_file(files, c[1]) && !has_file(files, c[2]) && !has_file(files, c[3]));
            assert(!has_file(files, c[4]) && !has_file(files, c[5]) && !has_file(files, c[6]) && !has_file(files, c[7]));
            assert(!has_file(files, c[8]) && !has_file(files, c[9]) && !has_file(files, c[10]) && !has_file(files, c[11]));
            assert(!has_file(files, c[12]) && !has_file(files, c[13]));
            let dir = parent_of(p) + "/"@;
            let stem = stem_of_name(file_name_of(p));
            assert(dir + stem == parent_of(p) + "/"@ + stem);
            assert(!test_file_beside(p, files));
            assert(untested_new_files(changed, baseline, files) == prev.push(p));
        }
    }
}

/// The changed files that are new, scanned production sources without a
/// sibling test, in their given order.
pub open spec fn untested_new_files(changed: Seq<Text>, baseline: Seq<Text>, files: Seq<FileNode>) -> Seq<Text>
    decreases changed.len(),
{
    if changed.len() == 0 {
        Seq::empty()
    } else {
        let prev = untested_new_files(changed.drop_last(), baseline, files);
        let p = changed.last();
        if has_file(files, p) && !baseline.contains(p) && is_production_source(p) && !has_sibling_test(p, files) {
            prev.push(p)
        } else {
            prev
        }
    }
}

/// The paths whose directory is `dir`, in order.
pub open spec fn in_dir(paths: Seq<Text>, dir: Text) -> Seq<Text>
    decreases paths.len(),
{
    if paths.len() == 0 {
        Seq::empty()
    } else {
        let prev = in_dir(paths.drop_last(), dir);
        if parent_of(paths.last()) == dir {
            prev.push(paths.last())
        } else {
            prev
        }
    }
}

/// The concept, summary and files of a test-gap finding.
pub type TestGapShape = (Text, Text, Seq<Text>);

/// The findings of one directory: one grouped finding for more than three
/// files, else one per file.
pub open spec fn dir_shapes(dir: Text, files: Seq<Text>) -> Seq<TestGapShape> {
    if files.len() > 3 {
        seq![(dir, dec(files.len()) + " new production files in "@ + dir + " do not have sibling tests"@, files)]
    } else {
        files.map_values(|p: Text| (p, "New production file "@ + p + " does not have a sibling test"@, seq![p]))
    }
}

/// The findings of the directories, directory by directory.
pub open spec fn shapes_over(dirs: Seq<Text>, missing: Seq<Text>) -> Seq<TestGapShape>
    decreases dirs.len(),
{
    if dirs.len() == 0 {
        Seq::empty()
    } else {
        shapes_over(dirs.drop_last(), missing) + dir_shapes(dirs.last(), in_dir(missing, dirs.last()))
    }
}

proof fn lemma_untested_from_changed(changed: Seq<Text>, baseline: Seq<Text>, files: Seq<FileNode>)
    ensures
        forall|m: int|
            0 <= m < untested_new_files(changed, baseline, files).len() ==> changed.contains(
                #[trigger] untested_new_files(changed, baseline, files)[m],
            ),
        strictly_sorted(changed) ==> strictly_sorted(untested_new_files(changed, baseline, files)),
    decreases changed.len(),
{
    if changed.len() > 0 {
        let rest = changed.drop_last();
        lemma_untested_from_changed(rest, baseline, files);
        let prev = untested_new_files(rest, baseline, files);
        assert forall|m: int| 0 <= m < prev.len() implies changed.contains(#[trigger] prev[m]) by {
            let q = choose|q: int| 0 <= q < rest.len() && rest[q] == prev[m];
            assert(changed[q] == rest[q]);
        }
        if strictly_sorted(changed) {
            assert(strictly_sorted(rest)) by {
                assert forall|i: int, j: int| 0 <= i < j < rest.len() implies lex_lt(#[trigger] rest[i], #[trigger] rest[j]) by {
                    assert(rest[i] == changed[i] && rest[j] == changed[j]);
                }
            }
            assert forall|m: int| 0 <= m < prev.len() implies lex_lt(#[trigger] prev[m], changed.last()) by {
                let q = choose|q: int| 0 <= q < rest.len() && rest[q] == prev[m];
                assert(changed[q] == rest[q]);
                assert(changed[changed.len() - 1] == changed.last());
            }
        }
    }
}

proof fn lemma_in_dir(paths: Seq<Text>, dir: Text)
    ensures
        forall|m: int|
            0 <= m < in_dir(paths, dir).len() ==> paths.contains(#[trigger] in_dir(paths, dir)[m]) && parent_of(
                in_dir(paths, dir)[m],
            ) == dir,
        forall|p: Text| paths.contains(p) && parent_of(p) == dir ==> #[trigger] in_dir(paths, dir).contains(p),
        strictly_sorted(paths) ==> strictly_sorted(in_dir(paths, dir)),
    decreases paths.len(),
{
    if paths.len() > 0 {
        let rest = paths.drop_last();
        lemma_in_dir(rest, dir);
        let prev = in_dir(rest, dir);
        let now = in_dir(paths, dir);
        assert forall|m: int| 0 <= m < prev.len() implies paths.contains(#[trigger] prev[m]) by {
            let q = choose|q: int| 0 <= q < rest.len() && rest[q] == prev[m];
            assert(paths[q] == rest[q]);
        }
        assert forall|p: Text| paths.contains(p) && parent_of(p) == dir implies #[trigger] now.contains(p) by {
            let q = choose|q: int| 0 <= q < paths.len() && paths[q] == p;
            if q < paths.len() - 1 {
                assert(rest[q] == p);
                assert(rest.contains(p));
                assert(prev.contains(p));
                let w = choose|w: int| 0 <= w < prev.len() && prev[w] == p;
                if parent_of(paths.last()) == dir {
                    assert(now[w] == p);
                }
            } else {
                assert(now[now.len() - 1] == p);
            }
        }
        if strictly_sorted(paths) {
            assert(strictly_sorted(rest)) by {
                assert forall|i: int, j: int| 0 <= i < j < rest.len() implies lex_lt(#[trigger] rest[i], #[trigger] rest[j]) by {
                    assert(rest[i] == paths[i] && rest[j] == paths[j]);
                }
            }
            assert forall|m: int| 0 <= m < prev.len() implies lex_lt(#[trigger] prev[m], paths.last()) by {
                let q = choose|q: int| 0 <= q < rest.len() && rest[q] == prev[m];
                assert(paths[q] == rest[q]);
                assert(paths[paths.len() - 1] == paths.last());
            }
        }
    }
}

/// The files of the shapes of one directory: each shape has some, all of
/// them from `files`; every file of `files` is in some shape; and where
/// `files` has no repeats, no file is in two shapes.
proof fn lemma_dir_shapes(dir: Text, files: Seq<Text>)
    ensures
        forall|k: int| 0 <= k < dir_shapes(dir, files).len() ==> (#[trigger] dir_shapes(dir, files)[k]).2.len() > 0,
        forall|k: int, m: int|
            0 <= k < dir_shapes(dir, files).len() && 0 <= m < dir_shapes(dir, files)[k].2.len() ==> files.contains(
                #[trigger] dir_shapes(dir, files)[k].2[m],
            ),
        forall|p: Text|
            files.contains(p) ==> exists|k: int, m: int|
                0 <= k < dir_shapes(dir, files).len() && 0 <= m < dir_shapes(dir, files)[k].2.len() && #[trigger] dir_shapes(
                    dir,
                    files,
                )[k].2[m] == p,
        strictly_sorted(files) ==> forall|k1: int, k2: int, m1: int, m2: int|
            0 <= k1 < k2 < dir_shapes(dir, files).len() && 0 <= m1 < dir_shapes(dir, files)[k1].2.len() && 0 <= m2
                < dir_shapes(dir, files)[k2].2.len() ==> #[trigger] dir_shapes(dir, files)[k1].2[m1]
                != #[trigger] dir_shapes(dir, files)[k2].2[m2],
{
    let sh = dir_shapes(dir, files);
    if files.len() <= 3 {
        assert forall|p: Text| files.contains(p) implies exists|k: int, m: int|
            0 <= k < sh.len() && 0 <= m < sh[k].2.len() && #[trigger] sh[k].2[m] == p by {
            let q = choose|q: int| 0 <= q < files.len() && files[q] == p;
            assert(sh[q].2[0] == p);
        }
        assert forall|k: int, m: int| 0 <= k < sh.len() && 0 <= m < sh[k].2.len() implies files.contains(
            #[trigger] sh[k].2[m],
        ) by {
            assert(sh[k].2[m] == files[k]);
        }
        if strictly_sorted(files) {
            assert forall|k1: int, k2: int, m1: int, m2: int|
                0 <= k1 < k2 < sh.len() && 0 <= m1 < sh[k1].2.len() && 0 <= m2 < sh[k2].2.len() implies #[trigger] sh[k1].2[m1]
                != #[trigger] sh[k2].2[m2] by {
                assert(sh[k1].2[m1] == files[k1] && sh[k2].2[m2] == files[k2]);
                crate::order::lemma_lex_irreflexive(files[k1]);
            }
        }
    } else {
        assert forall|p: Text| files.contains(p) implies exists|k: int, m: int|
            0 <= k < sh.len() && 0 <= m < sh[k].2.len() && #[trigger] sh[k].2[m] == p by {
            let q = choose|q: int| 0 <= q < files.len() && files[q] == p;
            assert(sh[0].2[q] == p);
        }
    }
}

/// Each shape has files, all untested and from one listed directory.
pub open spec fn shapes_grouped(shapes: Seq<TestGapShape>, dirs: Seq<Text>, missing: Seq<Text>) -> bool {
    &&& forall|k: int| 0 <= k < shapes.len() ==> (#[trigger] shapes[k]).2.len() > 0 && dirs.contains(parent_of(shapes[k].2[0]))
    &&& forall|k: int, m: int|
        0 <= k < shapes.len() && 0 <= m < shapes[k].2.len() ==> missing.contains(#[trigger] shapes[k].2[m]) && parent_of(
            shapes[k].2[m],
        ) == parent_of(shapes[k].2[0])
}

/// Every untested file of a listed directory is in some shape.
pub open spec fn shapes_cover(shapes: Seq<TestGapShape>, dirs: Seq<Text>, missing: Seq<Text>) -> bool {
    forall|p: Text|
        missing.contains(p) && dirs.contains(parent_of(p)) ==> exists|k: int, m: int|
            0 <= k < shapes.len() && 0 <= m < shapes[k].2.len() && #[trigger] shapes[k].2[m] == p
}

/// No file is in two shapes.
pub open spec fn shapes_disjoint(shapes: Seq<TestGapShape>) -> bool {
    forall|k1: int, k2: int, m1: int, m2: int|
        0 <= k1 < k2 < shapes.len() && 0 <= m1 < shapes[k1].2.len() && 0 <= m2 < shapes[k2].2.len() ==> #[trigger] shapes[k1].2[m1]
            != #[trigger] shapes[k2].2[m2]
}

proof fn lemma_sorted_rest(dirs: Seq<Text>)
    requires
        strictly_sorted(dirs),
        dirs.len() > 0,
    ensures
        strictly_sorted(dirs.drop_last()),
        forall|q: int| 0 <= q < dirs.len() - 1 ==> #[trigger] dirs.drop_last()[q] != dirs.last(),
{
    let rest = dirs.drop_last();
    assert forall|i: int, j: int| 0 <= i < j < rest.len() implies lex_lt(#[trigger] rest[i], #[trigger] rest[j]) by {
        assert(rest[i] == dirs[i] && rest[j] == dirs[j]);
    }
    assert forall|q: int| 0 <= q < dirs.len() - 1 implies #[trigger] rest[q] != dirs.last() by {
        assert(rest[q] == dirs[q]);
        assert(lex_lt(dirs[q], dirs[dirs.len() - 1]));
        crate::order::lemma_lex_irreflexive(dirs.last());
    }
}

proof fn lemma_shapes_grouped(dirs: Seq<Text>, missing: Seq<Text>)
    ensures
        shapes_grouped(shapes_over(dirs, missing), dirs, missing),
    decreases dirs.len(),
{
    if dirs.len() > 0 {
        let rest = dirs.drop_last();
        let d = dirs.last();
        lemma_shapes_grouped(rest, missing);
        let files = in_dir(missing, d);
        lemma_in_dir(missing, d);
        lemma_dir_shapes(d, files);
        let a = shapes_over(rest, missing);
        let b = dir_shapes(d, files);
        let all = shapes_over(dirs, missing);
        assert(all == a + b);
        assert(dirs[dirs.len() - 1] == d);
        assert forall|k: int| 0 <= k < all.len() implies (#[trigger] all[k]).2.len() > 0 && dirs.contains(
            parent_of(all[k].2[0]),
        ) by {
            if k < a.len() {
                assert(all[k] == a[k]);
                let q = choose|q: int| 0 <= q < rest.len() && rest[q] == parent_of(a[k].2[0]);
                assert(dirs[q] == rest[q]);
            } else {
                assert(all[k] == b[k - a.len()]);
                assert(files.contains(b[k - a.len()].2[0]));
            }
        }
        assert forall|k: int, m: int| 0 <= k < all.len() && 0 <= m < all[k].2.len() implies missing.contains(
            #[trigger] all[k].2[m],
        ) && parent_of(all[k].2[m]) == parent_of(all[k].2[0]) by {
            if k < a.len() {
                assert(all[k] == a[k]);
            } else {
                let bk = b[k - a.len()];
                assert(all[k] == bk);
                assert(files.contains(bk.2[m]));
                assert(files.contains(bk.2[0]));
            }
        }
    }
}

proof fn lemma_shapes_cover(dirs: Seq<Text>, missing: Seq<Text>)
    ensures
        shapes_cover(shapes_over(dirs, missing), dirs, missing),
    decreases dirs.len(),
{
    if dirs.len() > 0 {
        let rest = dirs.drop_last();
        let d = dirs.last();
        lemma_shapes_cover(rest, missing);
        let files = in_dir(missing, d);
        lemma_in_dir(missing, d);
        lemma_dir_shapes(d, files);
        let a = shapes_over(rest, missing);
        let b = dir_shapes(d, files);
        let all = shapes_over(dirs, missing);
        assert(all == a + b);
        assert forall|p: Text| missing.contains(p) && dirs.contains(parent_of(p)) implies exists|k: int, m: int|
            0 <= k < all.len() && 0 <= m < all[k].2.len() && #[trigger] all[k].2[m] == p by {
            if parent_of(p) == d {
                assert(files.contains(p));
                let (k, m) = choose|k: int, m: int| 0 <= k < b.len() && 0 <= m < b[k].2.len() && #[trigger] b[k].2[m] == p;
                assert(all[a.len() + k] == b[k]);
            } else {
                let q = choose|q: int| 0 <= q < dirs.len() && dirs[q] == parent_of(p);
                assert(q != dirs.len() - 1);
                assert(rest[q] == dirs[q]);
                assert(rest.contains(parent_of(p)));
                let (k, m) = choose|k: int, m: int| 0 <= k < a.len() && 0 <= m < a[k].2.len() && #[trigger] a[k].2[m] == p;
                assert(all[k] == a[k]);
            }
        }
    }
}

proof fn lemma_shapes_disjoint(dirs: Seq<Text>, missing: Seq<Text>)
    requires
        strictly_sorted(dirs),
        strictly_sorted(missing),
    ensures
        shapes_disjoint(shapes_over(dirs, missing)),
    decreases dirs.len(),
{
    if dirs.len() > 0 {
        let rest = dirs.drop_last();
        let d = dirs.last();
        lemma_sorted_rest(dirs);
        lemma_shapes_disjoint(rest, missing);
        lemma_shapes_grouped(rest, missing);
        let files = in_dir(missing, d);
        lemma_in_dir(missing, d);
        lemma_dir_shapes(d, files);
        let a = shapes_over(rest, missing);
        let b = dir_shapes(d, files);
        let all = shapes_over(dirs, missing);
        assert(all == a + b);
        assert forall|k1: int, k2: int, m1: int, m2: int|
            0 <= k1 < k2 < all.len() && 0 <= m1 < all[k1].2.len() && 0 <= m2 < all[k2].2.len() implies #[trigger] all[k1].2[m1]
            != #[trigger] all[k2].2[m2] by {
            if k2 < a.len() {
                assert(all[k1] == a[k1] && all[k2] == a[k2]);
            } else if k1 >= a.len() {
                assert(all[k1] == b[k1 - a.len()] && all[k2] == b[k2 - a.len()]);
            } else {
                assert(all[k1] == a[k1] && all[k2] == b[k2 - a.len()]);
                let bk = b[k2 - a.len()];
                assert(files.contains(bk.2[m2]));
                assert(parent_of(bk.2[m2]) == d);
                let q = choose|q: int| 0 <= q < rest.len() && rest[q] == parent_of(a[k1].2[0]);
                assert(parent_of(a[k1].2[m1]) == rest[q]);
            }
        }
    }
}

/// The shapes of the directories split the untested files: each shape's
/// files are untested files of one listed directory, every untested file of
/// a listed directory is in some shape, and no file is in two shapes.
pub proof fn lemma_shapes_partition(dirs: Seq<Text>, missing: Seq<Text>)
    requires
        strictly_sorted(dirs),
        strictly_sorted(missing),
    ensures
        shapes_grouped(shapes_over(dirs, missing), dirs, missing),
        shapes_cover(shapes_over(dirs, missing), dirs, missing),
        shapes_disjoint(shapes_over(dirs, missing)),
{
    lemma_shapes_grouped(dirs, missing);
    lemma_shapes_cover(dirs, missing);
    lemma_shapes_disjoint(dirs, missing);
}

/// The findings split the untested files by directory: each finding names
/// untested files of one directory, every untested file is named by some
/// finding, and no file by two.
pub open spec fn gap_files_partition(r: Seq<SemanticFinding>, missing: Seq<Text>) -> bool {
    &&& forall|k: int| 0 <= k < r.len() ==> (#[trigger] r[k]).files.deep_view().len() > 0
    &&& forall|k: int, m: int|
        0 <= k < r.len() && 0 <= m < r[k].files.deep_view().len() ==> missing.contains(#[trigger] r[k].files.deep_view()[m])
            && parent_of(r[k].files.deep_view()[m]) == parent_of(r[k].files.deep_view()[0])
    &&& forall|p: Text|
        missing.contains(p) ==> exists|k: int, m: int|
            0 <= k < r.len() && 0 <= m < r[k].files.deep_view().len() && #[trigger] r[k].files.deep_view()[m] == p
    &&& forall|k1: int, k2: int, m1: int, m2: int|
        0 <= k1 < k2 < r.len() && 0 <= m1 < r[k1].files.deep_view().len() && 0 <= m2 < r[k2].files.deep_view().len()
            ==> #[trigger] r[k1].files.deep_view()[m1] != #[trigger] r[k2].files.deep_view()[m2]
}

/// The shapes of the findings.
pub open spec fn gap_shapes(r: Seq<SemanticFinding>) -> Seq<TestGapShape> {
    r.map_values(|f: SemanticFinding| gap_shape(f))
}

proof fn lemma_gap_partition(r: Seq<SemanticFinding>, dirs: Seq<Text>, missing: Seq<Text>)
    requires
        gap_shapes(r) == shapes_over(dirs, missing),
        strictly_sorted(dirs),
        strictly_sorted(missing),
        forall|p: Text| missing.contains(p) ==> dirs.contains(parent_of(p)),
    ensures
        gap_files_partition(r, missing),
{
    let shapes = gap_shapes(r);
    assert forall|k: int| 0 <= k < r.len() implies #[trigger] r[k].files.deep_view() == shapes[k].2 by {}
    assert forall|p: Text| missing.contains(p) implies exists|k: int, m: int|
        0 <= k < r.len() && 0 <= m < r[k].files.deep_view().len() && #[trigger] r[k].files.deep_view()[m] == p by {
        lemma_shapes_cover(dirs, missing);
        assert(shapes_cover(shapes, dirs, missing));
        assert(dirs.contains(parent_of(p)));
        let (k, m) = choose|k: int, m: int| 0 <= k < shapes.len() && 0 <= m < shapes[k].2.len() && #[trigger] shapes[k].2[m] == p;
        assert(r[k].files.deep_view() == shapes[k].2);
    }
    assert forall|k1: int, k2: int, m1: int, m2: int|
        0 <= k1 < k2 < r.len() && 0 <= m1 < r[k1].files.deep_view().len() && 0 <= m2 < r[k2].files.deep_view().len()
            implies #[trigger] r[k1].files.deep_view()[m1] != #[trigger] r[k2].files.deep_view()[m2] by {
        lemma_shapes_disjoint(dirs, missing);
        assert(shapes_disjoint(shapes));
        assert(r[k1].files.deep_view() == shapes[k1].2);
        assert(r[k2].files.deep_view() == shapes[k2].2);
        assert(shapes[k1].2[m1] != shapes[k2].2[m2]);
    }
    assert forall|k: int| 0 <= k < r.len() implies (#[trigger] r[k]).files.deep_view().len() > 0 by {
        lemma_shapes_grouped(dirs, missing);
        assert(shapes_grouped(shapes, dirs, missing));
        assert(r[k].files.deep_view() == shapes[k].2);
        assert(shapes[k].2.len() > 0);
    }
    assert forall|k: int, m: int| 0 <= k < r.len() && 0 <= m < r[k].files.deep_view().len() implies missing.contains(
        #[trigger] r[k].files.deep_view()[m],
    ) && parent_of(r[k].files.deep_view()[m]) == parent_of(r[k].files.deep_view()[0]) by {
        lemma_shapes_grouped(dirs, missing);
        assert(shapes_grouped(shapes, dirs, missing));
        assert(r[k].files.deep_view() == shapes[k].2);
        assert(missing.contains(shapes[k].2[m]));
    }
}

/// The shape of a finding.
pub open spec fn gap_shape(f: SemanticFinding) -> TestGapShape {
    (f.concept_id@, f.summary@, f.files.deep_view())
}

/// Every finding is a low-severity test-gap finding whose evidence is its files.
pub open spec fn is_test_gap_finding(f: SemanticFinding) -> bool {
    &&& f.kind@ == "missing_test_coverage"@
    &&& f.severity == FindingSeverity::Low
    &&& f.evidence.deep_view() == f.files.deep_view()
}

fn is_production_source_path(path: &str) -> (r: bool)
    ensures
        r == is_production_source(path@),
{
    if is_test_file(path) {
        return false;
    }
    let name = file_name(path);
    let e = file_extension(name.as_str());
    let ext = e.as_str();
    let source = text_eq(ext, "ts") || text_eq(ext, "tsx") || text_eq(ext, "js") || text_eq(ext, "jsx")
        || text_eq(ext, "mjs") || text_eq(ext, "cjs") || text_eq(ext, "rs") || text_eq(ext, "java")
        || text_eq(ext, "kt") || text_eq(ext, "py");
    source && (starts_with(path, "src/") || starts_with(path, "app/") || starts_with(path, "lib/"))
}

fn joined(a: &str, b: &str, c: &str, d: &str) -> (r: String)
    ensures
        r@ == a@ + b@ + c@ + d@,
{
    let mut r = a.to_string();
    r.append(b);
    r.append(c);
    r.append(d);
    r
}

fn candidate_list(path: &str) -> (r: Vec<String>)
    ensures
        r.deep_view() == sibling_candidates(path@),
{
    let parent = parent_dir(path);
    let name = file_name(path);
    let stem = file_stem(name.as_str());
    let ext = file_extension(name.as_str());
    let p = parent.as_str();
    let s = stem.as_str();
    let e = ext.as_str();
    let base = joined(p, "/", s, "");
    let nested = joined(p, "/__tests__/", s, "");
    let b = base.as_str();
    let n = nested.as_str();
    let mut r: Vec<String> = Vec::new();
    push_line(&mut r, joined(b, ".test.", e, ""));
    push_line(&mut r, joined(b, ".spec.", e, ""));
    push_line(&mut r, joined(n, ".test.", e, ""));
    push_line(&mut r, joined(n, ".spec.", e, ""));
    push_line(&mut r, joined(b, "Test.", e, ""));
    push_line(&mut r, joined(b, ".test.ts", "", ""));
    push_line(&mut r, joined(b, ".spec.ts", "", ""));
    push_line(&mut r, joined(b, ".test.tsx", "", ""));
    push_line(&mut r, joined(b, ".spec.tsx", "", ""));
    push_line(&mut r, joined(b, ".test.js", "", ""));
    push_line(&mut r, joined(b, ".spec.js", "", ""));
    push_line(&mut r, joined(b, ".test.jsx", "", ""));
    push_line(&mut r, joined(b, ".spec.jsx", "", ""));
    push_line(&mut r, joined(b, "Test.java", "", ""));
    proof {
        reveal_strlit("");
    }
    assert(r.deep_view() =~~= sibling_candidates(path@));
    r
}

fn has_plausible_sibling_test(path: &str, files: &Vec<FileNode>) -> (r: bool)
    ensures
        r == has_sibling_test(path@, files@),
{
    if is_test_file(path) {
        return true;
    }
    let name = file_name(path);
    if char_len(name.as_str()) == 0 {
        assert(!is_test_path(path@));
        return false;
    }
    let candidates = candidate_list(path);
    let ghost c = sibling_candidates(path@);
    assert(file_name_of(path@).len() > 0);
    let mut k: usize = 0;
    while k < candidates.len()
        invariant
            candidates.deep_view() == c,
            c == sibling_candidates(path@),
            file_name_of(path@).len() > 0,
            !is_test_path(path@),
            c.len() == 14,
            k <= 14,
            forall|j: int| 0 <= j < k ==> !has_file(files@, #[trigger] c[j]),
        decreases 14 - k,
    {
        assert(candidates.deep_view()[k as int] == candidates@[k as int]@);
        if snapshot_has_file(files, candidates[k].as_str()) {
            assert(has_file(files@, sibling_candidates(path@)[k as int]));
            assert(file_name_of(path@).len() > 0);
            return true;
        }
        k = k + 1;
    }
    assert(forall|j: int| 0 <= j < 14 ==> !has_file(files@, #[trigger] sibling_candidates(path@)[j]));
    false
}

fn untested_files(changed: &Vec<String>, baseline: &Vec<String>, files: &Vec<FileNode>) -> (r: Vec<String>)
    ensures
        r.deep_view() == untested_new_files(changed.deep_view(), baseline.deep_view(), files@),
{
    let ghost cv = changed.deep_view();
    let mut r: Vec<String> = Vec::new();
    let mut i: usize = 0;
    while i < changed.len()
        invariant
            cv == changed.deep_view(),
            i <= cv.len(),
            r.deep_view() == untested_new_files(cv.take(i as int), baseline.deep_view(), files@),
        decreases cv.len() - i,
    {
        assert(cv.take(i + 1).drop_last() =~= cv.take(i as int));
        assert(cv.take(i + 1).last() == changed@[i as int]@);
        let p = changed[i].as_str();
        if snapshot_has_file(files, p) && !texts_contain(baseline, p) && is_production_source_path(p)
            && !has_plausible_sibling_test(p, files) {
            push_line(&mut r, changed[i].clone());
        }
        i = i + 1;
    }
    assert(cv.take(cv.len() as int) =~= cv);
    r
}

fn files_in_dir(paths: &Vec<String>, dir: &str) -> (r: Vec<String>)
    ensures
        r.deep_view() == in_dir(paths.deep_view(), dir@),
{
    let ghost pv = paths.deep_view();
    let mut r: Vec<String> = Vec::new();
    let mut i: usize = 0;
    while i < paths.len()
        invariant
            pv == paths.deep_view(),
            i <= pv.len(),
            r.deep_view() == in_dir(pv.take(i as int), dir@),
        decreases pv.len() - i,
    {
        assert(pv.take(i + 1).drop_last() =~= pv.take(i as int));
        assert(pv.take(i + 1).last() == paths@[i as int]@);
        let parent = parent_dir(paths[i].as_str());
        if text_eq(parent.as_str(), dir) {
            push_line(&mut r, paths[i].clone());
        }
        i = i + 1;
    }
    assert(pv.take(pv.len() as int) =~= pv);
    r
}

fn parents_of(paths: &Vec<String>) -> (r: Vec<String>)
    ensures
        r.deep_view() == paths.deep_view().map_values(|p: Text| parent_of(p)),
{
    let ghost expected = paths.deep_view().map_values(|p: Text| parent_of(p));
    let mut r: Vec<String> = Vec::new();
    let mut i: usize = 0;
    while i < paths.len()
        invariant
            expected == paths.deep_view().map_values(|p: Text| parent_of(p)),
            i <= paths@.len(),
            r.deep_view() == expected.take(i as int),
        decreases paths@.len() - i,
    {
        push_line(&mut r, parent_dir(paths[i].as_str()));
        i = i + 1;
        assert(r.deep_view() =~= expected.take(i as int));
    }
    assert(expected.take(paths@.len() as int) =~= expected);
    r
}

fn gap_finding(concept: String, summary: String, files: Vec<String>) -> (f: SemanticFinding)
    ensures
        gap_shape(f) == (concept@, summary@, files.deep_view()),
        is_test_gap_finding(f),
{
    let evidence = crate::clone_groups::copy_strings(&files);
    assert(evidence.deep_view() =~= files.deep_view());
    SemanticFinding {
        kind: "missing_test_coverage".to_string(),
        severity: FindingSeverity::Low,
        concept_id: concept,
        summary,
        files,
        evidence,
    }
}

fn push_finding(findings: &mut Vec<SemanticFinding>, f: SemanticFinding)
    ensures
        final(findings)@ == old(findings)@.push(f),
{
    findings.push(f);
}

/// Findings for the new production files among `changed_files` that the scan
/// holds, that `baseline_files` did not, and that have no sibling test. Files
/// are grouped by directory, directories in increasing order; a directory with
/// more than three such files yields one grouped finding, others one finding
/// per file. Nothing is reported when either list is empty.
pub fn build_missing_test_findings(snapshot_files: &Vec<FileNode>, changed_files: &Vec<String>, baseline_files: &Vec<String>) -> (r:
    Vec<SemanticFinding>)
    requires
        strictly_sorted(changed_files.deep_view()),
    ensures
        (changed_files@.len() == 0 || baseline_files@.len() == 0) ==> r@.len() == 0,
        (changed_files@.len() > 0 && baseline_files@.len() > 0) ==> {
            let missing = untested_new_files(changed_files.deep_view(), baseline_files.deep_view(), snapshot_files@);
            exists|dirs: Seq<Text>|
                #![trigger shapes_over(dirs, missing)]
                strictly_sorted(dirs) && dirs.to_set() == missing.map_values(|p: Text| parent_of(p)).to_set()
                    && r@.map_values(|f: SemanticFinding| gap_shape(f)) == shapes_over(dirs, missing)
        },
        forall|k: int| 0 <= k < r@.len() ==> is_test_gap_finding(#[trigger] r@[k]),
        (changed_files@.len() > 0 && baseline_files@.len() > 0) ==> gap_files_partition(
            r@,
            untested_new_files(changed_files.deep_view(), baseline_files.deep_view(), snapshot_files@),
        ),
        forall|k: int, m: int|
            0 <= k < r@.len() && 0 <= m < r@[k].files.deep_view().len() ==> {
                let p = #[trigger] r@[k].files.deep_view()[m];
                &&& changed_files.deep_view().contains(p)
                &&& has_file(snapshot_files@, p)
                &&& !baseline_files.deep_view().contains(p)
                &&& !is_test_path(p)
                &&& !test_file_beside(p, snapshot_files@)
            },
        (changed_files@.len() > 0 && baseline_files@.len() > 0) ==> forall|p: Text|
            changed_files.deep_view().contains(p) && has_file(snapshot_files@, p) && !baseline_files.deep_view().contains(p)
                && is_production_source(p) && !test_file_beside(p, snapshot_files@) ==> exists|k: int, m: int|
                0 <= k < r@.len() && 0 <= m < r@[k].files.deep_view().len() && #[trigger] r@[k].files.deep_view()[m] == p,
{
    let mut findings: Vec<SemanticFinding> = Vec::new();
    if changed_files.len() == 0 || baseline_files.len() == 0 {
        return findings;
    }
    let missing = untested_files(changed_files, baseline_files, snapshot_files);
    let ghost mv = missing.deep_view();
    let parents = parents_of(&missing);
    let dirs = sorted_unique(&parents);
    let ghost dv = dirs.deep_view();
    let mut d: usize = 0;
    while d < dirs.len()
        invariant
            dv == dirs.deep_view(),
            mv == missing.deep_view(),
            d <= dv.len(),
            findings@.map_values(|f: SemanticFinding| gap_shape(f)) == shapes_over(dv.take(d as int), mv),
            forall|k: int| 0 <= k < findings@.len() ==> is_test_gap_finding(#[trigger] findings@[k]),
        decreases dv.len() - d,
    {
        assert(dv.take(d + 1).drop_last() =~= dv.take(d as int));
        let dir = dirs[d].as_str();
        assert(dv.take(d + 1).last() == dir@);
        let files = files_in_dir(&missing, dir);
        let ghost fv = files.deep_view();
        let ghost before = findings@;
        if files.len() > 3 {
            let mut summary = number_phrase(files.len() as u64, " new production files in ");
            summary.append(dir);
            summary.append(" do not have sibling tests");
            let f = gap_finding(dirs[d].clone(), summary, files);
            push_finding(&mut findings, f);
            assert(findings@.map_values(|f: SemanticFinding| gap_shape(f)) =~= before.map_values(
                |f: SemanticFinding| gap_shape(f),
            ) + dir_shapes(dir@, fv));
        } else {
            let ghost expected = dir_shapes(dir@, fv);
            let mut k: usize = 0;
            while k < files.len()
                invariant
                    fv == files.deep_view(),
                    fv.len() <= 3,
                    expected == dir_shapes(dir@, fv),
                    k <= fv.len(),
                    findings@.len() == before.len() + k,
                    forall|j: int| 0 <= j < before.len() ==> #[trigger] findings@[j] == before[j],
                    forall|j: int| 0 <= j < k ==> gap_shape(#[trigger] findings@[before.len() + j]) == expected[j],
                    forall|j: int| 0 <= j < findings@.len() ==> is_test_gap_finding(#[trigger] findings@[j]),
                    forall|j: int| 0 <= j < before.len() ==> is_test_gap_finding(#[trigger] before[j]),
                decreases fv.len() - k,
            {
                let p = files[k].as_str();
                let mut summary = "New production file ".to_string();
                summary.append(p);
                summary.append(" does not have a sibling test");
                let mut one: Vec<String> = Vec::new();
                push_line(&mut one, files[k].clone());
                assert(one.deep_view() =~= seq![fv[k as int]]);
                let f = gap_finding(files[k].clone(), summary, one);
                push_finding(&mut findings, f);
                k = k + 1;
            }
            let ghost lhs = findings@.map_values(|f: SemanticFinding| gap_shape(f));
            let ghost rhs = before.map_values(|f: SemanticFinding| gap_shape(f)) + expected;
            assert forall|j: int| 0 <= j < lhs.len() implies lhs[j] == rhs[j] by {
                if j >= before.len() {
                    assert(gap_shape(findings@[before.len() + (j - before.len())]) == expected[j - before.len()]);
                }
            }
            assert(lhs =~= rhs);
        }
        d = d + 1;
    }
    assert(dv.take(dv.len() as int) =~= dv);
    proof {
        lemma_untested_from_changed(changed_files.deep_view(), baseline_files.deep_view(), snapshot_files@);
        assert forall|p: Text| mv.contains(p) implies dv.contains(parent_of(p)) by {
            let q = choose|q: int| 0 <= q < mv.len() && mv[q] == p;
            assert(parents.deep_view()[q] == parent_of(p));
            assert(parents.deep_view().to_set().contains(parent_of(p)));
            assert(dv.to_set().contains(parent_of(p)));
        }
        assert(findings@.map_values(|f: SemanticFinding| gap_shape(f)) =~= gap_shapes(findings@));
        lemma_gap_partition(findings@, dv, mv);
        lemma_untested_have_no_test_beside(changed_files.deep_view(), baseline_files.deep_view(), snapshot_files@);
        assert forall|k: int, m: int| 0 <= k < findings@.len() && 0 <= m < findings@[k].files.deep_view().len() implies {
            let p = #[trigger] findings@[k].files.deep_view()[m];
            &&& changed_files.deep_view().contains(p)
            &&& has_file(snapshot_files@, p)
            &&& !baseline_files.deep_view().contains(p)
            &&& !is_test_path(p)
            &&& !test_file_beside(p, snapshot_files@)
        } by {
            let p = findings@[k].files.deep_view()[m];
            assert(mv.contains(p));
            let q = choose|q: int| 0 <= q < mv.len() && mv[q] == p;
            assert(mv[q] == untested_new_files(changed_files.deep_view(), baseline_files.deep_view(), snapshot_files@)[q]);
        }
        assert forall|p: Text|
            changed_files.deep_view().contains(p) && has_file(snapshot_files@, p) && !baseline_files.deep_view().contains(p)
                && is_production_source(p) && !test_file_beside(p, snapshot_files@) implies exists|k: int, m: int|
                0 <= k < findings@.len() && 0 <= m < findings@[k].files.deep_view().len()
                    && #[trigger] findings@[k].files.deep_view()[m] == p by {
            lemma_source_name_nonempty(p);
            lemma_sibling_test_iff(p, snapshot_files@);
            lemma_untested_contains(changed_files.deep_view(), baseline_files.deep_view(), snapshot_files@, p);
        }
    }
    findings
}

} // verus!
