//! Scores of the structural reports, all on a 0..=10000 scale, and the
//! severity a score maps to. Ratios are rounded half away from zero.
use crate::structural::utils::{has_role_tag, has_tag};
use crate::structural::CycleCutCandidate;
use crate::text::Text;
use crate::FindingSeverity;
use vstd::prelude::*;

verus! {

/// `num / den * scale`, rounded half away from zero (`den > 0`).
pub open spec fn rounded_ratio(num: nat, den: nat, scale: nat) -> nat {
    (2 * (num * scale) + den) / (2 * den)
}

fn rounded_ratio_exec(num: usize, den: usize, scale: u32) -> (r: u128)
    requires
        den > 0,
    ensures
        r == rounded_ratio(num as nat, den as nat, scale as nat),
{
    let n = num as u128;
    let d = den as u128;
    let s = scale as u128;
    assert(n * s <= 0xffff_ffff_ffff_ffffu128 * 0xffff_ffffu128) by (nonlinear_arith)
        requires
            n <= 0xffff_ffff_ffff_ffffu128,
            s <= 0xffff_ffffu128,
    ;
    (2 * (n * s) + d) / (2 * d)
}

/// How far `value` exceeds `threshold`, relative to the threshold and capped
/// at one, scaled to `max_bonus`; nothing at or below the threshold.
pub open spec fn scaled_pressure(value: nat, threshold: nat, max_bonus: nat) -> nat {
    if threshold == 0 || value <= threshold {
        0
    } else if value - threshold >= threshold {
        max_bonus
    } else {
        rounded_ratio((value - threshold) as nat, threshold, max_bonus)
    }
}

fn scaled_ratio_pressure(value: usize, threshold: usize, max_bonus: u32) -> (r: u32)
    requires
        max_bonus <= 10000,
    ensures
        r == scaled_pressure(value as nat, threshold as nat, max_bonus as nat),
        r <= max_bonus,
{
    if threshold == 0 || value <= threshold {
        return 0;
    }
    if value - threshold >= threshold {
        return max_bonus;
    }
    let q = rounded_ratio_exec(value - threshold, threshold, max_bonus);
    let ghost over = (value - threshold) as nat;
    let ghost t = threshold as nat;
    let ghost m = max_bonus as nat;
    assert(q <= m) by (nonlinear_arith)
        requires
            q == (2 * (over * m) + t) / (2 * t),
            over < t,
            t > 0,
    {
        assert(2 * (over * m) + t <= 2 * (t * m) + t);
        assert(2 * (over * m) + t < 2 * t * (m + 1));
    }
    q as u32
}

/// `x` capped at `cap`.
pub open spec fn cap(x: int, c: int) -> int {
    if x > c { c } else { x }
}

/// The score of an oversized file.
pub open spec fn large_file_score_of(line_count: nat, threshold: nat, max_complexity: nat) -> u32 {
    let over = scaled_pressure(line_count, threshold, 3600);
    let complexity = if max_complexity > 20 { cap(max_complexity - 20, 20) } else { 0 };
    cap(2400 + over + complexity * 120, 10000) as u32
}

/// The score of an oversized file (see `large_file_score_of`).
pub fn large_file_score(line_count: usize, threshold: u32, max_complexity: u32) -> (r: u32)
    ensures
        r == large_file_score_of(line_count as nat, threshold as nat, max_complexity as nat),
        r <= 10000,
{
    let over = scaled_ratio_pressure(line_count, threshold as usize, 3600);
    let extra: u32 = if max_complexity > 20 {
        if max_complexity - 20 > 20 {
            20
        } else {
            max_complexity - 20
        }
    } else {
        0
    };
    let total = 2400 + over + extra * 120;
    if total > 10000 {
        10000
    } else {
        total
    }
}

/// The score of a file with too many dependencies.
pub open spec fn dependency_sprawl_score_of(fan_out: nat, threshold: nat, instability: nat) -> u32 {
    cap((2800 + scaled_pressure(fan_out, threshold, 3200) + instability / 4) as int, 10000) as u32
}

/// The score of a file with too many dependencies (see `dependency_sprawl_score_of`).
pub fn dependency_sprawl_score(fan_out: usize, threshold: usize, instability: u32) -> (r: u32)
    requires
        instability <= 10000,
    ensures
        r == dependency_sprawl_score_of(fan_out as nat, threshold as nat, instability as nat),
        r <= 10000,
{
    let total = 2800 + scaled_ratio_pressure(fan_out, threshold, 3200) + instability / 4;
    if total > 10000 {
        10000
    } else {
        total
    }
}

/// The score of an unstable file with many dependents.
pub open spec fn unstable_hotspot_score_of(fan_in: nat, threshold: nat, instability: nat) -> u32 {
    cap((3200 + scaled_pressure(fan_in, threshold, 3000) + instability / 3) as int, 10000) as u32
}

/// The score of an unstable file with many dependents (see `unstable_hotspot_score_of`).
pub fn unstable_hotspot_score(fan_in: usize, threshold: usize, instability: u32) -> (r: u32)
    requires
        instability <= 10000,
    ensures
        r == unstable_hotspot_score_of(fan_in as nat, threshold as nat, instability as nat),
        r <= 10000,
{
    let total = 3200 + scaled_ratio_pressure(fan_in, threshold, 3000) + instability / 3;
    if total > 10000 {
        10000
    } else {
        total
    }
}

/// The share of a file's dependencies that point outward, scaled to
/// 0..=10000; 5000 when the file has none either way.
pub open spec fn instability_of(fan_in: nat, fan_out: nat) -> nat {
    if fan_in + fan_out == 0 {
        5000
    } else {
        rounded_ratio(fan_out, fan_in + fan_out, 10000)
    }
}

/// The instability of a file (see `instability_of`).
pub fn instability_0_10000(fan_in: usize, fan_out: usize) -> (r: u32)
    requires
        fan_in + fan_out <= usize::MAX,
    ensures
        r == instability_of(fan_in as nat, fan_out as nat),
        r <= 10000,
{
    let total = fan_in + fan_out;
    if total == 0 {
        return 5000;
    }
    let q = rounded_ratio_exec(fan_out, total, 10000);
    let ghost o = fan_out as nat;
    let ghost t = total as nat;
    assert(q <= 10000) by (nonlinear_arith)
        requires
            q == (2 * (o * 10000) + t) / (2 * t),
            o <= t,
            t > 0,
    {
        assert(2 * (o * 10000) + t < 2 * t * 10001);
    }
    q as u32
}

/// The severity a score maps to.
pub open spec fn severity_of_score(score: u32) -> FindingSeverity {
    if 6500 <= score && score <= 10000 {
        FindingSeverity::High
    } else if 3000 <= score && score <= 6499 {
        FindingSeverity::Medium
    } else {
        FindingSeverity::Low
    }
}

/// The severity a score maps to (see `severity_of_score`).
pub fn signal_severity(score: u32) -> (r: FindingSeverity)
    ensures
        r == severity_of_score(score),
{
    if 6500 <= score && score <= 10000 {
        FindingSeverity::High
    } else if 3000 <= score && score <= 6499 {
        FindingSeverity::Medium
    } else {
        FindingSeverity::Low
    }
}

/// The bonus of the role tags of a cycle: barrels, guarded boundaries,
/// composition roots and entry surfaces, capped at 2800.
pub open spec fn role_bonus_of(tags: Seq<Text>) -> int {
    cap(
        (if has_tag(tags, "component_barrel"@) { 1700int } else { 0 }) + (if has_tag(tags, "guarded_boundary"@) {
            1500int
        } else {
            0
        }) + (if has_tag(tags, "composition_root"@) { 500int } else { 0 }) + (if has_tag(tags, "entry_surface"@) {
            400int
        } else {
            0
        }),
        2800,
    )
}

/// The bonus of a seam kind for a cycle's best cut.
pub open spec fn seam_bonus_of(kind: Text) -> int {
    if kind == "guarded_app_store_boundary"@ {
        1300
    } else if kind == "guarded_boundary_cut"@ {
        1100
    } else if kind == "facade_owner_boundary"@ {
        900
    } else if kind == "app_store_boundary"@ {
        700
    } else if kind == "contract_or_type_extraction"@ {
        600
    } else if kind == "cross_layer_boundary"@ {
        500
    } else {
        300
    }
}

/// The bonus of a cycle's best cut candidate.
pub open spec fn cut_bonus_of(file_count: nat, c: CycleCutCandidate) -> int {
    let reduction = cap((c.reduction_file_count as u32) * 160, 1100);
    let ratio = if file_count == 0 { 0 } else { rounded_ratio(c.reduction_file_count as nat, file_count, 1500) as int };
    let penalty = if file_count == 0 { 0 } else { rounded_ratio(c.remaining_cycle_size as nat, file_count, 700) as int };
    let contained = if penalty >= 700 { 0 } else { 700 - penalty };
    seam_bonus_of(c.seam_kind@) + reduction + ratio + contained
}

/// The score of a dependency cycle: its size, its lines, its role tags and
/// its best cut candidate.
pub open spec fn cycle_cluster_score_of(
    file_count: usize,
    total_lines: usize,
    tags: Seq<Text>,
    cuts: Seq<CycleCutCandidate>,
) -> u32 {
    let size = cap((file_count as u32) * 800, 3200);
    let lines = cap(((total_lines as u32) / 14) as int, 1800);
    let cut = if cuts.len() == 0 { 0 } else { cut_bonus_of(file_count as nat, cuts[0]) };
    cap(2400 + size + lines + role_bonus_of(tags) + cut, 10000) as u32
}

fn seam_bonus(kind: &str) -> (r: u32)
    ensures
        r == seam_bonus_of(kind@),
{
    if crate::text::text_eq(kind, "guarded_app_store_boundary") {
        1300
    } else if crate::text::text_eq(kind, "guarded_boundary_cut") {
        1100
    } else if crate::text::text_eq(kind, "facade_owner_boundary") {
        900
    } else if crate::text::text_eq(kind, "app_store_boundary") {
        700
    } else if crate::text::text_eq(kind, "contract_or_type_extraction") {
        600
    } else if crate::text::text_eq(kind, "cross_layer_boundary") {
        500
    } else {
        300
    }
}

fn role_bonus(role_tags: &Vec<String>) -> (r: u32)
    ensures
        r == role_bonus_of(role_tags.deep_view()),
{
    let mut roles: u32 = 0;
    if has_role_tag(role_tags, "component_barrel") {
        roles = roles + 1700;
    }
    if has_role_tag(role_tags, "guarded_boundary") {
        roles = roles + 1500;
    }
    if has_role_tag(role_tags, "composition_root") {
        roles = roles + 500;
    }
    if has_role_tag(role_tags, "entry_surface") {
        roles = roles + 400;
    }
    if roles > 2800 {
        2800
    } else {
        roles
    }
}

fn cut_bonus(file_count: usize, c: &CycleCutCandidate) -> (r: u128)
    ensures
        r == cut_bonus_of(file_count as nat, *c),
{
    let seam = seam_bonus(c.seam_kind.as_str());
    let red32 = c.reduction_file_count as u32;
    let reduction: u128 = if red32 as u128 * 160 > 1100 {
        1100
    } else {
        red32 as u128 * 160
    };
    let ratio: u128 = if file_count == 0 {
        0
    } else {
        rounded_ratio_exec(c.reduction_file_count, file_count, 1500)
    };
    let penalty: u128 = if file_count == 0 {
        0
    } else {
        rounded_ratio_exec(c.remaining_cycle_size, file_count, 700)
    };
    let contained: u128 = if penalty >= 700 {
        0
    } else {
        700 - penalty
    };
    let ghost rc = c.reduction_file_count as nat;
    let ghost fc = file_count as nat;
    assert(ratio <= 0xffff_ffff_ffff_ffffu128 * 1500 + 1) by (nonlinear_arith)
        requires
            fc == 0 ==> ratio == 0,
            fc > 0 ==> ratio == (2 * (rc * 1500) + fc) / (2 * fc),
            rc <= 0xffff_ffff_ffff_ffff,
    {
        if fc > 0 {
            assert(2 * (rc * 1500) + fc <= (2 * fc) * (rc * 1500 + 1));
        }
    }
    seam as u128 + reduction + ratio + contained
}

/// Where the best cut removes no more files than the cycle has, its bonus
/// is at most 4601.
pub proof fn lemma_cut_bonus_bounded(file_count: nat, c: CycleCutCandidate)
    requires
        c.reduction_file_count <= file_count,
    ensures
        cut_bonus_of(file_count, c) <= 4601,
{
    let rc = c.reduction_file_count as nat;
    if file_count > 0 {
        let ratio = rounded_ratio(rc, file_count, 1500);
        assert(ratio <= 1501) by (nonlinear_arith)
            requires
                ratio == (2 * (rc * 1500) + file_count) / (2 * file_count),
                rc <= file_count,
                file_count > 0,
        {
            assert(2 * (rc * 1500) + file_count <= (2 * file_count) * 1501);
        }
    }
}

/// The sum that a dependency cycle's score caps at 10000.
pub open spec fn cycle_score_total(file_count: usize, total_lines: usize, tags: Seq<Text>, cuts: Seq<CycleCutCandidate>) -> int {
    let size = cap((file_count as u32) * 800, 3200);
    let lines = cap(((total_lines as u32) / 14) as int, 1800);
    let cut = if cuts.len() == 0 { 0 } else { cut_bonus_of(file_count as nat, cuts[0]) };
    2400 + size + lines + role_bonus_of(tags) + cut
}

/// The score of a dependency cycle (see `cycle_cluster_score_of`). The sum
/// it caps must fit in a `u32`, where the score is computed.
pub fn cycle_cluster_score(
    file_count: usize,
    total_lines: usize,
    role_tags: &Vec<String>,
    cut_candidates: &Vec<CycleCutCandidate>,
) -> (r: u32)
    requires
        (file_count as u32) * 800 <= u32::MAX,
        cycle_score_total(file_count, total_lines, role_tags.deep_view(), cut_candidates@) <= u32::MAX,
    ensures
        r == cycle_cluster_score_of(file_count, total_lines, role_tags.deep_view(), cut_candidates@),
        r <= 10000,
{
    let fc32 = file_count as u32;
    let size: u32 = if fc32 * 800 > 3200 {
        3200
    } else {
        fc32 * 800
    };
    let per_line = (total_lines as u32) / 14;
    let lines: u32 = if per_line > 1800 {
        1800
    } else {
        per_line
    };
    let roles = role_bonus(role_tags);
    let cut: u128 = if cut_candidates.len() > 0 {
        cut_bonus(file_count, &cut_candidates[0])
    } else {
        0
    };
    let total: u128 = 2400 + size as u128 + lines as u128 + roles as u128 + cut;
    if total > 10000 {
        10000
    } else {
        total as u32
    }
}

/// The score of a file with dead private functions.
pub open spec fn dead_private_score_of(dead_symbols: usize, dead_lines: usize) -> u32 {
    cap(1500 + cap((dead_symbols as u32) * 900, 3600) + cap((dead_lines as u32) * 18, 2800), 10000) as u32
}

/// The score of a file with dead private functions (see `dead_private_score_of`).
pub fn dead_private_cluster_score(dead_symbols: usize, dead_lines: usize) -> (r: u32)
    requires
        (dead_symbols as u32) * 900 <= u32::MAX,
        (dead_lines as u32) * 18 <= u32::MAX,
    ensures
        r == dead_private_score_of(dead_symbols, dead_lines),
{
    let s32 = dead_symbols as u32;
    let l32 = dead_lines as u32;
    let symbols: u32 = if s32 * 900 > 3600 {
        3600
    } else {
        s32 * 900
    };
    let lines: u32 = if l32 * 18 > 2800 {
        2800
    } else {
        l32 * 18
    };
    let total = 1500 + symbols + lines;
    if total > 10000 {
        10000
    } else {
        total
    }
}

/// The score of a disconnected component.
pub open spec fn dead_island_score_of(file_count: usize, total_lines: usize, cycle_size: usize, from_tests: bool) -> u32 {
    let base = 2800 + cap((file_count as u32) * 900, 3600) + cap(((total_lines as u32) / 10) as int, 2600)
        + cap((cycle_size as u32) * 700, 2100);
    let penalty: int = if from_tests { 1200 } else { 0 };
    (if base > penalty { base - penalty } else { 0 }) as u32
}

/// The score of a disconnected component (see `dead_island_score_of`).
pub fn dead_island_score(file_count: usize, total_lines: usize, cycle_size: usize, from_tests: bool) -> (r: u32)
    requires
        (file_count as u32) * 900 <= u32::MAX,
        (cycle_size as u32) * 700 <= u32::MAX,
    ensures
        r == dead_island_score_of(file_count, total_lines, cycle_size, from_tests),
{
    let files32 = file_count as u32;
    let c32 = cycle_size as u32;
    let files: u32 = if files32 * 900 > 3600 {
        3600
    } else {
        files32 * 900
    };
    let per_line = (total_lines as u32) / 10;
    let lines: u32 = if per_line > 2600 {
        2600
    } else {
        per_line
    };
    let cycle: u32 = if c32 * 700 > 2100 {
        2100
    } else {
        c32 * 700
    };
    let base = 2800 + files + lines + cycle;
    let penalty: u32 = if from_tests {
        1200
    } else {
        0
    };
    if base > penalty {
        base - penalty
    } else {
        0
    }
}

} // verus!
