//! Coordination hotspots: files that concentrate authority, side effects,
//! timers, async branching, complexity and churn.
use crate::evolution::lookup;
use crate::order::{lex_lt, text_less};
use crate::sorting::{ranked_order, sort_ranked, Ranked};
use crate::text::{dec, decimal, occurs_at, phrase, push_line, Text};
use crate::FindingSeverity;
use vstd::prelude::*;

verus! {

/// How far a file concentrates coordination work, and why.
pub struct ConcentrationReport {
    pub path: String,
    pub score_0_10000: u32,
    pub authority_breadth: u32,
    pub side_effect_breadth: u32,
    pub timer_retry_weight: u32,
    pub async_branch_weight: u32,
    pub max_complexity: u32,
    pub churn_commits: u32,
    pub hotspot_risk: u64,
    pub reasons: Vec<String>,
}

impl Default for ConcentrationReport {
    fn default() -> (r: Self)
        ensures
            r.path@.len() == 0,
            r.score_0_10000 == 0,
            r.authority_breadth == 0,
            r.side_effect_breadth == 0,
            r.timer_retry_weight == 0,
            r.async_branch_weight == 0,
            r.max_complexity == 0,
            r.churn_commits == 0,
            r.hotspot_risk == 0,
            r.reasons@.len() == 0,
    {
        ConcentrationReport {
            path: String::new(),
            score_0_10000: 0,
            authority_breadth: 0,
            side_effect_breadth: 0,
            timer_retry_weight: 0,
            async_branch_weight: 0,
            max_complexity: 0,
            churn_commits: 0,
            hotspot_risk: 0,
            reasons: Vec::new(),
        }
    }
}

/// A coordination hotspot worth reporting.
pub struct ConcentrationFinding {
    pub kind: String,
    pub severity: FindingSeverity,
    pub path: String,
    pub score_0_10000: u32,
    pub summary: String,
    pub reasons: Vec<String>,
}

impl Default for ConcentrationFinding {
    fn default() -> (r: Self)
        ensures
            r.kind@.len() == 0,
            r.severity == FindingSeverity::Low,
            r.path@.len() == 0,
            r.score_0_10000 == 0,
            r.summary@.len() == 0,
            r.reasons@.len() == 0,
    {
        ConcentrationFinding {
            kind: String::new(),
            severity: FindingSeverity::Low,
            path: String::new(),
            score_0_10000: 0,
            summary: String::new(),
            reasons: Vec::new(),
        }
    }
}

/// The concentration reports of a run and the warnings met while reading files.
pub struct ConcentrationBuildResult {
    pub reports: Vec<ConcentrationReport>,
    pub read_warnings: Vec<String>,
}

impl Default for ConcentrationBuildResult {
    fn default() -> (r: Self)
        ensures
            r.reports@.len() == 0,
            r.read_warnings@.len() == 0,
    {
        ConcentrationBuildResult { reports: Vec::new(), read_warnings: Vec::new() }
    }
}

/// Recent history per file: commit counts and hotspot risk.
pub struct ConcentrationHistory {
    pub churn_commits: Vec<(String, u32)>,
    pub hotspot_risk: Vec<(String, u64)>,
}

impl Default for ConcentrationHistory {
    fn default() -> (r: Self)
        ensures
            r.churn_commits@.len() == 0,
            r.hotspot_risk@.len() == 0,
    {
        ConcentrationHistory { churn_commits: Vec::new(), hotspot_risk: Vec::new() }
    }
}

/// Reports at or above this score become findings.
pub const HOTSPOT_FINDING_MIN_SCORE: u32 = 3000;

/// Findings at or above this score are of high severity.
pub const HOTSPOT_HIGH_SEVERITY_MIN_SCORE: u32 = 6500;

/// Positions of the reports that reach the finding threshold, the first
/// `limit` of them.
pub open spec fn hot_positions(reports: Seq<ConcentrationReport>) -> Seq<int>
    decreases reports.len(),
{
    if reports.len() == 0 {
        Seq::empty()
    } else {
        let prev = hot_positions(reports.drop_last());
        if reports.last().score_0_10000 >= HOTSPOT_FINDING_MIN_SCORE {
            prev.push(reports.len() - 1)
        } else {
            prev
        }
    }
}

/// The finding of a hot report.
pub open spec fn is_hotspot_finding(f: ConcentrationFinding, r: ConcentrationReport) -> bool {
    &&& f.kind@ == "coordination_hotspot"@
    &&& f.severity == (if r.score_0_10000 >= HOTSPOT_HIGH_SEVERITY_MIN_SCORE {
        FindingSeverity::High
    } else {
        FindingSeverity::Medium
    })
    &&& f.path@ == r.path@
    &&& f.score_0_10000 == r.score_0_10000
    &&& f.summary@ == "File '"@ + r.path@ + "' is a concentrated coordination hotspot"@
    &&& f.reasons@ == r.reasons@
}

/// One finding for each of the first `limit` reports that score at least
/// `HOTSPOT_FINDING_MIN_SCORE`, in report order.
pub fn build_concentration_findings(reports: &Vec<ConcentrationReport>, limit: usize) -> (r: Vec<ConcentrationFinding>)
    ensures
        ({
            let hot = hot_positions(reports@);
            let n = if limit < hot.len() { limit as int } else { hot.len() as int };
            &&& r@.len() == n
            &&& forall|k: int| 0 <= k < n ==> is_hotspot_finding(#[trigger] r@[k], reports@[hot[k]])
        }),
{
    let mut r: Vec<ConcentrationFinding> = Vec::new();
    let mut i: usize = 0;
    while i < reports.len()
        invariant
            i <= reports@.len(),
            r@.len() == hot_positions(reports@.take(i as int)).len(),
            r@.len() <= limit,
            forall|k: int| 0 <= k < r@.len() ==> 0 <= #[trigger] hot_positions(reports@.take(i as int))[k] < i,
            forall|k: int|
                0 <= k < r@.len() ==> is_hotspot_finding(
                    #[trigger] r@[k],
                    reports@[hot_positions(reports@.take(i as int))[k]],
                ),
        decreases reports@.len() - i,
    {
        if r.len() >= limit {
            proof {
                lemma_hot_prefix(reports@, i as int);
            }
            return r;
        }
        let ghost prev = hot_positions(reports@.take(i as int));
        assert(reports@.take(i + 1).drop_last() =~= reports@.take(i as int));
        let report = &reports[i];
        if report.score_0_10000 >= HOTSPOT_FINDING_MIN_SCORE {
            let severity = if report.score_0_10000 >= HOTSPOT_HIGH_SEVERITY_MIN_SCORE {
                FindingSeverity::High
            } else {
                FindingSeverity::Medium
            };
            let mut summary = "File '".to_string();
            summary.append(report.path.as_str());
            summary.append("' is a concentrated coordination hotspot");
            r.push(
                ConcentrationFinding {
                    kind: "coordination_hotspot".to_string(),
                    severity,
                    path: report.path.clone(),
                    score_0_10000: report.score_0_10000,
                    summary,
                    reasons: crate::clone_groups::copy_strings(&report.reasons),
                },
            );
            assert(hot_positions(reports@.take(i + 1)) == prev.push(i as int));
        } else {
            assert(hot_positions(reports@.take(i + 1)) == prev);
        }
        i = i + 1;
    }
    assert(reports@.take(reports@.len() as int) =~= reports@);
    r
}

proof fn lemma_hot_prefix(reports: Seq<ConcentrationReport>, i: int)
    requires
        0 <= i <= reports.len(),
    ensures
        hot_positions(reports.take(i)).len() <= hot_positions(reports).len(),
        forall|k: int| 0 <= k < hot_positions(reports.take(i)).len() ==> #[trigger] hot_positions(reports.take(i))[k]
            == hot_positions(reports)[k],
    decreases reports.len() - i,
{
    if i < reports.len() {
        lemma_hot_prefix(reports.drop_last(), i);
        assert(reports.drop_last().take(i) =~= reports.take(i));
    } else {
        assert(reports.take(i) =~= reports);
    }
}

/// Where the scrubber is: in code, a comment, or a quoted literal.
#[derive(Debug, Clone, Copy, PartialEq, Eq, Structural)]
pub enum ScrubState {
    Code,
    LineComment,
    BlockComment,
    SingleQuote,
    DoubleQuote,
    Template,
}

/// The closing delimiter of a quoted state.
pub open spec fn closing_of(state: ScrubState) -> char {
    match state {
        ScrubState::SingleQuote => '\'',
        ScrubState::DoubleQuote => '"',
        _ => '`',
    }
}

/// The blanked form of a character: a newline stays, anything else becomes a space.
pub open spec fn blank(c: char) -> char {
    if c == '\n' { '\n' } else { ' ' }
}

/// The scrubbed rest of `s` from position `i`, in state `state`: code stays,
/// while comments and quoted literals become spaces, keeping newlines.
pub open spec fn scrub_from(s: Seq<char>, i: int, state: ScrubState, escaping: bool) -> Seq<char>
    decreases s.len() - i,
{
    if i < 0 || i >= s.len() {
        Seq::empty()
    } else {
        let c = s[i];
        let has_next = i + 1 < s.len();
        match state {
            ScrubState::Code => {
                if c == '/' && has_next && s[i + 1] == '/' {
                    seq![' ', ' '] + scrub_from(s, i + 2, ScrubState::LineComment, escaping)
                } else if c == '/' && has_next && s[i + 1] == '*' {
                    seq![' ', ' '] + scrub_from(s, i + 2, ScrubState::BlockComment, escaping)
                } else if c == '\'' {
                    seq![' '] + scrub_from(s, i + 1, ScrubState::SingleQuote, false)
                } else if c == '"' {
                    seq![' '] + scrub_from(s, i + 1, ScrubState::DoubleQuote, false)
                } else if c == '`' {
                    seq![' '] + scrub_from(s, i + 1, ScrubState::Template, false)
                } else {
                    seq![c] + scrub_from(s, i + 1, ScrubState::Code, escaping)
                }
            },
            ScrubState::LineComment => seq![blank(c)] + scrub_from(
                s,
                i + 1,
                if c == '\n' { ScrubState::Code } else { ScrubState::LineComment },
                escaping,
            ),
            ScrubState::BlockComment => {
                if c == '*' && has_next && s[i + 1] == '/' {
                    seq![' ', ' '] + scrub_from(s, i + 2, ScrubState::Code, escaping)
                } else {
                    seq![blank(c)] + scrub_from(s, i + 1, ScrubState::BlockComment, escaping)
                }
            },
            _ => {
                if c == '\n' {
                    seq!['\n'] + scrub_from(
                        s,
                        i + 1,
                        if state == ScrubState::Template { state } else { ScrubState::Code },
                        false,
                    )
                } else if c == '\\' && !escaping {
                    seq![' '] + scrub_from(s, i + 1, state, true)
                } else if c == closing_of(state) && !escaping {
                    seq![' '] + scrub_from(s, i + 1, ScrubState::Code, escaping)
                } else {
                    seq![' '] + scrub_from(s, i + 1, state, false)
                }
            },
        }
    }
}

/// The scrubbed form of a source text (see `scrub_from`).
pub open spec fn scrubbed(s: Seq<char>) -> Seq<char> {
    scrub_from(s, 0, ScrubState::Code, false)
}

/// Scrubbing keeps the length and every newline in place, blanks nothing
/// into a newline, and keeps every other character or blanks it.
pub proof fn lemma_scrub_keeps_layout(s: Seq<char>, i: int, state: ScrubState, escaping: bool)
    requires
        0 <= i <= s.len(),
    ensures
        scrub_from(s, i, state, escaping).len() == s.len() - i,
        forall|k: int| 0 <= k < s.len() - i ==> (#[trigger] scrub_from(s, i, state, escaping)[k] == '\n') == (s[i + k] == '\n'),
        forall|k: int|
            0 <= k < s.len() - i ==> #[trigger] scrub_from(s, i, state, escaping)[k] == s[i + k] || scrub_from(
                s,
                i,
                state,
                escaping,
            )[k] == ' ',
    decreases s.len() - i,
{
    if i < s.len() {
        let c = s[i];
        let has_next = i + 1 < s.len();
        match state {
            ScrubState::Code => {
                if c == '/' && has_next && (s[i + 1] == '/' || s[i + 1] == '*') {
                    let st = if s[i + 1] == '/' { ScrubState::LineComment } else { ScrubState::BlockComment };
                    lemma_scrub_keeps_layout(s, i + 2, st, escaping);
                } else if c == '\'' || c == '"' || c == '`' {
                    let st = if c == '\'' {
                        ScrubState::SingleQuote
                    } else if c == '"' {
                        ScrubState::DoubleQuote
                    } else {
                        ScrubState::Template
                    };
                    lemma_scrub_keeps_layout(s, i + 1, st, false);
                } else {
                    lemma_scrub_keeps_layout(s, i + 1, ScrubState::Code, escaping);
                }
            },
            ScrubState::LineComment => {
                lemma_scrub_keeps_layout(
                    s,
                    i + 1,
                    if c == '\n' { ScrubState::Code } else { ScrubState::LineComment },
                    escaping,
                );
            },
            ScrubState::BlockComment => {
                if c == '*' && has_next && s[i + 1] == '/' {
                    lemma_scrub_keeps_layout(s, i + 2, ScrubState::Code, escaping);
                } else {
                    lemma_scrub_keeps_layout(s, i + 1, ScrubState::BlockComment, escaping);
                }
            },
            _ => {
                if c == '\n' {
                    lemma_scrub_keeps_layout(
                        s,
                        i + 1,
                        if state == ScrubState::Template { state } else { ScrubState::Code },
                        false,
                    );
                } else if c == '\\' && !escaping {
                    lemma_scrub_keeps_layout(s, i + 1, state, true);
                } else if c == closing_of(state) && !escaping {
                    lemma_scrub_keeps_layout(s, i + 1, ScrubState::Code, escaping);
                } else {
                    lemma_scrub_keeps_layout(s, i + 1, state, false);
                }
            },
        }
    }
}

/// Scrubbing keeps a source text's length and the position of every
/// newline, and every other character is kept or blanked in place.
pub proof fn lemma_scrubbed_layout(s: Seq<char>)
    ensures
        scrubbed(s).len() == s.len(),
        forall|k: int| 0 <= k < s.len() ==> (#[trigger] scrubbed(s)[k] == '\n') == (s[k] == '\n'),
        forall|k: int| 0 <= k < s.len() ==> #[trigger] scrubbed(s)[k] == s[k] || scrubbed(s)[k] == ' ',
{
    lemma_scrub_keeps_layout(s, 0, ScrubState::Code, false);
}

fn closing_char(state: ScrubState) -> (c: char)
    ensures
        c == closing_of(state),
{
    match state {
        ScrubState::SingleQuote => '\'',
        ScrubState::DoubleQuote => '"',
        _ => '`',
    }
}

/// The source text with comments and quoted literals blanked out (see
/// `scrub_from`): code characters stay, newlines stay, everything else
/// becomes a space.
#[verifier::rlimit(40)]
pub fn scrub_non_code_regions(contents: &str) -> (r: String)
    ensures
        r@ == scrubbed(contents@),
        r@.len() == contents@.len(),
{
    let v = crate::text::chars_of(contents);
    let ghost s = v@;
    let mut out: Vec<char> = Vec::new();
    let mut state = ScrubState::Code;
    let mut escaping = false;
    let mut i: usize = 0;
    while i < v.len()
        invariant
            s == v@,
            s == contents@,
            i <= s.len(),
            out@ + scrub_from(s, i as int, state, escaping) == scrubbed(s),
        decreases s.len() - i,
    {
        let c = v[i];
        let has_next = i + 1 < v.len();
        let ghost before = out@;
        match state {
            ScrubState::Code => {
                if c == '/' && has_next && v[i + 1] == '/' {
                    out.push(' ');
                    out.push(' ');
                    state = ScrubState::LineComment;
                    i = i + 2;
                } else if c == '/' && has_next && v[i + 1] == '*' {
                    out.push(' ');
                    out.push(' ');
                    state = ScrubState::BlockComment;
                    i = i + 2;
                } else if c == '\'' {
                    out.push(' ');
                    state = ScrubState::SingleQuote;
                    escaping = false;
                    i = i + 1;
                } else if c == '"' {
                    out.push(' ');
                    state = ScrubState::DoubleQuote;
                    escaping = false;
                    i = i + 1;
                } else if c == '`' {
                    out.push(' ');
                    state = ScrubState::Template;
                    escaping = false;
                    i = i + 1;
                } else {
                    out.push(c);
                    i = i + 1;
                }
            },
            ScrubState::LineComment => {
                out.push(if c == '\n' { '\n' } else { ' ' });
                if c == '\n' {
                    state = ScrubState::Code;
                }
                i = i + 1;
            },
            ScrubState::BlockComment => {
                if c == '*' && has_next && v[i + 1] == '/' {
                    out.push(' ');
                    out.push(' ');
                    state = ScrubState::Code;
                    i = i + 2;
                } else {
                    out.push(if c == '\n' { '\n' } else { ' ' });
                    i = i + 1;
                }
            },
            _ => {
                if c == '\n' {
                    out.push('\n');
                    if state != ScrubState::Template {
                        state = ScrubState::Code;
                    }
                    escaping = false;
                } else if c == '\\' && !escaping {
                    out.push(' ');
                    escaping = true;
                } else if c == closing_char(state) && !escaping {
                    out.push(' ');
                    state = ScrubState::Code;
                } else {
                    out.push(' ');
                    escaping = false;
                }
                i = i + 1;
            },
        }
        assert(out@ + scrub_from(s, i as int, state, escaping) =~= scrubbed(s));
    }
    proof {
        lemma_scrubbed_layout(s);
    }
    crate::text::text_from_chars(&out)
}

/// The number of non-overlapping occurrences of `p` in `s` from position `i`,
/// found left to right.
pub open spec fn matches_from(s: Seq<char>, p: Seq<char>, i: int) -> nat
    decreases s.len() - i,
{
    if p.len() == 0 || i < 0 || i + p.len() > s.len() {
        0
    } else if occurs_at(s, p, i) {
        1 + matches_from(s, p, i + p.len())
    } else {
        matches_from(s, p, i + 1)
    }
}

/// The occurrences of `p` in `s`, capped at `cap`.
pub open spec fn capped_matches(s: Seq<char>, p: Seq<char>, cap: nat) -> nat {
    let n = matches_from(s, p, 0);
    if n > cap { cap } else { n }
}

fn chars_occur_at(hay: &Vec<char>, needle: &Vec<char>, i: usize) -> (r: bool)
    requires
        i + needle@.len() <= hay@.len(),
    ensures
        r == occurs_at(hay@, needle@, i as int),
{
    let mut k: usize = 0;
    while k < needle.len()
        invariant
            i + needle@.len() <= hay@.len(),
            k <= needle@.len(),
            forall|j: int| 0 <= j < k ==> hay@[i + j] == needle@[j],
        decreases needle@.len() - k,
    {
        let hay_len = hay.len();
        assert(i + k < hay_len);
        if hay[i + k] != needle[k] {
            assert(hay@.subrange(i as int, i + needle@.len())[k as int] != needle@[k as int]);
            return false;
        }
        k = k + 1;
    }
    assert(hay@.subrange(i as int, i + needle@.len()) =~= needle@);
    true
}

/// The occurrences of `pattern` in `contents`, capped at `cap`.
pub fn count_pattern(contents: &Vec<char>, pattern: &str, cap: u32) -> (n: u32)
    ensures
        n == capped_matches(contents@, pattern@, cap as nat),
{
    let p = crate::text::chars_of(pattern);
    let ghost s = contents@;
    if p.len() == 0 {
        return 0;
    }
    let mut count: u32 = 0;
    let mut i: usize = 0;
    while p.len() <= contents.len() - i && count < cap
        invariant
            p@ == pattern@,
            p@.len() > 0,
            s == contents@,
            i <= s.len(),
            count <= cap,
            count + matches_from(s, p@, i as int) == matches_from(s, p@, 0),
        decreases s.len() - i,
    {
        if chars_occur_at(contents, &p, i) {
            count = count + 1;
            i = i + p.len();
        } else {
            i = i + 1;
        }
    }
    count
}

/// The patterns of side-effect calls.
pub open spec fn side_effect_patterns() -> Seq<Text> {
    seq![
        "setStore("@, "dispatch("@, ".dispatch("@, "emit("@, ".emit("@, "invoke("@, ".invoke("@, "writeFile("@,
        "readFile("@, "spawn("@, "exec("@, "postMessage("@,
    ]
}

/// The patterns of timer and retry coordination.
pub open spec fn timer_retry_patterns() -> Seq<Text> {
    seq![
        "setTimeout("@, "setInterval("@, "clearTimeout("@, "clearInterval("@, "retry("@, ".retry("@, "backoff("@,
        ".backoff("@, "debounce("@, ".debounce("@, "throttle("@, ".throttle("@,
    ]
}

/// The patterns of async and branching control.
pub open spec fn async_branch_patterns() -> Seq<Text> {
    seq![
        "await "@, ".then("@, ".catch("@, ".finally("@, "Promise.all("@, "Promise.race("@, "Promise.any("@,
        "switch ("@, "try {"@,
    ]
}

/// The capped occurrences of every pattern, summed.
pub open spec fn capped_hits(s: Seq<char>, patterns: Seq<Text>, cap: nat) -> nat
    decreases patterns.len(),
{
    if patterns.len() == 0 {
        0
    } else {
        capped_hits(s, patterns.drop_last(), cap) + capped_matches(s, patterns.last(), cap)
    }
}

/// The capped occurrences of every pattern in `contents`, summed (see `capped_hits`).
pub fn capped_pattern_hits(contents: &str, patterns: &Vec<&str>, cap: u32) -> (n: u32)
    requires
        patterns@.len() * (cap as int) <= u32::MAX,
    ensures
        n == capped_hits(contents@, patterns@.map_values(|p: &str| p@), cap as nat),
{
    let v = crate::text::chars_of(contents);
    let ghost pv = patterns@.map_values(|p: &str| p@);
    let mut total: u32 = 0;
    let mut k: usize = 0;
    while k < patterns.len()
        invariant
            v@ == contents@,
            pv == patterns@.map_values(|p: &str| p@),
            patterns@.len() * (cap as int) <= u32::MAX,
            k <= patterns@.len(),
            total == capped_hits(contents@, pv.take(k as int), cap as nat),
            total <= k * cap,
        decreases patterns@.len() - k,
    {
        assert(pv.take(k + 1).drop_last() =~= pv.take(k as int));
        let n = count_pattern(&v, patterns[k], cap);
        assert(total + n <= (k + 1) * cap) by (nonlinear_arith)
            requires
                total <= k * cap,
                n <= cap,
        ;
        assert((k + 1) * cap <= patterns@.len() * cap) by (nonlinear_arith)
            requires
                k + 1 <= patterns@.len(),
        ;
        total = total + n;
        k = k + 1;
    }
    assert(pv.take(patterns@.len() as int) =~= pv);
    total
}

/// The side-effect call patterns.
pub fn side_effect_pattern_list() -> (r: Vec<&'static str>)
    ensures
        r@.map_values(|p: &str| p@) == side_effect_patterns(),
        r@.len() == 12,
{
    let r = vec![
        "setStore(", "dispatch(", ".dispatch(", "emit(", ".emit(", "invoke(", ".invoke(", "writeFile(", "readFile(",
        "spawn(", "exec(", "postMessage(",
    ];
    assert(r@.map_values(|p: &str| p@) =~= side_effect_patterns());
    r
}

/// The timer and retry patterns.
pub fn timer_retry_pattern_list() -> (r: Vec<&'static str>)
    ensures
        r@.map_values(|p: &str| p@) == timer_retry_patterns(),
        r@.len() == 12,
{
    let r = vec![
        "setTimeout(", "setInterval(", "clearTimeout(", "clearInterval(", "retry(", ".retry(", "backoff(",
        ".backoff(", "debounce(", ".debounce(", "throttle(", ".throttle(",
    ];
    assert(r@.map_values(|p: &str| p@) =~= timer_retry_patterns());
    r
}

/// The async and branching patterns.
pub fn async_branch_pattern_list() -> (r: Vec<&'static str>)
    ensures
        r@.map_values(|p: &str| p@) == async_branch_patterns(),
        r@.len() == 9,
{
    let r = vec!["await ", ".then(", ".catch(", ".finally(", "Promise.all(", "Promise.race(", "Promise.any(", "switch (", "try {"];
    assert(r@.map_values(|p: &str| p@) =~= async_branch_patterns());
    r
}

/// `v` capped at `max` and scaled to 3000ths of `max`.
pub open spec fn scaled(v: nat, max: nat, unit: nat) -> nat {
    (if v > max { max } else { v }) * unit
}

/// The weighted concentration signals, in 300000ths: authority 22%, side
/// effects 20%, timers and retries 16%, async branching 14%, complexity 14%,
/// and, when history is known, churn or hotspot risk 14%. Each signal is
/// normalized by its saturation point (3, 12, 8, 12, 25, 20 commits, 250 risk).
pub open spec fn weighted_signals(
    authority: nat,
    side_effects: nat,
    timer_retry: nat,
    async_branch: nat,
    complexity: nat,
    churn: nat,
    hotspot_risk: nat,
    history_available: bool,
) -> nat {
    let history = if history_available {
        let c = scaled(churn, 20, 150);
        let h = scaled(hotspot_risk, 250, 12);
        14 * (if c > h { c } else { h })
    } else {
        0
    };
    22 * scaled(authority, 3, 1000) + 20 * scaled(side_effects, 12, 250) + 16 * scaled(timer_retry, 8, 375) + 14
        * scaled(async_branch, 12, 250) + 14 * scaled(complexity, 25, 120) + history
}

/// The concentration score: the weighted signals divided by the active
/// weight (all of it with history, 86% without), scaled to 0..=10000 and
/// rounded half away from zero.
pub open spec fn concentration_score_of(
    authority: nat,
    side_effects: nat,
    timer_retry: nat,
    async_branch: nat,
    complexity: nat,
    churn: nat,
    hotspot_risk: nat,
    history_available: bool,
) -> nat {
    let s = weighted_signals(authority, side_effects, timer_retry, async_branch, complexity, churn, hotspot_risk, history_available);
    if history_available {
        (2 * s + 30) / 60
    } else {
        (200 * s + 2580) / 5160
    }
}

fn scaled_exec(v: u64, max: u64, unit: u64) -> (r: u64)
    requires
        max <= 250,
        unit <= 1000,
    ensures
        r == scaled(v as nat, max as nat, unit as nat),
        r <= max * unit,
{
    let c = if v > max {
        max
    } else {
        v
    };
    assert(c * unit <= max * unit && max * unit <= 250 * 1000) by (nonlinear_arith)
        requires
            c <= max,
            max <= 250,
            unit <= 1000,
    ;
    c * unit
}

/// The concentration score of a file (see `concentration_score_of`).
pub fn concentration_score_0_10000(
    authority: u32,
    side_effects: u32,
    timer_retry: u32,
    async_branch: u32,
    complexity: u32,
    churn: u32,
    hotspot_risk: u64,
    history_available: bool,
) -> (r: u32)
    ensures
        r == concentration_score_of(
            authority as nat,
            side_effects as nat,
            timer_retry as nat,
            async_branch as nat,
            complexity as nat,
            churn as nat,
            hotspot_risk as nat,
            history_available,
        ),
        r <= 10000,
{
    let a = scaled_exec(authority as u64, 3, 1000);
    let se = scaled_exec(side_effects as u64, 12, 250);
    let t = scaled_exec(timer_retry as u64, 8, 375);
    let asb = scaled_exec(async_branch as u64, 12, 250);
    let cx = scaled_exec(complexity as u64, 25, 120);
    let history: u64 = if history_available {
        let c = scaled_exec(churn as u64, 20, 150);
        let h = scaled_exec(hotspot_risk, 250, 12);
        14 * (if c > h {
            c
        } else {
            h
        })
    } else {
        0
    };
    let s = 22 * a + 20 * se + 16 * t + 14 * asb + 14 * cx + history;
    if history_available {
        assert(s <= 300000);
        ((2 * s + 30) / 60) as u32
    } else {
        assert(s <= 258000);
        ((200 * s + 2580) / 5160) as u32
    }
}

/// The reasons listed for a file's concentration.
pub open spec fn concentration_reasons_text(
    authority: u32,
    side_effects: u32,
    timer_retry: u32,
    async_branch: u32,
    complexity: u32,
    churn: u32,
    hotspot_risk: u64,
) -> Seq<Text> {
    let r0: Seq<Text> = if authority > 0 {
        seq!["writes "@ + dec(authority as nat) + " configured concept(s)"@]
    } else {
        Seq::empty()
    };
    let r1 = if side_effects > 0 { r0.push("touches "@ + dec(side_effects as nat) + " side-effect target(s)"@) } else { r0 };
    let r2 = if timer_retry > 0 {
        r1.push("contains "@ + dec(timer_retry as nat) + " timer/retry coordination signal(s)"@)
    } else {
        r1
    };
    let r3 = if async_branch > 0 {
        r2.push("contains "@ + dec(async_branch as nat) + " async/branching control signal(s)"@)
    } else {
        r2
    };
    let r4 = if complexity >= 10 { r3.push("max cyclomatic complexity "@ + dec(complexity as nat)) } else { r3 };
    let r5 = if churn > 0 { r4.push("changed in "@ + dec(churn as nat) + " recent commit(s)"@) } else { r4 };
    if hotspot_risk > 0 { r5.push("git hotspot risk "@ + dec(hotspot_risk as nat)) } else { r5 }
}

/// The reasons listed for a file's concentration (see `concentration_reasons_text`).
pub fn concentration_reasons(
    authority: u32,
    side_effects: u32,
    timer_retry: u32,
    async_branch: u32,
    complexity: u32,
    churn: u32,
    hotspot_risk: u64,
) -> (r: Vec<String>)
    ensures
        r.deep_view() == concentration_reasons_text(
            authority,
            side_effects,
            timer_retry,
            async_branch,
            complexity,
            churn,
            hotspot_risk,
        ),
{
    let mut r: Vec<String> = Vec::new();
    let ghost mut e: Seq<Text> = Seq::empty();
    if authority > 0 {
        push_line(&mut r, phrase("writes ", authority as u64, " configured concept(s)"));
        proof { e = e.push("writes "@ + dec(authority as nat) + " configured concept(s)"@); }
    }
    if side_effects > 0 {
        push_line(&mut r, phrase("touches ", side_effects as u64, " side-effect target(s)"));
        proof { e = e.push("touches "@ + dec(side_effects as nat) + " side-effect target(s)"@); }
    }
    if timer_retry > 0 {
        push_line(&mut r, phrase("contains ", timer_retry as u64, " timer/retry coordination signal(s)"));
        proof { e = e.push("contains "@ + dec(timer_retry as nat) + " timer/retry coordination signal(s)"@); }
    }
    if async_branch > 0 {
        push_line(&mut r, phrase("contains ", async_branch as u64, " async/branching control signal(s)"));
        proof { e = e.push("contains "@ + dec(async_branch as nat) + " async/branching control signal(s)"@); }
    }
    if complexity >= 10 {
        let mut s = "max cyclomatic complexity ".to_string();
        let d = decimal(complexity as u64);
        s.append(d.as_str());
        push_line(&mut r, s);
        proof { e = e.push("max cyclomatic complexity "@ + dec(complexity as nat)); }
    }
    if churn > 0 {
        push_line(&mut r, phrase("changed in ", churn as u64, " recent commit(s)"));
        proof { e = e.push("changed in "@ + dec(churn as nat) + " recent commit(s)"@); }
    }
    if hotspot_risk > 0 {
        let mut s = "git hotspot risk ".to_string();
        let d = decimal(hotspot_risk);
        s.append(d.as_str());
        push_line(&mut r, s);
        proof { e = e.push("git hotspot risk "@ + dec(hotspot_risk as nat)); }
    }
    assert(e == concentration_reasons_text(authority, side_effects, timer_retry, async_branch, complexity, churn, hotspot_risk));
    r
}

/// A source file as read for the concentration analysis: its contents, or
/// the message of the error met while reading it.
pub struct ConcentrationSource {
    pub path: String,
    pub contents: Result<String, String>,
}

/// Per-file inputs that other analyses provide: how many configured concepts
/// a file writes, and how many distinct symbols it writes.
pub struct ConcentrationInputs {
    pub complexity: Vec<(String, u32)>,
    pub authority_breadth: Vec<(String, u32)>,
    pub semantic_side_effects: Vec<(String, u32)>,
}

/// The value recorded for `key`, or zero.
pub open spec fn count_or_zero(entries: Seq<(String, u32)>, key: Text) -> u32 {
    match lookup(entries, key) {
        Some(v) => v,
        None => 0,
    }
}

fn value_or_zero(entries: &Vec<(String, u32)>, key: &str) -> (r: u32)
    ensures
        r == count_or_zero(entries@, key@),
{
    match crate::evolution::lookup_entry(entries, key) {
        Some(v) => v,
        None => 0,
    }
}

/// The text analysed for a source: its contents, or nothing when it could
/// not be read.
pub open spec fn source_text(source: ConcentrationSource) -> Text {
    match source.contents {
        Ok(c) => c@,
        Err(_) => Seq::empty(),
    }
}

/// The warning raised for a source that could not be read.
pub open spec fn read_warning_of(source: ConcentrationSource) -> Option<Text> {
    match source.contents {
        Ok(_) => None,
        Err(e) => Some("Failed to read concentration source '"@ + source.path@ + "': "@ + e@),
    }
}

/// The side-effect breadth: side-effect call hits plus distinct written
/// symbols, saturating at `u32::MAX`.
pub open spec fn side_effect_breadth_of(api_hits: nat, semantic: u32) -> u32 {
    if api_hits + semantic > u32::MAX {
        u32::MAX
    } else {
        (api_hits + semantic) as u32
    }
}

/// Commit count, hotspot risk and whether the history knows the file.
pub open spec fn history_signals(history: Option<ConcentrationHistory>, path: Text) -> (u32, u64, bool) {
    match history {
        Some(h) => (
            match lookup(h.churn_commits@, path) {
                Some(c) => c,
                None => 0,
            },
            match lookup(h.hotspot_risk@, path) {
                Some(v) => v,
                None => 0,
            },
            lookup(h.churn_commits@, path) is Some || lookup(h.hotspot_risk@, path) is Some,
        ),
        None => (0, 0, false),
    }
}

/// `r` is the concentration report of `source`: every signal measured on the
/// scrubbed source text, the score and the reasons computed from them.
pub open spec fn describes_concentration(
    r: ConcentrationReport,
    source: ConcentrationSource,
    inputs: ConcentrationInputs,
    history: Option<ConcentrationHistory>,
) -> bool {
    let clean = scrubbed(source_text(source));
    let path = source.path@;
    let (churn, risk, known) = history_signals(history, path);
    &&& r.path@ == path
    &&& r.authority_breadth == count_or_zero(inputs.authority_breadth@, path)
    &&& r.side_effect_breadth == side_effect_breadth_of(
        capped_hits(clean, side_effect_patterns(), 3),
        count_or_zero(inputs.semantic_side_effects@, path),
    )
    &&& r.timer_retry_weight == capped_hits(clean, timer_retry_patterns(), 4)
    &&& r.async_branch_weight == capped_hits(clean, async_branch_patterns(), 6)
    &&& r.max_complexity == count_or_zero(inputs.complexity@, path)
    &&& r.churn_commits == churn
    &&& r.hotspot_risk == risk
    &&& r.score_0_10000 == concentration_score_of(
        r.authority_breadth as nat,
        r.side_effect_breadth as nat,
        r.timer_retry_weight as nat,
        r.async_branch_weight as nat,
        r.max_complexity as nat,
        churn as nat,
        risk as nat,
        known,
    )
    &&& r.reasons.deep_view() == concentration_reasons_text(
        r.authority_breadth,
        r.side_effect_breadth,
        r.timer_retry_weight,
        r.async_branch_weight,
        r.max_complexity,
        churn,
        risk,
    )
}

/// The concentration report of one file; a read error leaves the file's
/// contents empty and yields a warning.
pub fn build_concentration_report(
    source: &ConcentrationSource,
    inputs: &ConcentrationInputs,
    history: Option<&ConcentrationHistory>,
) -> (r: (ConcentrationReport, Option<String>))
    ensures
        describes_concentration(r.0, *source, *inputs, match history {
            Some(h) => Some(*h),
            None => None,
        }),
        match r.1 {
            Some(w) => read_warning_of(*source) == Some(w@),
            None => read_warning_of(*source) is None,
        },
{
    let path = source.path.as_str();
    let (text, warning) = match &source.contents {
        Ok(c) => (c.clone(), None),
        Err(e) => {
            let mut w = "Failed to read concentration source '".to_string();
            w.append(path);
            w.append("': ");
            w.append(e.as_str());
            (String::new(), Some(w))
        },
    };
    assert(text@ == source_text(*source));
    let clean = scrub_non_code_regions(text.as_str());
    let side = side_effect_pattern_list();
    let timers = timer_retry_pattern_list();
    let asyncs = async_branch_pattern_list();
    let side_effect_api_weight = capped_pattern_hits(clean.as_str(), &side, 3);
    let timer_retry_weight = capped_pattern_hits(clean.as_str(), &timers, 4);
    let async_branch_weight = capped_pattern_hits(clean.as_str(), &asyncs, 6);
    let authority_breadth = value_or_zero(&inputs.authority_breadth, path);
    let semantic = value_or_zero(&inputs.semantic_side_effects, path);
    let side_effect_breadth = if side_effect_api_weight > u32::MAX - semantic {
        u32::MAX
    } else {
        side_effect_api_weight + semantic
    };
    let max_complexity = value_or_zero(&inputs.complexity, path);
    let (churn_commits, hotspot_risk, history_available) = match history {
        Some(h) => {
            let churn = crate::evolution::lookup_entry(&h.churn_commits, path);
            let risk = crate::evolution::lookup_entry(&h.hotspot_risk, path);
            (
                match churn {
                    Some(c) => c,
                    None => 0,
                },
                match risk {
                    Some(v) => v,
                    None => 0,
                },
                churn.is_some() || risk.is_some(),
            )
        },
        None => (0, 0, false),
    };
    let score = concentration_score_0_10000(
        authority_breadth,
        side_effect_breadth,
        timer_retry_weight,
        async_branch_weight,
        max_complexity,
        churn_commits,
        hotspot_risk,
        history_available,
    );
    let reasons = concentration_reasons(
        authority_breadth,
        side_effect_breadth,
        timer_retry_weight,
        async_branch_weight,
        max_complexity,
        churn_commits,
        hotspot_risk,
    );
    let report = ConcentrationReport {
        path: source.path.clone(),
        score_0_10000: score,
        authority_breadth,
        side_effect_breadth,
        timer_retry_weight,
        async_branch_weight,
        max_complexity,
        churn_commits,
        hotspot_risk,
        reasons,
    };
    (report, warning)
}

impl Ranked for ConcentrationReport {
    /// Higher score first, then higher hotspot risk, then higher complexity,
    /// then path.
    open spec fn ranks_before(self, other: Self) -> bool {
        ||| self.score_0_10000 > other.score_0_10000
        ||| (self.score_0_10000 == other.score_0_10000 && self.hotspot_risk > other.hotspot_risk)
        ||| (self.score_0_10000 == other.score_0_10000 && self.hotspot_risk == other.hotspot_risk
            && self.max_complexity > other.max_complexity)
        ||| (self.score_0_10000 == other.score_0_10000 && self.hotspot_risk == other.hotspot_risk
            && self.max_complexity == other.max_complexity && lex_lt(self.path@, other.path@))
    }

    fn is_ranked_before(&self, other: &Self) -> (r: bool) {
        if self.score_0_10000 != other.score_0_10000 {
            return self.score_0_10000 > other.score_0_10000;
        }
        if self.hotspot_risk != other.hotspot_risk {
            return self.hotspot_risk > other.hotspot_risk;
        }
        if self.max_complexity != other.max_complexity {
            return self.max_complexity > other.max_complexity;
        }
        text_less(self.path.as_str(), other.path.as_str())
    }

    proof fn lemma_ranking_irreflexive(a: Self) {
        crate::order::lemma_lex_irreflexive(a.path@);
    }

    proof fn lemma_ranking_transitive(a: Self, b: Self, c: Self) {
        if lex_lt(a.path@, b.path@) && lex_lt(b.path@, c.path@) {
            crate::order::lemma_lex_transitive(a.path@, b.path@, c.path@);
        }
    }

    proof fn lemma_ranking_connected(a: Self, b: Self, c: Self) {
        crate::order::lemma_lex_total(a.path@, b.path@);
        crate::order::lemma_lex_total(b.path@, c.path@);
        if lex_lt(b.path@, a.path@) && lex_lt(c.path@, b.path@) {
            crate::order::lemma_lex_transitive(c.path@, b.path@, a.path@);
            crate::order::lemma_lex_asymmetric(c.path@, a.path@);
        }
        if lex_lt(b.path@, a.path@) && b.path@ == c.path@ {
            crate::order::lemma_lex_asymmetric(b.path@, a.path@);
        }
        if a.path@ == b.path@ && lex_lt(c.path@, b.path@) {
            crate::order::lemma_lex_asymmetric(c.path@, b.path@);
        }
    }
}

/// The warnings raised for the sources that could not be read, in order.
pub open spec fn read_warnings_of(sources: Seq<ConcentrationSource>) -> Seq<Text>
    decreases sources.len(),
{
    if sources.len() == 0 {
        Seq::empty()
    } else {
        let prev = read_warnings_of(sources.drop_last());
        match read_warning_of(sources.last()) {
            Some(w) => prev.push(w),
            None => prev,
        }
    }
}

/// The source could not be read.
pub open spec fn read_failed(source: ConcentrationSource) -> bool {
    source.contents is Err
}

/// The warning text for a source whose read failed.
pub open spec fn failure_text(source: ConcentrationSource) -> Text {
    match source.contents {
        Ok(_) => Seq::empty(),
        Err(e) => "Failed to read concentration source '"@ + source.path@ + "': "@ + e@,
    }
}

/// The read warnings are one per source that could not be read, in the
/// sources' order.
pub proof fn lemma_read_warnings_per_failure(sources: Seq<ConcentrationSource>)
    ensures
        read_warnings_of(sources) == sources.filter(|s: ConcentrationSource| read_failed(s)).map_values(
            |s: ConcentrationSource| failure_text(s),
        ),
    decreases sources.len(),
{
    reveal(Seq::filter);
    let pred = |s: ConcentrationSource| read_failed(s);
    let f = |s: ConcentrationSource| failure_text(s);
    if sources.len() == 0 {
        assert(sources.filter(pred).map_values(f) =~= Seq::<Text>::empty());
    } else {
        lemma_read_warnings_per_failure(sources.drop_last());
        let prev = sources.drop_last().filter(pred);
        if read_failed(sources.last()) {
            assert(sources.filter(pred) == prev.push(sources.last()));
            assert(sources.filter(pred).map_values(f) =~= prev.map_values(f).push(failure_text(sources.last())));
        } else {
            assert(sources.filter(pred) == prev);
        }
    }
}

/// The history as a spec value.
pub open spec fn history_view(history: Option<&ConcentrationHistory>) -> Option<ConcentrationHistory> {
    match history {
        Some(h) => Some(*h),
        None => None,
    }
}

/// The concentration reports of the files that score above zero, highest
/// first, with a warning for every file that could not be read.
pub fn build_concentration_reports(
    sources: &Vec<ConcentrationSource>,
    inputs: &ConcentrationInputs,
    history: Option<&ConcentrationHistory>,
) -> (r: ConcentrationBuildResult)
    ensures
        ranked_order(r.reports@),
        exists|built: Seq<ConcentrationReport>|
            #![trigger built.len()]
            {
                &&& built.len() == sources@.len()
                &&& forall|j: int|
                    0 <= j < built.len() ==> describes_concentration(
                        #[trigger] built[j],
                        sources@[j],
                        *inputs,
                        history_view(history),
                    )
                &&& r.reports@.to_multiset() == built.filter(|x: ConcentrationReport| x.score_0_10000 > 0).to_multiset()
                &&& crate::sorting::keeps_ties_in_order(
                    r.reports@,
                    built.filter(|x: ConcentrationReport| x.score_0_10000 > 0),
                )
            },
        r.read_warnings.deep_view() == read_warnings_of(sources@),
        r.read_warnings.deep_view() == sources@.filter(|s: ConcentrationSource| read_failed(s)).map_values(
            |s: ConcentrationSource| failure_text(s),
        ),
        forall|i: int| 0 <= i < r.reports@.len() ==> (#[trigger] r.reports@[i]).score_0_10000 > 0,
{
    proof {
        lemma_read_warnings_per_failure(sources@);
    }
    let mut reports: Vec<ConcentrationReport> = Vec::new();
    let mut warnings: Vec<String> = Vec::new();
    let ghost mut built: Seq<ConcentrationReport> = Seq::empty();
    let ghost pred = |x: ConcentrationReport| x.score_0_10000 > 0;
    proof {
        reveal(Seq::filter);
    }
    let mut i: usize = 0;
    while i < sources.len()
        invariant
            i <= sources@.len(),
            built.len() == i,
            forall|j: int|
                0 <= j < i ==> describes_concentration(#[trigger] built[j], sources@[j], *inputs, history_view(history)),
            reports@ == built.filter(pred),
            pred == (|x: ConcentrationReport| x.score_0_10000 > 0),
            warnings.deep_view() == read_warnings_of(sources@.take(i as int)),
        decreases sources@.len() - i,
    {
        let (report, warning) = build_concentration_report(&sources[i], inputs, history);
        assert(sources@.take(i + 1).drop_last() =~= sources@.take(i as int));
        assert(sources@.take(i + 1).last() == sources@[i as int]);
        match warning {
            Some(w) => {
                push_line(&mut warnings, w);
            },
            None => {},
        }
        let ghost old_built = built;
        proof {
            built = built.push(report);
            assert(built.drop_last() =~= old_built);
            reveal(Seq::filter);
        }
        if report.score_0_10000 > 0 {
            reports.push(report);
        }
        i = i + 1;
    }
    assert(sources@.take(sources@.len() as int) =~= sources@);
    let ghost kept = reports@;
    let sorted = sort_ranked(reports);
    assert(built.len() == sources@.len());
    assert forall|i: int| 0 <= i < sorted@.len() implies (#[trigger] sorted@[i]).score_0_10000 > 0 by {
        vstd::seq_lib::to_multiset_contains(sorted@, sorted@[i]);
        assert(sorted@.contains(sorted@[i]));
        vstd::seq_lib::to_multiset_contains(kept, sorted@[i]);
        let k = choose|k: int| 0 <= k < kept.len() && kept[k] == sorted@[i];
        built.lemma_filter_pred(pred, k);
    }
    ConcentrationBuildResult { reports: sorted, read_warnings: warnings }
}

/// The concentration history of an evolution report: commit counts per file
/// and hotspot risk per file.
pub fn history_from_evolution(report: &crate::evolution::EvolutionReport) -> (r: ConcentrationHistory)
    ensures
        r.churn_commits@.len() == report.churn@.len(),
        forall|k: int| 0 <= k < r.churn_commits@.len() ==> (#[trigger] r.churn_commits@[k]).0@ == report.churn@[k].0@
            && r.churn_commits@[k].1 == report.churn@[k].1.commit_count,
        r.hotspot_risk@.len() == report.hotspots@.len(),
        forall|k: int| 0 <= k < r.hotspot_risk@.len() ==> (#[trigger] r.hotspot_risk@[k]).0@ == report.hotspots@[k].0@
            && r.hotspot_risk@[k].1 == report.hotspots@[k].1,
{
    let mut churn: Vec<(String, u32)> = Vec::new();
    let mut i: usize = 0;
    while i < report.churn.len()
        invariant
            i <= report.churn@.len(),
            churn@.len() == i,
            forall|k: int| 0 <= k < i ==> (#[trigger] churn@[k]).0@ == report.churn@[k].0@ && churn@[k].1
                == report.churn@[k].1.commit_count,
        decreases report.churn@.len() - i,
    {
        churn.push((report.churn[i].0.clone(), report.churn[i].1.commit_count));
        i = i + 1;
    }
    let mut risk: Vec<(String, u64)> = Vec::new();
    let mut j: usize = 0;
    while j < report.hotspots.len()
        invariant
            j <= report.hotspots@.len(),
            risk@.len() == j,
            forall|k: int| 0 <= k < j ==> (#[trigger] risk@[k]).0@ == report.hotspots@[k].0@ && risk@[k].1
                == report.hotspots@[k].1,
        decreases report.hotspots@.len() - j,
    {
        risk.push((report.hotspots[j].0.clone(), report.hotspots[j].1));
        j = j + 1;
    }
    ConcentrationHistory { churn_commits: churn, hotspot_risk: risk }
}

} // verus!
