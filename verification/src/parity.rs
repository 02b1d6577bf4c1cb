//! Contract parity reports: the cells a contract expects on each runtime,
//! which of them are present, and the findings and scores drawn from them.
use crate::obligations::{ratio_score, rounded_ratio_score};
use crate::text::{push_line, text_eq, Text};
use crate::{FindingSeverity, SemanticFinding};
use vstd::prelude::*;

verus! {

/// Which contracts a run considers.
#[derive(Debug, Clone, Copy, PartialEq, Eq, Structural)]
pub enum ParityScope {
    All,
    Changed,
}

/// One expected element of a contract, with its status.
pub struct ParityCell {
    pub kind: String,
    pub status: String,
    pub detail: String,
    pub path: Option<String>,
}

/// The parity of one contract: which cells are present and which are missing.
pub struct ContractParityReport {
    pub id: String,
    pub kind: String,
    pub priority: Option<String>,
    pub files: Vec<String>,
    pub satisfied_cells: Vec<ParityCell>,
    pub missing_cells: Vec<ParityCell>,
    pub score_0_10000: u32,
    pub summary: String,
}

/// The parity reports of a run and the warnings met while reading files.
pub struct ParityBuildResult {
    pub reports: Vec<ContractParityReport>,
    pub read_warnings: Vec<String>,
}

impl Default for ParityBuildResult {
    fn default() -> (r: Self)
        ensures
            r.reports@.len() == 0,
            r.read_warnings@.len() == 0,
    {
        ParityBuildResult { reports: Vec::new(), read_warnings: Vec::new() }
    }
}

/// The kinds of parity findings.
#[derive(Debug, Clone, Copy, PartialEq, Eq, Structural)]
pub enum ParityFindingKind {
    MissingBrowserPath,
    MissingElectronPath,
    ParityVersionGap,
    SnapshotWithoutLiveUpdate,
    MissingLiveUpdatePath,
    MissingContractSymbol,
}

impl ParityFindingKind {
    /// The name of a finding kind.
    pub open spec fn spec_name(self) -> Text {
        match self {
            ParityFindingKind::MissingBrowserPath => "missing_browser_path"@,
            ParityFindingKind::MissingElectronPath => "missing_electron_path"@,
            ParityFindingKind::ParityVersionGap => "parity_version_gap"@,
            ParityFindingKind::SnapshotWithoutLiveUpdate => "snapshot_without_live_update"@,
            ParityFindingKind::MissingLiveUpdatePath => "missing_live_update_path"@,
            ParityFindingKind::MissingContractSymbol => "missing_contract_symbol"@,
        }
    }

    pub fn as_str(self) -> (r: &'static str)
        ensures
            r@ == self.spec_name(),
    {
        match self {
            ParityFindingKind::MissingBrowserPath => "missing_browser_path",
            ParityFindingKind::MissingElectronPath => "missing_electron_path",
            ParityFindingKind::ParityVersionGap => "parity_version_gap",
            ParityFindingKind::SnapshotWithoutLiveUpdate => "snapshot_without_live_update",
            ParityFindingKind::MissingLiveUpdatePath => "missing_live_update_path",
            ParityFindingKind::MissingContractSymbol => "missing_contract_symbol",
        }
    }
}

/// The finding kind and severity of a missing cell, by the cell's kind.
pub open spec fn cell_finding(cell_kind: Text) -> (ParityFindingKind, FindingSeverity) {
    if cell_kind == "browser_entry"@ {
        (ParityFindingKind::MissingBrowserPath, FindingSeverity::High)
    } else if cell_kind == "electron_entry"@ {
        (ParityFindingKind::MissingElectronPath, FindingSeverity::High)
    } else if cell_kind == "versioning"@ {
        (ParityFindingKind::ParityVersionGap, FindingSeverity::Medium)
    } else if cell_kind == "snapshot_without_live_update"@ {
        (ParityFindingKind::SnapshotWithoutLiveUpdate, FindingSeverity::High)
    } else if cell_kind == "browser_live_update_binding"@ || cell_kind == "electron_live_update_binding"@ {
        (ParityFindingKind::MissingLiveUpdatePath, FindingSeverity::High)
    } else {
        (ParityFindingKind::MissingContractSymbol, FindingSeverity::High)
    }
}

/// What a missing cell's kind tells of its finding: a missing browser entry
/// is a missing browser path and a missing Electron entry a missing Electron
/// path, both of high severity; a versioning gap is of medium severity; a
/// snapshot without live update keeps its name; a missing live-update
/// binding on either runtime is a missing live-update path; any other
/// missing cell is a missing contract symbol.
pub open spec fn entry_findings_name_runtime(cell_kind: Text, kind: ParityFindingKind, severity: FindingSeverity) -> bool {
    &&& cell_kind == "browser_entry"@ ==> kind.spec_name() == "missing_browser_path"@ && severity == FindingSeverity::High
    &&& cell_kind == "electron_entry"@ ==> kind.spec_name() == "missing_electron_path"@ && severity == FindingSeverity::High
    &&& cell_kind == "versioning"@ ==> kind.spec_name() == "parity_version_gap"@ && severity == FindingSeverity::Medium
    &&& cell_kind == "snapshot_without_live_update"@ ==> kind.spec_name() == "snapshot_without_live_update"@
        && severity == FindingSeverity::High
    &&& (cell_kind == "browser_live_update_binding"@ || cell_kind == "electron_live_update_binding"@) ==> kind.spec_name()
        == "missing_live_update_path"@ && severity == FindingSeverity::High
    &&& (cell_kind != "browser_entry"@ && cell_kind != "electron_entry"@ && cell_kind != "versioning"@ && cell_kind
        != "snapshot_without_live_update"@ && cell_kind != "browser_live_update_binding"@ && cell_kind
        != "electron_live_update_binding"@) ==> kind.spec_name() == "missing_contract_symbol"@ && severity
        == FindingSeverity::High
}

/// Every cell kind gets the finding its name calls for (see
/// `entry_findings_name_runtime`), and the browser and Electron entries
/// never share a finding kind.
pub proof fn lemma_cell_finding_by_kind(cell_kind: Text)
    ensures
        entry_findings_name_runtime(cell_kind, cell_finding(cell_kind).0, cell_finding(cell_kind).1),
        cell_finding("browser_entry"@).0.spec_name() != cell_finding("electron_entry"@).0.spec_name(),
{
    reveal_strlit("browser_entry");
    reveal_strlit("electron_entry");
    reveal_strlit("versioning");
    reveal_strlit("snapshot_without_live_update");
    reveal_strlit("browser_live_update_binding");
    reveal_strlit("electron_live_update_binding");
    reveal_strlit("missing_browser_path");
    reveal_strlit("missing_electron_path");
    assert("browser_entry"@.len() != "electron_entry"@.len());
    assert("missing_browser_path"@.len() != "missing_electron_path"@.len());
    assert("versioning"@.len() == 10 && "browser_entry"@.len() == 13 && "electron_entry"@.len() == 14);
    assert("snapshot_without_live_update"@.len() == 28 && "browser_live_update_binding"@.len() == 27
        && "electron_live_update_binding"@.len() == 28);
    assert("snapshot_without_live_update"@[0] != "electron_live_update_binding"@[0]);
    assert("versioning"@ != "browser_entry"@ && "versioning"@ != "electron_entry"@);
    assert("snapshot_without_live_update"@ != "browser_entry"@ && "snapshot_without_live_update"@ != "electron_entry"@
        && "snapshot_without_live_update"@ != "versioning"@);
    assert("browser_live_update_binding"@ != "browser_entry"@ && "browser_live_update_binding"@ != "electron_entry"@
        && "browser_live_update_binding"@ != "versioning"@ && "browser_live_update_binding"@ != "snapshot_without_live_update"@);
    assert("electron_live_update_binding"@ != "browser_entry"@ && "electron_live_update_binding"@ != "electron_entry"@
        && "electron_live_update_binding"@ != "versioning"@ && "electron_live_update_binding"@
        != "snapshot_without_live_update"@);
}

/// The finding kind and severity of a missing cell (see `cell_finding`).
pub fn finding_kind_and_severity(cell: &ParityCell) -> (r: (ParityFindingKind, FindingSeverity))
    ensures
        r == cell_finding(cell.kind@),
        entry_findings_name_runtime(cell.kind@, r.0, r.1),
{
    proof {
        lemma_cell_finding_by_kind(cell.kind@);
    }
    let k = cell.kind.as_str();
    if text_eq(k, "browser_entry") {
        (ParityFindingKind::MissingBrowserPath, FindingSeverity::High)
    } else if text_eq(k, "electron_entry") {
        (ParityFindingKind::MissingElectronPath, FindingSeverity::High)
    } else if text_eq(k, "versioning") {
        (ParityFindingKind::ParityVersionGap, FindingSeverity::Medium)
    } else if text_eq(k, "snapshot_without_live_update") {
        (ParityFindingKind::SnapshotWithoutLiveUpdate, FindingSeverity::High)
    } else if text_eq(k, "browser_live_update_binding") || text_eq(k, "electron_live_update_binding") {
        (ParityFindingKind::MissingLiveUpdatePath, FindingSeverity::High)
    } else {
        (ParityFindingKind::MissingContractSymbol, FindingSeverity::High)
    }
}

/// The finding of one missing cell of a contract.
pub open spec fn is_parity_finding(f: SemanticFinding, report: ContractParityReport, cell: ParityCell) -> bool {
    let (kind, severity) = cell_finding(cell.kind@);
    &&& f.kind@ == kind.spec_name()
    &&& f.severity == severity
    &&& f.concept_id@ == report.id@
    &&& f.summary@ == "Contract '"@ + report.id@ + "' is missing "@ + cell.kind@
    &&& f.files.deep_view() == (match cell.path {
        Some(p) => seq![p@],
        None => Seq::empty(),
    })
    &&& f.evidence.deep_view() == seq![cell.detail@]
}

/// The (report, cell) positions of every missing cell, report by report.
pub open spec fn missing_cell_positions(reports: Seq<ContractParityReport>) -> Seq<(int, int)>
    decreases reports.len(),
{
    if reports.len() == 0 {
        Seq::empty()
    } else {
        let r = reports.len() - 1;
        missing_cell_positions(reports.drop_last()) + Seq::new(
            reports.last().missing_cells@.len(),
            |c: int| (r, c),
        )
    }
}

fn parity_finding(report: &ContractParityReport, cell: &ParityCell) -> (f: SemanticFinding)
    ensures
        is_parity_finding(f, *report, *cell),
{
    let (kind, severity) = finding_kind_and_severity(cell);
    let mut summary = "Contract '".to_string();
    summary.append(report.id.as_str());
    summary.append("' is missing ");
    summary.append(cell.kind.as_str());
    let mut files: Vec<String> = Vec::new();
    match &cell.path {
        Some(p) => push_line(&mut files, p.clone()),
        None => {},
    }
    assert(files.deep_view() =~= (match cell.path {
        Some(p) => seq![p@],
        None => Seq::<Text>::empty(),
    }));
    let mut evidence: Vec<String> = Vec::new();
    push_line(&mut evidence, cell.detail.clone());
    assert(evidence.deep_view() =~= seq![cell.detail@]);
    SemanticFinding {
        kind: kind.as_str().to_string(),
        severity,
        concept_id: report.id.clone(),
        summary,
        files,
        evidence,
    }
}

/// `f` is the finding of the missing cell at `pos` (report, cell).
pub open spec fn finding_at(reports: Seq<ContractParityReport>, pos: (int, int), f: SemanticFinding) -> bool {
    &&& 0 <= pos.0 < reports.len()
    &&& 0 <= pos.1 < reports[pos.0].missing_cells@.len()
    &&& is_parity_finding(f, reports[pos.0], reports[pos.0].missing_cells@[pos.1])
}

/// One finding per missing cell, report by report and cell by cell.
pub fn build_parity_findings(reports: &Vec<ContractParityReport>) -> (r: Vec<SemanticFinding>)
    ensures
        r@.len() == missing_cell_positions(reports@).len(),
        forall|k: int| 0 <= k < r@.len() ==> finding_at(reports@, missing_cell_positions(reports@)[k], #[trigger] r@[k]),
        forall|k: int|
            0 <= k < r@.len() ==> {
                let pos = missing_cell_positions(reports@)[k];
                let cell = reports@[pos.0].missing_cells@[pos.1];
                &&& (#[trigger] r@[k]).concept_id@ == reports@[pos.0].id@
                &&& cell.kind@ == "browser_entry"@ ==> r@[k].kind@ == "missing_browser_path"@ && r@[k].severity
                    == FindingSeverity::High
                &&& cell.kind@ == "electron_entry"@ ==> r@[k].kind@ == "missing_electron_path"@ && r@[k].severity
                    == FindingSeverity::High
                &&& cell.kind@ == "versioning"@ ==> r@[k].kind@ == "parity_version_gap"@ && r@[k].severity
                    == FindingSeverity::Medium
            },
{
    let mut r: Vec<SemanticFinding> = Vec::new();
    let mut i: usize = 0;
    while i < reports.len()
        invariant
            i <= reports@.len(),
            r@.len() == missing_cell_positions(reports@.take(i as int)).len(),
            forall|k: int|
                0 <= k < r@.len() ==> finding_at(reports@, missing_cell_positions(reports@.take(i as int))[k], #[trigger] r@[k]),
        decreases reports@.len() - i,
    {
        let ghost before = missing_cell_positions(reports@.take(i as int));
        let ghost start = r@.len();
        assert(reports@.take(i + 1).drop_last() =~= reports@.take(i as int));
        let report = &reports[i];
        let ghost added = Seq::new(report.missing_cells@.len(), |c: int| (i as int, c));
        assert(missing_cell_positions(reports@.take(i + 1)) == before + added);
        let mut c: usize = 0;
        while c < report.missing_cells.len()
            invariant
                i < reports@.len(),
                *report == reports@[i as int],
                c <= report.missing_cells@.len(),
                start == before.len(),
                r@.len() == start + c,
                forall|k: int| 0 <= k < start ==> finding_at(reports@, before[k], #[trigger] r@[k]),
                forall|k: int| start <= k < r@.len() ==> finding_at(reports@, (i as int, k - start), #[trigger] r@[k]),
            decreases report.missing_cells@.len() - c,
        {
            let f = parity_finding(report, &report.missing_cells[c]);
            r.push(f);
            c = c + 1;
        }
        assert forall|k: int| 0 <= k < r@.len() implies finding_at(
            reports@,
            missing_cell_positions(reports@.take(i + 1))[k],
            #[trigger] r@[k],
        ) by {
            if k < start {
                assert((before + added)[k] == before[k]);
            } else {
                assert((before + added)[k] == added[k - start]);
            }
        }
        i = i + 1;
    }
    assert(reports@.take(reports@.len() as int) =~= reports@);
    proof {
        assert forall|k: int| 0 <= k < r@.len() implies {
            let pos = missing_cell_positions(reports@)[k];
            let cell = reports@[pos.0].missing_cells@[pos.1];
            &&& (#[trigger] r@[k]).concept_id@ == reports@[pos.0].id@
            &&& cell.kind@ == "browser_entry"@ ==> r@[k].kind@ == "missing_browser_path"@ && r@[k].severity
                == FindingSeverity::High
            &&& cell.kind@ == "electron_entry"@ ==> r@[k].kind@ == "missing_electron_path"@ && r@[k].severity
                == FindingSeverity::High
            &&& cell.kind@ == "versioning"@ ==> r@[k].kind@ == "parity_version_gap"@ && r@[k].severity
                == FindingSeverity::Medium
        } by {
            let pos = missing_cell_positions(reports@)[k];
            let cell = reports@[pos.0].missing_cells@[pos.1];
            assert(finding_at(reports@, pos, r@[k]));
            lemma_cell_finding_by_kind(cell.kind@);
        }
    }
    r
}

/// The number of present cells over all reports.
pub open spec fn satisfied_cell_total(reports: Seq<ContractParityReport>) -> nat
    decreases reports.len(),
{
    if reports.len() == 0 {
        0
    } else {
        satisfied_cell_total(reports.drop_last()) + reports.last().satisfied_cells@.len()
    }
}

/// The number of expected cells, present or missing, over all reports.
pub open spec fn cell_total(reports: Seq<ContractParityReport>) -> nat
    decreases reports.len(),
{
    if reports.len() == 0 {
        0
    } else {
        cell_total(reports.drop_last()) + reports.last().satisfied_cells@.len()
            + reports.last().missing_cells@.len()
    }
}

proof fn lemma_cell_totals(reports: Seq<ContractParityReport>, k: int)
    requires
        0 <= k <= reports.len(),
    ensures
        satisfied_cell_total(reports.take(k)) <= cell_total(reports.take(k)),
        cell_total(reports.take(k)) <= cell_total(reports),
    decreases reports.len() - k,
{
    if k < reports.len() {
        lemma_cell_totals(reports.drop_last(), k);
        assert(reports.drop_last().take(k) =~= reports.take(k));
    } else {
        assert(reports.take(k) =~= reports);
        lemma_satisfied_within(reports);
    }
}

proof fn lemma_satisfied_within(reports: Seq<ContractParityReport>)
    ensures
        satisfied_cell_total(reports) <= cell_total(reports),
    decreases reports.len(),
{
    if reports.len() > 0 {
        lemma_satisfied_within(reports.drop_last());
    }
}

/// The share of expected cells that are present, over all reports, scaled to
/// 0..=10000 (10000 when no cell is expected).
pub fn parity_score_0_10000(reports: &Vec<ContractParityReport>) -> (r: u32)
    requires
        cell_total(reports@) <= usize::MAX,
    ensures
        r == ratio_score(satisfied_cell_total(reports@), cell_total(reports@)),
        r <= 10000,
{
    let mut satisfied: usize = 0;
    let mut total: usize = 0;
    let mut i: usize = 0;
    while i < reports.len()
        invariant
            i <= reports@.len(),
            cell_total(reports@) <= usize::MAX,
            satisfied == satisfied_cell_total(reports@.take(i as int)),
            total == cell_total(reports@.take(i as int)),
        decreases reports@.len() - i,
    {
        assert(reports@.take(i + 1).drop_last() =~= reports@.take(i as int));
        proof {
            lemma_cell_totals(reports@, i + 1);
        }
        satisfied = satisfied + reports[i].satisfied_cells.len();
        total = total + reports[i].satisfied_cells.len() + reports[i].missing_cells.len();
        i = i + 1;
    }
    assert(reports@.take(reports@.len() as int) =~= reports@);
    proof {
        lemma_satisfied_within(reports@);
        crate::obligations::lemma_ratio_score_bounded(satisfied as nat, total as nat);
    }
    rounded_ratio_score(satisfied, total)
}

} // verus!
