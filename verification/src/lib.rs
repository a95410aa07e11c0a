//! Supply-chain checks for CI workflow files, with verified contracts.
//!
//! Every verdict is fact based: what fails a build comes from a fact that can be
//! checked, never from a guess.
use vstd::prelude::*;
use crate::rules::{Finding, FindingV, Suppressed, SuppressedV};

pub mod advisory;
pub mod config;
pub mod dns_observer;
pub mod egress_lockfile;
pub mod fix;
pub mod github_facts;
pub mod lockfile;
pub mod observe;
pub mod report;
pub mod rules;
pub mod scan;
pub mod sorted;
pub mod suppress;
pub mod text;
pub mod trust;
pub mod typosquat;
pub mod uses_ref;
pub mod workflow;

verus! {

/// The result of scanning one repository.
pub struct ScanResult {
    pub workflows_scanned: usize,
    pub findings: Vec<Finding>,
    /// Findings accepted by ignore comments, kept with their reasons.
    pub suppressed: Vec<Suppressed>,
    /// Whether the online rules were left out (no network access was allowed).
    pub online_rules_skipped: bool,
}

pub struct ScanResultV {
    pub workflows_scanned: usize,
    pub findings: Seq<FindingV>,
    pub suppressed: Seq<SuppressedV>,
    pub online_rules_skipped: bool,
}

impl DeepView for ScanResult {
    type V = ScanResultV;

    open spec fn deep_view(&self) -> ScanResultV {
        ScanResultV {
            workflows_scanned: self.workflows_scanned,
            findings: self.findings.deep_view(),
            suppressed: self.suppressed.deep_view(),
            online_rules_skipped: self.online_rules_skipped,
        }
    }
}

} // verus!
