//! Diagnosis model: the output of the deterministic diagnostic engine.

use crate::text::texts;
use vstd::prelude::*;

verus! {

/// How severe a diagnosis is.
#[derive(Debug, Clone, Copy, PartialEq, Eq, PartialOrd, Ord, Structural)]
pub enum Severity {
    /// Informational; no anomaly.
    Info,
    /// Minor anomaly.
    Low,
    /// Moderate anomaly.
    Medium,
    /// Significant anomaly.
    High,
}

/// How strongly observations support a diagnosis.
///
/// Confidence accumulates when independent signals align.
#[derive(Debug, Clone, Copy, PartialEq, Eq, PartialOrd, Ord, Structural)]
pub enum Confidence {
    /// Not enough evidence to commit to any conclusion.
    Unknown,
    /// Weak, possibly coincidental support.
    Low,
    /// Several observations agree.
    Medium,
    /// Multiple independent observations strongly agree.
    High,
}

/// A high-level category a diagnosis belongs to.
#[derive(Debug, Clone, Copy, PartialEq, Eq, Structural)]
pub enum DiagnosticCategory {
    /// All observed layers succeed.
    Healthy,
    /// DNS resolution failed or is inconsistent.
    Dns,
    /// IPv4 works while IPv6 fails (or vice versa).
    AddressFamily,
    /// Connectivity to some destination addresses fails.
    PartialConnectivity,
    /// All destination addresses fail identically.
    TotalConnectivityLoss,
    /// Intermittent / partial success over repeated attempts.
    Intermittent,
    /// TCP-layer failures.
    Tcp,
    /// TLS-layer failures.
    Tls,
    /// Serving certificate is expired or expiring soon.
    Certificate,
    /// HTTP/application-layer failures.
    Http,
    /// Failures appear only on the QUIC/UDP path.
    Quic,
    /// Possible network filtering / interference (conservative).
    PossibleNetworkFiltering,
    /// A diagnosis was attempted but no conclusion could be reached.
    Unknown,
}

/// A single corroborating observation referenced by a [`Diagnosis`].
#[derive(Debug, Clone, PartialEq, Eq)]
pub struct Evidence {
    /// Human-readable description of the observation.
    pub detail: String,
}

impl DeepView for Evidence {
    type V = Seq<char>;

    open spec fn deep_view(&self) -> Seq<char> {
        self.detail@
    }
}

/// A single, deterministic diagnostic conclusion.
#[derive(Debug, Clone, PartialEq, Eq)]
pub struct Diagnosis {
    /// Severity of the anomaly.
    pub severity: Severity,
    /// Category of the diagnosis.
    pub category: DiagnosticCategory,
    /// How well the evidence supports this conclusion.
    pub confidence: Confidence,
    /// One-line summary.
    pub summary: String,
    /// Observations supporting the conclusion.
    pub evidence: Vec<Evidence>,
    /// Alternative explanations that remain consistent with the evidence.
    pub possible_causes: Vec<String>,
}

/// The model of a [`Diagnosis`].
#[verifier::ext_equal]
pub struct DiagnosisModel {
    pub severity: Severity,
    pub category: DiagnosticCategory,
    pub confidence: Confidence,
    pub summary: Seq<char>,
    pub evidence: Seq<Seq<char>>,
    pub possible_causes: Seq<Seq<char>>,
}

impl DeepView for Diagnosis {
    type V = DiagnosisModel;

    open spec fn deep_view(&self) -> DiagnosisModel {
        DiagnosisModel {
            severity: self.severity,
            category: self.category,
            confidence: self.confidence,
            summary: self.summary@,
            evidence: self.evidence@.map_values(|e: Evidence| e.detail@),
            possible_causes: texts(self.possible_causes@),
        }
    }
}

} // verus!
