//! Human rendering of diagnoses.

use super::layout::{line, push_line};
use crate::model::diagnosis::DiagnosisModel;
use crate::model::{Confidence, Diagnosis, DiagnosticCategory, Evidence, Severity};
use crate::style::{cyan, red, yellow, Style};
use crate::text::{dec, dec_text, glue, join, join_texts, push_dec, push_text, texts};
use vstd::prelude::*;

verus! {

impl Severity {
    /// The name of the severity as shown.
    pub open spec fn text(self) -> Seq<char> {
        match self {
            Severity::Info => "INFO"@,
            Severity::Low => "LOW"@,
            Severity::Medium => "MEDIUM"@,
            Severity::High => "HIGH"@,
        }
    }

    /// The name of the severity as shown.
    pub fn to_text(&self) -> (out: &'static str)
        ensures
            out@ == self.text(),
    {
        match self {
            Severity::Info => "INFO",
            Severity::Low => "LOW",
            Severity::Medium => "MEDIUM",
            Severity::High => "HIGH",
        }
    }
}

impl Severity {
    /// The name of the severity in tables.
    pub open spec fn name(self) -> Seq<char> {
        match self {
            Severity::Info => "Info"@,
            Severity::Low => "Low"@,
            Severity::Medium => "Medium"@,
            Severity::High => "High"@,
        }
    }

    /// The name of the severity in tables.
    pub fn to_name(&self) -> (out: &'static str)
        ensures
            out@ == self.name(),
    {
        match self {
            Severity::Info => "Info",
            Severity::Low => "Low",
            Severity::Medium => "Medium",
            Severity::High => "High",
        }
    }
}

impl Confidence {
    /// The name of the confidence as shown.
    pub open spec fn text(self) -> Seq<char> {
        match self {
            Confidence::Unknown => "Unknown"@,
            Confidence::Low => "Low"@,
            Confidence::Medium => "Medium"@,
            Confidence::High => "High"@,
        }
    }

    /// The name of the confidence as shown.
    pub fn to_text(&self) -> (out: &'static str)
        ensures
            out@ == self.text(),
    {
        match self {
            Confidence::Unknown => "Unknown",
            Confidence::Low => "Low",
            Confidence::Medium => "Medium",
            Confidence::High => "High",
        }
    }
}

impl DiagnosticCategory {
    /// The name of the category as shown.
    pub open spec fn text(self) -> Seq<char> {
        match self {
            DiagnosticCategory::Healthy => "Healthy"@,
            DiagnosticCategory::Dns => "Dns"@,
            DiagnosticCategory::AddressFamily => "AddressFamily"@,
            DiagnosticCategory::PartialConnectivity => "PartialConnectivity"@,
            DiagnosticCategory::TotalConnectivityLoss => "TotalConnectivityLoss"@,
            DiagnosticCategory::Intermittent => "Intermittent"@,
            DiagnosticCategory::Tcp => "Tcp"@,
            DiagnosticCategory::Tls => "Tls"@,
            DiagnosticCategory::Certificate => "Certificate"@,
            DiagnosticCategory::Http => "Http"@,
            DiagnosticCategory::Quic => "Quic"@,
            DiagnosticCategory::PossibleNetworkFiltering => "PossibleNetworkFiltering"@,
            DiagnosticCategory::Unknown => "Unknown"@,
        }
    }

    /// The name of the category as shown.
    pub fn to_text(&self) -> (out: &'static str)
        ensures
            out@ == self.text(),
    {
        match self {
            DiagnosticCategory::Healthy => "Healthy",
            DiagnosticCategory::Dns => "Dns",
            DiagnosticCategory::AddressFamily => "AddressFamily",
            DiagnosticCategory::PartialConnectivity => "PartialConnectivity",
            DiagnosticCategory::TotalConnectivityLoss => "TotalConnectivityLoss",
            DiagnosticCategory::Intermittent => "Intermittent",
            DiagnosticCategory::Tcp => "Tcp",
            DiagnosticCategory::Tls => "Tls",
            DiagnosticCategory::Certificate => "Certificate",
            DiagnosticCategory::Http => "Http",
            DiagnosticCategory::Quic => "Quic",
            DiagnosticCategory::PossibleNetworkFiltering => "PossibleNetworkFiltering",
            DiagnosticCategory::Unknown => "Unknown",
        }
    }
}

/// The severity badge: `HIGH` red, `MEDIUM` yellow, `INFO` cyan, `LOW` plain.
pub open spec fn badge(color: bool, severity: Severity) -> Seq<char> {
    match severity {
        Severity::High => red(color, severity.text()),
        Severity::Medium => yellow(color, severity.text()),
        Severity::Info => cyan(color, severity.text()),
        Severity::Low => severity.text(),
    }
}

/// Items as shown, one line each.
pub open spec fn items(s: Seq<Seq<char>>) -> Seq<char>
    decreases s.len(),
{
    if s.len() == 0 {
        Seq::empty()
    } else {
        items(s.drop_last()) + line("      - "@, s.last())
    }
}

/// Items under a heading, where there are any.
pub open spec fn headed(heading: Seq<char>, s: Seq<Seq<char>>) -> Seq<char> {
    if s.len() == 0 {
        Seq::empty()
    } else {
        heading + items(s)
    }
}

/// A diagnosis as shown.
#[verifier::opaque]
pub open spec fn diagnosis_text(color: bool, d: DiagnosisModel) -> Seq<char> {
    "["@ + badge(color, d.severity) + "] "@ + d.category.text() + " ("@ + d.confidence.text() + " confidence)\n"@
        + line("    "@, d.summary) + headed("    Evidence:\n"@, d.evidence) + headed(
        "    Possible causes:\n"@,
        d.possible_causes,
    ) + "\n"@
}

/// Diagnoses as shown.
pub open spec fn diagnosis_rows(color: bool, s: Seq<DiagnosisModel>) -> Seq<char>
    decreases s.len(),
{
    if s.len() == 0 {
        Seq::empty()
    } else {
        diagnosis_rows(color, s.drop_last()) + diagnosis_text(color, s.last())
    }
}

/// The number of anomalies, of one severity or of any.
pub open spec fn anomalies(s: Seq<DiagnosisModel>, severity: Option<Severity>) -> nat
    decreases s.len(),
{
    if s.len() == 0 {
        0
    } else {
        anomalies(s.drop_last(), severity) + if s.last().category != DiagnosticCategory::Healthy && (severity is None
            || severity == Some(s.last().severity)) {
            1nat
        } else {
            0nat
        }
    }
}

/// Every anomaly is counted under exactly one severity.
pub proof fn lemma_severities_add_up(s: Seq<DiagnosisModel>)
    ensures
        anomalies(s, None) == anomalies(s, Some(Severity::Info)) + anomalies(s, Some(Severity::Low)) + anomalies(
            s,
            Some(Severity::Medium),
        ) + anomalies(s, Some(Severity::High)),
    decreases s.len(),
{
    if s.len() > 0 {
        lemma_severities_add_up(s.drop_last());
    }
}

/// The number of anomalies of a severity as shown, where there are any.
pub open spec fn severity_part(s: Seq<DiagnosisModel>, severity: Severity) -> Seq<Seq<char>> {
    let n = anomalies(s, Some(severity));
    if n > 0 {
        seq![severity.text() + ": "@ + dec(n)]
    } else {
        Seq::empty()
    }
}

/// The anomalies by severity, worst first.
pub open spec fn severity_parts(s: Seq<DiagnosisModel>) -> Seq<Seq<char>> {
    severity_part(s, Severity::High) + severity_part(s, Severity::Medium) + severity_part(s, Severity::Low)
        + severity_part(s, Severity::Info)
}

/// Whether any diagnosis is severe.
pub open spec fn any_high(s: Seq<DiagnosisModel>) -> bool {
    exists|i: int| 0 <= i < s.len() && (#[trigger] s[i]).severity == Severity::High
}

/// The closing line: the anomalies by severity, where there are any; red when
/// any is severe, yellow otherwise.
pub open spec fn trailer(color: bool, s: Seq<DiagnosisModel>) -> Seq<char> {
    let n = anomalies(s, None);
    if n > 0 {
        let token = "Anomalies: "@ + dec(n) + " ("@ + join(severity_parts(s), ", "@) + ")"@;
        line(
            Seq::empty(),
            if any_high(s) {
                red(color, token)
            } else {
                yellow(color, token)
            },
        )
    } else {
        Seq::empty()
    }
}

/// The report on diagnoses.
pub open spec fn diagnosis_report(color: bool, s: Seq<DiagnosisModel>) -> Seq<char> {
    "Diagnosis\n"@ + diagnosis_rows(color, s) + trailer(color, s)
}

/// Render the severity badge.
pub fn render_severity_badge(style: Style, severity: Severity) -> (out: String)
    ensures
        out@ == badge(style.on(), severity),
{
    let text = severity.to_text();
    match severity {
        Severity::High => style.fail(text),
        Severity::Medium => style.warn(text),
        Severity::Info => style.info(text),
        Severity::Low => text.to_owned(),
    }
}

/// Append the evidence of a diagnosis.
fn push_evidence(out: &mut String, evidence: &[Evidence])
    ensures
        final(out)@ == old(out)@ + headed(
            "    Evidence:\n"@,
            evidence@.map_values(|e: Evidence| e.detail@),
        ),
{
    let ghost before = out@;
    let ghost all = evidence@.map_values(|e: Evidence| e.detail@);
    if evidence.len() == 0 {
        assert(before + Seq::<char>::empty() =~= before);
        return ;
    }
    let mut part = "    Evidence:\n".to_owned();
    let ghost head = part@;
    assert(head + Seq::<char>::empty() =~= head);
    for i in 0..evidence.len()
        invariant
            all == evidence@.map_values(|e: Evidence| e.detail@),
            part@ == head + items(all.take(i as int)),
    {
        let ghost front = items(all.take(i as int));
        assert(all.take(i as int + 1).drop_last() =~= all.take(i as int));
        push_line(&mut part, "      - ", evidence[i].detail.as_str());
        assert(part@ =~= head + (front + line("      - "@, all[i as int])));
    }
    assert(all.take(all.len() as int) =~= all);
    out.append(part.as_str());
}

/// Append the possible causes of a diagnosis.
fn push_causes(out: &mut String, causes: &[String])
    ensures
        final(out)@ == old(out)@ + headed("    Possible causes:\n"@, texts(causes@)),
{
    let ghost before = out@;
    let ghost all = texts(causes@);
    if causes.len() == 0 {
        assert(before + Seq::<char>::empty() =~= before);
        return ;
    }
    let mut part = "    Possible causes:\n".to_owned();
    let ghost head = part@;
    assert(head + Seq::<char>::empty() =~= head);
    for i in 0..causes.len()
        invariant
            all == texts(causes@),
            part@ == head + items(all.take(i as int)),
    {
        let ghost front = items(all.take(i as int));
        assert(all.take(i as int + 1).drop_last() =~= all.take(i as int));
        push_line(&mut part, "      - ", causes[i].as_str());
        assert(part@ =~= head + (front + line("      - "@, all[i as int])));
    }
    assert(all.take(all.len() as int) =~= all);
    out.append(part.as_str());
}

/// A diagnosis as shown.
fn render_diagnosis(style: Style, d: &Diagnosis) -> (out: String)
    ensures
        out@ == diagnosis_text(style.on(), d.deep_view()),
{
    let mut out = glue("[", render_severity_badge(style, d.severity).as_str());
    out.append("] ");
    out.append(d.category.to_text());
    out.append(" (");
    out.append(d.confidence.to_text());
    out.append(" confidence)\n");
    push_line(&mut out, "    ", d.summary.as_str());
    push_evidence(&mut out, d.evidence.as_slice());
    push_causes(&mut out, d.possible_causes.as_slice());
    out.append("\n");
    proof {
        reveal(diagnosis_text);
    }
    out
}

/// The number of anomalies, of one severity or of any.
pub fn count_anomalies(s: &[Diagnosis], severity: Option<Severity>) -> (n: usize)
    ensures
        n == anomalies(s.deep_view(), severity),
{
    let ghost models = s.deep_view();
    let mut n: usize = 0;
    for i in 0..s.len()
        invariant
            models == s.deep_view(),
            n == anomalies(models.take(i as int), severity),
            n <= i,
    {
        assert(models.take(i as int + 1).drop_last() =~= models.take(i as int));
        assert(models[i as int] == s@[i as int].deep_view());
        let wanted = match severity {
            Some(x) => x == s[i].severity,
            None => true,
        };
        if s[i].category != DiagnosticCategory::Healthy && wanted {
            n = n + 1;
        }
    }
    assert(models.take(models.len() as int) =~= models);
    n
}

/// Append the number of anomalies of a severity.
fn push_severity(parts: &mut Vec<String>, s: &[Diagnosis], severity: Severity)
    ensures
        texts(final(parts)@) == texts(old(parts)@) + severity_part(s.deep_view(), severity),
{
    let ghost before = texts(parts@);
    let n = count_anomalies(s, Some(severity));
    if n > 0 {
        let mut text = glue(severity.to_text(), ": ");
        push_dec(&mut text, n as u64);
        push_text(parts, text);
    }
    assert(texts(parts@) =~= before + severity_part(s.deep_view(), severity));
}

/// Whether any diagnosis is severe.
fn has_high(s: &[Diagnosis]) -> (r: bool)
    ensures
        r == any_high(s.deep_view()),
{
    let ghost models = s.deep_view();
    for i in 0..s.len()
        invariant
            models == s.deep_view(),
            forall|j: int| 0 <= j < i ==> (#[trigger] models[j]).severity != Severity::High,
    {
        assert(models[i as int] == s@[i as int].deep_view());
        if s[i].severity == Severity::High {
            return true;
        }
    }
    false
}

/// The closing line.
fn render_trailer(style: Style, s: &[Diagnosis]) -> (out: String)
    ensures
        out@ == trailer(style.on(), s.deep_view()),
{
    let n = count_anomalies(s, None);
    if n == 0 {
        return String::new();
    }
    let mut parts: Vec<String> = Vec::new();
    assert(texts(parts@) =~= Seq::empty());
    push_severity(&mut parts, s, Severity::High);
    assert(texts(parts@) =~= severity_part(s.deep_view(), Severity::High));
    push_severity(&mut parts, s, Severity::Medium);
    push_severity(&mut parts, s, Severity::Low);
    push_severity(&mut parts, s, Severity::Info);
    let mut token = glue("Anomalies: ", dec_text(n as u64).as_str());
    token.append(" (");
    token.append(join_texts(parts.as_slice(), ", ").as_str());
    token.append(")");
    let text = if has_high(s) {
        style.fail(token.as_str())
    } else {
        style.warn(token.as_str())
    };
    let mut out = String::new();
    out.append(text.as_str());
    out.append("\n");
    assert(out@ =~= trailer(style.on(), s.deep_view()));
    out
}

/// Render diagnoses as human text. A closing line counts the anomalies by
/// severity; a healthy run has none.
pub fn render_diagnoses(style: &Style, diagnoses: &[Diagnosis]) -> (out: String)
    ensures
        out@ == diagnosis_report(style.on(), diagnoses.deep_view()),
{
    let ghost models = diagnoses.deep_view();
    let mut out = "Diagnosis\n".to_owned();
    let ghost head = out@;
    assert(head + Seq::<char>::empty() =~= head);
    for i in 0..diagnoses.len()
        invariant
            models == diagnoses.deep_view(),
            out@ == head + diagnosis_rows(style.on(), models.take(i as int)),
    {
        let ghost rows = diagnosis_rows(style.on(), models.take(i as int));
        assert(models.take(i as int + 1).drop_last() =~= models.take(i as int));
        assert(models[i as int] == diagnoses@[i as int].deep_view());
        let row = render_diagnosis(*style, &diagnoses[i]);
        out.append(row.as_str());
        assert(out@ =~= head + (rows + row@));
    }
    assert(models.take(models.len() as int) =~= models);
    out.append(render_trailer(*style, diagnoses).as_str());
    out
}

} // verus!
