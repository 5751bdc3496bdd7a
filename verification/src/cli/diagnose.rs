//! The report of a full diagnosis run.

use super::csv::{
    csv_field, field, lemma_field_reads_back, push_cells, read_field, rows, table_texts, write_table,
};
use crate::diagnostics::layer::valid_probes;
use crate::model::{Diagnosis, DnsObservation, HttpObservation, ProbeResult, TcpObservation, TlsObservation};
use crate::model::diagnosis::DiagnosisModel;
use crate::report::date::{today, valid_day};
use crate::report::diagnosis::{anomalies, count_anomalies, diagnosis_report, render_diagnoses};
use crate::report::dns::{dns_report, render_dns};
use crate::report::http::{http_report, render_http_at};
use crate::report::repeat::{probe_report, render_probe};
use crate::report::transport::{render_tcp, render_tls_at, tcp_report, tls_report};
use crate::style::Style;
use crate::text::{group_occurrence, has_text, push_text, texts};
use vstd::prelude::*;

verus! {

/// The full raw observations of one target (the evidence) plus its diagnoses.
pub struct DiagnoseReport {
    /// The target's host.
    pub target: String,
    /// Whether the run was in cleartext.
    pub plain: bool,
    /// What the engine found.
    pub diagnoses: Vec<Diagnosis>,
    /// DNS observations.
    pub dns: Vec<DnsObservation>,
    /// TCP observations.
    pub tcp: Vec<TcpObservation>,
    /// TLS observations.
    pub tls: Vec<TlsObservation>,
    /// HTTP observations.
    pub http: Vec<HttpObservation>,
    /// Repeated probes.
    pub probes: Vec<ProbeResult>,
}

impl DiagnoseReport {
    /// The report on a day: the evidence by layer, then the diagnoses.
    pub open spec fn text(self, color: bool, today: Option<i64>) -> Seq<char> {
        dns_report(color, self.target@, self.dns@) + tcp_report(color, self.tcp@) + tls_report(color, self.tls@, today)
            + http_report(color, self.plain, self.http@, today) + probe_report(color, self.probes@)
            + diagnosis_report(color, self.diagnoses.deep_view())
    }

    /// Render the report, certificate lifetimes as of a day.
    pub fn render_human_at(&self, style: &Style, today: Option<i64>) -> (out: String)
        requires
            valid_day(today),
            valid_probes(self.probes@),
        ensures
            out@ == self.text(style.on(), today),
    {
        let mut out = render_dns(style, self.target.as_str(), self.dns.as_slice());
        out.append(render_tcp(style, self.tcp.as_slice()).as_str());
        out.append(render_tls_at(style, self.tls.as_slice(), today).as_str());
        out.append(render_http_at(style, self.plain, self.http.as_slice(), today).as_str());
        out.append(render_probe(style, self.probes.as_slice()).as_str());
        let found = self.diagnoses.as_slice();
        assert(found.deep_view() =~= self.diagnoses.deep_view());
        out.append(render_diagnoses(style, found).as_str());
        out
    }

    /// Render the full evidence stack (DNS, TCP, TLS, HTTP, repeated probes)
    /// and the diagnoses as human text, by the system clock.
    pub fn render_human(&self, style: &Style) -> (out: String)
        requires
            valid_probes(self.probes@),
        ensures
            exists|now: Option<i64>| #[trigger] valid_day(now) && out@ == self.text(style.on(), now),
    {
        let now = today();
        self.render_human_at(style, now)
    }

    /// The number of anomalies found.
    pub fn anomaly_count(&self) -> (n: usize)
        ensures
            n == anomalies(self.diagnoses.deep_view(), None),
    {
        let found = self.diagnoses.as_slice();
        assert(found.deep_view() =~= self.diagnoses.deep_view());
        count_anomalies(found, None)
    }
}

/// A diagnosis as cells.
pub open spec fn diagnosis_cells(host: Seq<char>, d: DiagnosisModel) -> Seq<Seq<char>> {
    seq![
        field(host),
        field(d.severity.name()),
        field(d.category.text()),
        field(d.confidence.text()),
        field(d.summary),
    ]
}

/// Rows of one report.
pub open spec fn report_rows(host: Seq<char>, s: Seq<DiagnosisModel>) -> Seq<Seq<Seq<char>>> {
    s.map_values(|d: DiagnosisModel| diagnosis_cells(host, d))
}

/// Rows of all reports.
pub open spec fn report_table(reports: Seq<DiagnoseReport>) -> Seq<Seq<Seq<char>>>
    decreases reports.len(),
{
    if reports.len() == 0 {
        Seq::empty()
    } else {
        report_table(reports.drop_last()) + report_rows(
            reports.last().target@,
            reports.last().diagnoses.deep_view(),
        )
    }
}

/// A diagnosis as cells.
fn diagnosis_line(host: &str, d: &Diagnosis) -> (cells: Vec<String>)
    ensures
        texts(cells@) == diagnosis_cells(host@, d.deep_view()),
{
    let mut cells: Vec<String> = Vec::new();
    push_text(&mut cells, csv_field(host));
    push_text(&mut cells, csv_field(d.severity.to_name()));
    push_text(&mut cells, csv_field(d.category.to_text()));
    push_text(&mut cells, csv_field(d.confidence.to_text()));
    push_text(&mut cells, csv_field(d.summary.as_str()));
    assert(texts(cells@) =~= diagnosis_cells(host@, d.deep_view()));
    cells
}

/// Render every diagnosis across every report as CSV: a header line then one
/// row per diagnosis.
pub fn render_csv(reports: &[DiagnoseReport]) -> (out: String)
    ensures
        out@ == "host,severity,category,confidence,summary\n"@ + rows(report_table(reports@)),
{
    let mut table: Vec<Vec<String>> = Vec::new();
    assert(table_texts(table@) =~= Seq::empty());
    for i in 0..reports.len()
        invariant
            table_texts(table@) == report_table(reports@.take(i as int)),
    {
        let ghost before = table_texts(table@);
        assert(reports@.take(i as int + 1).drop_last() =~= reports@.take(i as int));
        let host = reports[i].target.as_str();
        let diagnoses = &reports[i].diagnoses;
        let ghost models = diagnoses.deep_view();
        assert(before + report_rows(host@, models.take(0)) =~= before);
        for j in 0..diagnoses.len()
            invariant
                models == diagnoses.deep_view(),
                table_texts(table@) == before + report_rows(host@, models.take(j as int)),
        {
            assert(models[j as int] == diagnoses@[j as int].deep_view());
            let cells = diagnosis_line(host, &diagnoses[j]);
            push_cells(&mut table, cells);
            assert(report_rows(host@, models.take(j as int + 1)) =~= report_rows(host@, models.take(j as int)).push(
                diagnosis_cells(host@, models[j as int]),
            ));
            assert(table_texts(table@) =~= before + report_rows(host@, models.take(j as int + 1)));
        }
        assert(models.take(models.len() as int) =~= models);
    }
    assert(reports@.take(reports@.len() as int) =~= reports@);
    write_table("host,severity,category,confidence,summary\n", table.as_slice())
}

/// A full report holds the evidence of every layer and the diagnoses.
pub proof fn lemma_full_report_has_every_part(r: DiagnoseReport, color: bool, today: Option<i64>)
    ensures
        has_text(r.text(color, today), dns_report(color, r.target@, r.dns@)),
        has_text(r.text(color, today), tcp_report(color, r.tcp@)),
        has_text(r.text(color, today), tls_report(color, r.tls@, today)),
        has_text(r.text(color, today), http_report(color, r.plain, r.http@, today)),
        has_text(r.text(color, today), probe_report(color, r.probes@)),
        has_text(r.text(color, today), diagnosis_report(color, r.diagnoses.deep_view())),
{
    broadcast use group_occurrence;

}

/// A diagnosis is read back from its row.
pub proof fn lemma_diagnosis_row_reads_back(host: Seq<char>, d: DiagnosisModel)
    ensures
        ({
            let c = diagnosis_cells(host, d);
            &&& c.len() == 5
            &&& read_field(c[0]) == Some(host)
            &&& read_field(c[1]) == Some(d.severity.name())
            &&& read_field(c[2]) == Some(d.category.text())
            &&& read_field(c[3]) == Some(d.confidence.text())
            &&& read_field(c[4]) == Some(d.summary)
        }),
{
    lemma_field_reads_back(host);
    lemma_field_reads_back(d.severity.name());
    lemma_field_reads_back(d.category.text());
    lemma_field_reads_back(d.confidence.text());
    lemma_field_reads_back(d.summary);
}

/// The table of a sweep has one row for each diagnosis of each report, in order.
pub proof fn lemma_every_diagnosis_has_a_row(reports: Seq<DiagnoseReport>)
    ensures
        report_table(reports) == reports.map_values(
            |r: DiagnoseReport|
                r.diagnoses.deep_view().map_values(|d: DiagnosisModel| diagnosis_cells(r.target@, d)),
        ).flatten(),
    decreases reports.len(),
{
    let f = |r: DiagnoseReport|
        r.diagnoses.deep_view().map_values(|d: DiagnosisModel| diagnosis_cells(r.target@, d));
    if reports.len() > 0 {
        lemma_every_diagnosis_has_a_row(reports.drop_last());
        let front = reports.drop_last().map_values(f);
        assert(reports.map_values(f) =~= front.push(f(reports.last())));
        front.lemma_flatten_push(f(reports.last()));
        assert(f(reports.last()) =~= report_rows(
            reports.last().target@,
            reports.last().diagnoses.deep_view(),
        ));
    } else {
        assert(reports.map_values(f) =~= Seq::empty());
    }
}

} // verus!
