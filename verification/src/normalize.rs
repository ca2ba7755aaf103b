//! Normalization: what the scanners find, each in its own shape, as
//! findings of the one shape that the report works on.

use crate::container::ContainerScanResult;
use crate::deps::DepScanResult;
use crate::deps::DepScanResultView;
use crate::deps::DepScannerConfig;
use crate::report::MetadataEntry;
use crate::report::MetadataEntryView;
use crate::report::ScanResult;
use crate::report::ScanResultView;
use crate::model::clone_opt_string;
use crate::model::clone_strings;
use crate::model::Issue;
use crate::model::IssueView;
use crate::model::Location;
use crate::model::LocationView;
use crate::model::Vulnerability;
use crate::model::VulnerabilityView;
use crate::secrets::SecretCandidate;
use crate::sequences::lemma_flat_map_step;
use crate::secrets::SecretCandidateView;
use vstd::prelude::*;

verus! {

/// The location that a finding in a target has: none for an empty target.
pub open spec fn location_in(target: Seq<char>, line: Option<usize>) -> Option<LocationView> {
    if target.len() > 0 {
        Some(LocationView { path: target, line, column: None })
    } else {
        None
    }
}

/// A vulnerability as a finding of a scanner in a target.
pub open spec fn vulnerability_issue(
    v: VulnerabilityView,
    scanner: Seq<char>,
    target: Seq<char>,
) -> IssueView {
    IssueView {
        id: v.id,
        scanner,
        category: "vulnerability"@,
        severity: v.severity,
        description: v.description,
        location: location_in(target, None),
        fix: v.fixed_in,
        references: v.references,
    }
}

/// A list of vulnerabilities as findings, one for one.
pub open spec fn vulnerability_issues(
    found: Seq<VulnerabilityView>,
    scanner: Seq<char>,
    target: Seq<char>,
) -> Seq<IssueView> {
    found.map_values(|v: VulnerabilityView| vulnerability_issue(v, scanner, target))
}

fn issue_of_vulnerability(v: &Vulnerability, scanner: &str, target: &str) -> (issue: Issue)
    ensures
        issue@ == vulnerability_issue(v@, scanner@, target@),
        issue@.well_formed(),
{
    Issue {
        id: v.id.clone(),
        scanner: scanner.to_owned(),
        category: "vulnerability".to_owned(),
        severity: v.severity,
        description: v.description.clone(),
        location: Location::new(target, None, None),
        fix: clone_opt_string(&v.fixed_in),
        references: clone_strings(&v.references),
    }
}

fn append_vulnerability_issues(
    found: &Vec<Vulnerability>,
    scanner: &str,
    target: &str,
    out: &mut Vec<Issue>,
)
    ensures
        final(out).deep_view() == old(out).deep_view() + vulnerability_issues(
            found.deep_view(),
            scanner@,
            target@,
        ),
{
    let ghost all = found.deep_view();
    let ghost start = out.deep_view();
    let mut k: usize = 0;
    assert(out.deep_view() =~= start + vulnerability_issues(all.take(0), scanner@, target@));
    while k < found.len()
        invariant
            k <= found.len(),
            all == found.deep_view(),
            out.deep_view() == start + vulnerability_issues(all.take(k as int), scanner@, target@),
        decreases found.len() - k,
    {
        let issue = issue_of_vulnerability(&found[k], scanner, target);
        assert(all[k as int] == found@[k as int]@);
        let ghost before = out.deep_view();
        out.push(issue);
        assert(out.deep_view() =~= before.push(issue@));
        assert(out.deep_view() =~= start + vulnerability_issues(
            all.take(k + 1),
            scanner@,
            target@,
        ));
        k += 1;
    }
    assert(all.take(k as int) =~= all);
}

/// The findings of one result of a dependency scan of a target: the
/// vulnerabilities of the dependency.
pub open spec fn result_issues(target: Seq<char>) -> spec_fn(DepScanResultView) -> Seq<IssueView> {
    |r: DepScanResultView| vulnerability_issues(r.vulnerabilities, "dependencies"@, target)
}

/// The findings of the results of a dependency scan of a target,
/// dependency by dependency.
pub open spec fn dependency_findings(results: Seq<DepScanResultView>, target: Seq<char>) -> Seq<
    IssueView,
> {
    results.flat_map(result_issues(target))
}

/// The results of a dependency scan of a target as findings.
pub fn dependency_issues(results: &Vec<DepScanResult>, target: &str) -> (issues: Vec<Issue>)
    ensures
        issues.deep_view() == dependency_findings(results.deep_view(), target@),
{
    let ghost all = results.deep_view();
    let ghost of_result = result_issues(target@);
    let mut issues: Vec<Issue> = Vec::new();
    let mut k: usize = 0;
    proof {
        assert(all.take(0).map_values(of_result) =~= Seq::<Seq<IssueView>>::empty());
        assert(issues.deep_view() =~= all.take(0).flat_map(of_result));
    }
    while k < results.len()
        invariant
            k <= results.len(),
            all == results.deep_view(),
            of_result == result_issues(target@),
            issues.deep_view() == all.take(k as int).flat_map(of_result),
        decreases results.len() - k,
    {
        proof {
            assert(all[k as int] == results@[k as int]@);
            lemma_flat_map_step(all, of_result, k as int);
        }
        append_vulnerability_issues(&results[k].vulnerabilities, "dependencies", target, &mut issues);
        k += 1;
    }
    assert(all.take(k as int) =~= all);
    issues
}

/// The result of the scan of an image as findings: one for each
/// vulnerability of the image, with the image as target.
pub fn image_issues(result: &ContainerScanResult) -> (issues: Vec<Issue>)
    ensures
        issues.deep_view() == vulnerability_issues(
            result.vulnerabilities.deep_view(),
            "image"@,
            result.image@,
        ),
{
    let mut issues: Vec<Issue> = Vec::new();
    assert(issues.deep_view() =~= Seq::<IssueView>::empty());
    append_vulnerability_issues(
        &result.vulnerabilities,
        "image",
        result.image.as_str(),
        &mut issues,
    );
    assert(issues.deep_view() =~= vulnerability_issues(
        result.vulnerabilities.deep_view(),
        "image"@,
        result.image@,
    ));
    issues
}

/// A reported secret as a finding: under the type of the secret, at the
/// line where it stands. The secret itself is not part of the finding.
pub open spec fn secret_issue(c: SecretCandidateView) -> IssueView {
    IssueView {
        id: c.secret_type,
        scanner: "secrets"@,
        category: "secret"@,
        severity: c.severity,
        description: c.secret_type,
        location: location_in(c.path, Some(c.line_number as usize)),
        fix: None,
        references: Seq::empty(),
    }
}

/// Reported secrets as findings, one for one.
pub open spec fn secret_issues(found: Seq<SecretCandidateView>) -> Seq<IssueView> {
    found.map_values(|c: SecretCandidateView| secret_issue(c))
}

/// Reported secrets as findings.
pub fn issues_of_secrets(found: &Vec<SecretCandidate>) -> (issues: Vec<Issue>)
    ensures
        issues.deep_view() == secret_issues(found.deep_view()),
{
    let ghost all = found.deep_view();
    let mut issues: Vec<Issue> = Vec::new();
    let mut k: usize = 0;
    assert(issues.deep_view() =~= secret_issues(all.take(0)));
    while k < found.len()
        invariant
            k <= found.len(),
            all == found.deep_view(),
            issues.deep_view() == secret_issues(all.take(k as int)),
        decreases found.len() - k,
    {
        let c = &found[k];
        assert(all[k as int] == c@);
        let issue = Issue {
            id: c.secret_type.clone(),
            scanner: "secrets".to_owned(),
            category: "secret".to_owned(),
            severity: c.severity,
            description: c.secret_type.clone(),
            location: Location::new(c.path.as_str(), Some(c.line_number), None),
            fix: None,
            references: Vec::new(),
        };
        assert(issue.references.deep_view() =~= Seq::<Seq<char>>::empty());
        let ghost before = issues.deep_view();
        issues.push(issue);
        assert(issues.deep_view() =~= before.push(issue@));
        assert(issues.deep_view() =~= secret_issues(all.take(k + 1)));
        k += 1;
    }
    assert(all.take(k as int) =~= all);
    issues
}

/// Every finding made from a vulnerability is well formed and has the
/// severity of the vulnerability.
pub proof fn lemma_vulnerability_issues(
    found: Seq<VulnerabilityView>,
    scanner: Seq<char>,
    target: Seq<char>,
    i: int,
)
    requires
        0 <= i < found.len(),
    ensures
        vulnerability_issues(found, scanner, target).len() == found.len(),
        vulnerability_issues(found, scanner, target)[i].well_formed(),
        vulnerability_issues(found, scanner, target)[i].severity == found[i].severity,
{
}

/// The metadata of a dependency scan: whether it was made offline.
pub open spec fn offline_flag(offline: bool) -> Seq<MetadataEntryView> {
    seq![
        MetadataEntryView {
            key: "offline"@,
            value: if offline {
                "true"@
            } else {
                "false"@
            },
        },
    ]
}

/// The result of a dependency scan of a target as the report takes it in:
/// its findings, and in its metadata whether the scan was made offline.
pub fn dependency_scan_result(
    target: &str,
    results: &Vec<DepScanResult>,
    config: &DepScannerConfig,
    scan_time: String,
) -> (r: ScanResult)
    ensures
        r@ == (ScanResultView {
            scanner: "dependencies"@,
            target: target@,
            issues: dependency_findings(results.deep_view(), target@),
            metadata: offline_flag(config.offline_mode),
            scan_time: scan_time@,
        }),
{
    let flag = MetadataEntry {
        key: "offline".to_owned(),
        value: if config.offline_mode {
            "true".to_owned()
        } else {
            "false".to_owned()
        },
    };
    let mut metadata: Vec<MetadataEntry> = Vec::new();
    metadata.push(flag);
    assert(metadata.deep_view() =~= offline_flag(config.offline_mode));
    ScanResult {
        scanner: "dependencies".to_owned(),
        target: target.to_owned(),
        issues: dependency_issues(results, target),
        metadata,
        scan_time,
    }
}

} // verus!
