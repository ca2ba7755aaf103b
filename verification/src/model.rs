//! The data every scanner speaks: findings, their locations, dependencies
//! and vulnerabilities. Each type has a view that holds its texts as
//! sequences of characters; contracts are stated over those views.

use crate::severity::Severity;
use vstd::prelude::*;

verus! {

/// A copy of a list of texts.
pub fn clone_strings(v: &Vec<String>) -> (r: Vec<String>)
    ensures
        r.deep_view() == v.deep_view(),
{
    let mut r: Vec<String> = Vec::new();
    let mut i: usize = 0;
    while i < v.len()
        invariant
            i <= v.len(),
            r.len() == i,
            forall|j: int| 0 <= j < i ==> r@[j]@ == v@[j]@,
        decreases v.len() - i,
    {
        r.push(v[i].clone());
        i += 1;
    }
    assert(r.deep_view() =~= v.deep_view());
    r
}

/// A copy of an optional text.
pub fn clone_opt_string(v: &Option<String>) -> (r: Option<String>)
    ensures
        r.deep_view() == v.deep_view(),
{
    match v {
        Some(s) => Some(s.clone()),
        None => None,
    }
}

/// Where a finding was made.
#[derive(Debug, PartialEq, Eq)]
pub struct Location {
    pub path: String,
    pub line: Option<usize>,
    pub column: Option<usize>,
}

/// What a `Location` holds, with its texts as sequences of characters.
pub struct LocationView {
    pub path: Seq<char>,
    pub line: Option<usize>,
    pub column: Option<usize>,
}

impl View for Location {
    type V = LocationView;

    open spec fn view(&self) -> LocationView {
        LocationView { path: self.path@, line: self.line, column: self.column }
    }
}

impl DeepView for Location {
    type V = LocationView;

    open spec fn deep_view(&self) -> LocationView {
        self@
    }
}

impl Clone for Location {
    fn clone(&self) -> (r: Location)
        ensures
            r@ == self@,
    {
        Location { path: self.path.clone(), line: self.line, column: self.column }
    }
}

impl Location {
    /// A location in a file. There is none for an empty path.
    pub fn new(path: &str, line: Option<usize>, column: Option<usize>) -> (r: Option<Location>)
        ensures
            path@.len() == 0 ==> r is None,
            path@.len() > 0 ==> r is Some && r->0@ == (LocationView { path: path@, line, column }),
    {
        if path.is_empty() {
            None
        } else {
            Some(Location { path: path.to_owned(), line, column })
        }
    }
}

/// A copy of an optional location.
pub fn clone_opt_location(v: &Option<Location>) -> (r: Option<Location>)
    ensures
        r.deep_view() == v.deep_view(),
{
    match v {
        Some(l) => Some(l.clone()),
        None => None,
    }
}

/// One finding, in the form shared by all scanners.
#[derive(Debug, PartialEq, Eq)]
pub struct Issue {
    pub id: String,
    pub scanner: String,
    pub category: String,
    pub severity: Severity,
    pub description: String,
    pub location: Option<Location>,
    pub fix: Option<String>,
    pub references: Vec<String>,
}

/// What a `Issue` holds, with its texts as sequences of characters.
pub struct IssueView {
    pub id: Seq<char>,
    pub scanner: Seq<char>,
    pub category: Seq<char>,
    pub severity: Severity,
    pub description: Seq<char>,
    pub location: Option<LocationView>,
    pub fix: Option<Seq<char>>,
    pub references: Seq<Seq<char>>,
}

impl IssueView {
    /// The path of the file a finding lies in; empty where it has no location.
    pub open spec fn file(self) -> Seq<char> {
        match self.location {
            Some(l) => l.path,
            None => Seq::empty(),
        }
    }

    /// A finding is well formed when its location, if it has one, names a path.
    pub open spec fn well_formed(self) -> bool {
        self.location matches Some(l) ==> l.path.len() > 0
    }
}

impl View for Issue {
    type V = IssueView;

    open spec fn view(&self) -> IssueView {
        IssueView {
            id: self.id@,
            scanner: self.scanner@,
            category: self.category@,
            severity: self.severity,
            description: self.description@,
            location: self.location.deep_view(),
            fix: self.fix.deep_view(),
            references: self.references.deep_view(),
        }
    }
}

impl DeepView for Issue {
    type V = IssueView;

    open spec fn deep_view(&self) -> IssueView {
        self@
    }
}

impl Clone for Issue {
    fn clone(&self) -> (r: Issue)
        ensures
            r@ == self@,
    {
        Issue {
            id: self.id.clone(),
            scanner: self.scanner.clone(),
            category: self.category.clone(),
            severity: self.severity,
            description: self.description.clone(),
            location: clone_opt_location(&self.location),
            fix: clone_opt_string(&self.fix),
            references: clone_strings(&self.references),
        }
    }
}

impl Issue {
    /// Whether the location of this finding, if it has one, names a path.
    pub fn is_well_formed(&self) -> (b: bool)
        ensures
            b == self@.well_formed(),
    {
        match &self.location {
            Some(l) => !l.path.as_str().is_empty(),
            None => true,
        }
    }
}

/// A copy of a list of findings.
pub fn clone_issues(v: &Vec<Issue>) -> (r: Vec<Issue>)
    ensures
        r.deep_view() == v.deep_view(),
{
    let mut r: Vec<Issue> = Vec::new();
    let mut i: usize = 0;
    while i < v.len()
        invariant
            i <= v.len(),
            r.len() == i,
            forall|j: int| 0 <= j < i ==> r@[j]@ == v@[j]@,
        decreases v.len() - i,
    {
        r.push(v[i].clone());
        i += 1;
    }
    assert(r.deep_view() =~= v.deep_view());
    r
}

/// A package at an exact version, as a lockfile records it.
#[derive(Debug, PartialEq, Eq)]
pub struct Dependency {
    pub name: String,
    pub version: String,
    pub ecosystem: String,
}

/// What a `Dependency` holds, with its texts as sequences of characters.
pub struct DependencyView {
    pub name: Seq<char>,
    pub version: Seq<char>,
    pub ecosystem: Seq<char>,
}

impl View for Dependency {
    type V = DependencyView;

    open spec fn view(&self) -> DependencyView {
        DependencyView { name: self.name@, version: self.version@, ecosystem: self.ecosystem@ }
    }
}

impl DeepView for Dependency {
    type V = DependencyView;

    open spec fn deep_view(&self) -> DependencyView {
        self@
    }
}

impl Clone for Dependency {
    fn clone(&self) -> (r: Dependency)
        ensures
            r@ == self@,
    {
        Dependency {
            name: self.name.clone(),
            version: self.version.clone(),
            ecosystem: self.ecosystem.clone(),
        }
    }
}

/// A known vulnerability of a package at a version.
#[derive(Debug, PartialEq, Eq)]
pub struct Vulnerability {
    pub id: String,
    pub package: String,
    pub version: String,
    pub severity: Severity,
    pub description: String,
    pub fixed_in: Option<String>,
    pub references: Vec<String>,
}

/// What a `Vulnerability` holds, with its texts as sequences of characters.
pub struct VulnerabilityView {
    pub id: Seq<char>,
    pub package: Seq<char>,
    pub version: Seq<char>,
    pub severity: Severity,
    pub description: Seq<char>,
    pub fixed_in: Option<Seq<char>>,
    pub references: Seq<Seq<char>>,
}

impl View for Vulnerability {
    type V = VulnerabilityView;

    open spec fn view(&self) -> VulnerabilityView {
        VulnerabilityView {
            id: self.id@,
            package: self.package@,
            version: self.version@,
            severity: self.severity,
            description: self.description@,
            fixed_in: self.fixed_in.deep_view(),
            references: self.references.deep_view(),
        }
    }
}

impl DeepView for Vulnerability {
    type V = VulnerabilityView;

    open spec fn deep_view(&self) -> VulnerabilityView {
        self@
    }
}

impl Clone for Vulnerability {
    fn clone(&self) -> (r: Vulnerability)
        ensures
            r@ == self@,
    {
        Vulnerability {
            id: self.id.clone(),
            package: self.package.clone(),
            version: self.version.clone(),
            severity: self.severity,
            description: self.description.clone(),
            fixed_in: clone_opt_string(&self.fixed_in),
            references: clone_strings(&self.references),
        }
    }
}

/// A copy of a list of vulnerabilities.
pub fn clone_vulnerabilities(v: &Vec<Vulnerability>) -> (r: Vec<Vulnerability>)
    ensures
        r.deep_view() == v.deep_view(),
{
    let mut r: Vec<Vulnerability> = Vec::new();
    let mut i: usize = 0;
    while i < v.len()
        invariant
            i <= v.len(),
            r.len() == i,
            forall|j: int| 0 <= j < i ==> r@[j]@ == v@[j]@,
        decreases v.len() - i,
    {
        r.push(v[i].clone());
        i += 1;
    }
    assert(r.deep_view() =~= v.deep_view());
    r
}

/// A file that was read: its path and its text.
#[derive(Debug, PartialEq, Eq)]
pub struct SourceFile {
    pub path: String,
    pub content: String,
}

/// What a `SourceFile` holds, with its texts as sequences of characters.
pub struct SourceFileView {
    pub path: Seq<char>,
    pub content: Seq<char>,
}

impl View for SourceFile {
    type V = SourceFileView;

    open spec fn view(&self) -> SourceFileView {
        SourceFileView { path: self.path@, content: self.content@ }
    }
}

impl DeepView for SourceFile {
    type V = SourceFileView;

    open spec fn deep_view(&self) -> SourceFileView {
        self@
    }
}

} // verus!
