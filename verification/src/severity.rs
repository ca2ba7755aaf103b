//! The severity scale shared by every scanner and by the report.

use crate::text::fold_case;
use crate::text::lowercase;
use core::cmp::Ordering;
use vstd::prelude::*;
use vstd::std_specs::cmp::PartialOrdSpec;

verus! {

/// How serious a finding is. `Critical` is the highest level and `Info` the
/// lowest; the order is total.
#[derive(Debug, Clone, Copy, PartialEq, Eq, Hash, Structural)]
pub enum Severity {
    Critical,
    High,
    Medium,
    Low,
    Info,
}

/// The severity that a lower-case word names, if it names one. `moderate`
/// is another name of `medium`.
pub open spec fn severity_named(word: Seq<char>) -> Option<Severity> {
    if word == "critical"@ {
        Some(Severity::Critical)
    } else if word == "high"@ {
        Some(Severity::High)
    } else if word == "medium"@ || word == "moderate"@ {
        Some(Severity::Medium)
    } else if word == "low"@ {
        Some(Severity::Low)
    } else if word == "info"@ {
        Some(Severity::Info)
    } else {
        None
    }
}

impl Severity {
    /// The label of a severity, in upper case.
    pub open spec fn label_text(self) -> Seq<char> {
        match self {
            Severity::Critical => "CRITICAL"@,
            Severity::High => "HIGH"@,
            Severity::Medium => "MEDIUM"@,
            Severity::Low => "LOW"@,
            Severity::Info => "INFO"@,
        }
    }

    /// The label under which this severity is printed.
    pub fn label(&self) -> (s: &'static str)
        ensures
            s@ == self.label_text(),
    {
        match self {
            Severity::Critical => "CRITICAL",
            Severity::High => "HIGH",
            Severity::Medium => "MEDIUM",
            Severity::Low => "LOW",
            Severity::Info => "INFO",
        }
    }

    /// Reads a severity from its name, whatever the case of its ASCII
    /// letters. Any other text names no severity.
    pub fn parse(s: &str) -> (r: Option<Severity>)
        ensures
            r == severity_named(fold_case(s@)),
    {
        let word = lowercase(s);
        if word == "critical".to_owned() {
            Some(Severity::Critical)
        } else if word == "high".to_owned() {
            Some(Severity::High)
        } else if word == "medium".to_owned() || word == "moderate".to_owned() {
            Some(Severity::Medium)
        } else if word == "low".to_owned() {
            Some(Severity::Low)
        } else if word == "info".to_owned() {
            Some(Severity::Info)
        } else {
            None
        }
    }

    /// The position of a severity on the scale: 0 for `Info` up to 4 for
    /// `Critical`. Every comparison of severities goes by this number.
    pub open spec fn level(self) -> nat {
        match self {
            Severity::Critical => 4,
            Severity::High => 3,
            Severity::Medium => 2,
            Severity::Low => 1,
            Severity::Info => 0,
        }
    }

    /// Whether `self` is at least as severe as `floor`.
    pub open spec fn meets(self, floor: Severity) -> bool {
        self.level() >= floor.level()
    }

    /// The position of this severity on the scale.
    pub fn rank(&self) -> (r: u8)
        ensures
            r == self.level(),
    {
        match self {
            Severity::Critical => 4,
            Severity::High => 3,
            Severity::Medium => 2,
            Severity::Low => 1,
            Severity::Info => 0,
        }
    }

    /// Whether `self` is at least as severe as `floor`.
    pub fn at_least(&self, floor: Severity) -> (b: bool)
        ensures
            b == self.meets(floor),
    {
        self.rank() >= floor.rank()
    }
}

impl PartialOrd for Severity {
    fn partial_cmp(&self, other: &Severity) -> (r: Option<Ordering>) {
        let a = self.rank();
        let b = other.rank();
        if a < b {
            Some(Ordering::Less)
        } else if a > b {
            Some(Ordering::Greater)
        } else {
            Some(Ordering::Equal)
        }
    }
}

impl vstd::std_specs::cmp::PartialOrdSpecImpl for Severity {
    open spec fn obeys_partial_cmp_spec() -> bool {
        true
    }

    open spec fn partial_cmp_spec(&self, other: &Severity) -> Option<Ordering> {
        if self.level() < other.level() {
            Some(Ordering::Less)
        } else if self.level() > other.level() {
            Some(Ordering::Greater)
        } else {
            Some(Ordering::Equal)
        }
    }
}

/// The scale is a strict chain: Critical > High > Medium > Low > Info.
pub proof fn lemma_severity_chain()
    ensures
        Severity::Critical.level() > Severity::High.level(),
        Severity::High.level() > Severity::Medium.level(),
        Severity::Medium.level() > Severity::Low.level(),
        Severity::Low.level() > Severity::Info.level(),
{
}

/// The order of severities is total: any two are comparable, two that
/// compare equal are the same severity, and the order is transitive.
pub proof fn lemma_severity_order_total(a: Severity, b: Severity, c: Severity)
    ensures
        a.meets(b) || b.meets(a),
        a.meets(b) && b.meets(a) ==> a == b,
        a.meets(b) && b.meets(c) ==> a.meets(c),
        a.meets(a),
{
}

/// The comparison operators agree with the scale: `a < b` exactly when `a`
/// stands lower on it than `b`.
pub proof fn lemma_severity_operators(a: Severity, b: Severity)
    ensures
        a.partial_cmp_spec(&b) == Some(Ordering::Less) <==> a.level() < b.level(),
        a.partial_cmp_spec(&b) == Some(Ordering::Greater) <==> a.level() > b.level(),
        a.partial_cmp_spec(&b) == Some(Ordering::Equal) <==> a == b,
{
}

} // verus!
