use rustguard::severity::Severity;

fn all() -> Vec<Severity> {
    vec![
        Severity::Critical,
        Severity::High,
        Severity::Medium,
        Severity::Low,
        Severity::Info,
    ]
}

#[test]
fn severity_scale_is_a_chain() {
    assert!(Severity::Critical > Severity::High);
    assert!(Severity::High > Severity::Medium);
    assert!(Severity::Medium > Severity::Low);
    assert!(Severity::Low > Severity::Info);
    assert_eq!(Severity::Critical.rank(), 4);
    assert_eq!(Severity::High.rank(), 3);
    assert_eq!(Severity::Medium.rank(), 2);
    assert_eq!(Severity::Low.rank(), 1);
    assert_eq!(Severity::Info.rank(), 0);
}

#[test]
fn severity_order_is_total_and_consistent() {
    for a in all() {
        for b in all() {
            let lt = a < b;
            let gt = a > b;
            let eq = a == b;
            assert_eq!(1, lt as u8 + gt as u8 + eq as u8);
            assert_eq!(a.at_least(b), a.rank() >= b.rank());
            assert_eq!(a >= b, a.at_least(b));
            for c in all() {
                if a >= b && b >= c {
                    assert!(a >= c);
                }
            }
        }
    }
}

#[test]
fn severity_labels_and_names() {
    let labels = ["CRITICAL", "HIGH", "MEDIUM", "LOW", "INFO"];
    for (s, l) in all().into_iter().zip(labels) {
        assert_eq!(s.label(), l);
        assert_eq!(Severity::parse(l), Some(s));
        assert_eq!(Severity::parse(&l.to_lowercase()), Some(s));
    }
    assert_eq!(Severity::parse("Moderate"), Some(Severity::Medium));
    assert_eq!(Severity::parse(""), None);
    assert_eq!(Severity::parse("severe"), None);
    assert_eq!(Severity::parse("high "), None);
}
