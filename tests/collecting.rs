use port_scanner::collector::{collect, Collector};

#[test]
fn empty_collection_reports_nothing() {
    let c = Collector::new();
    assert_eq!(c.count(), 0);
    assert_eq!(c.finish(), Vec::<u16>::new());
}

#[test]
fn report_is_ascending_whatever_the_arrival_order() {
    let arrivals = vec![443u16, 22, 65534, 1, 8080, 80, 3306];
    let report = collect(&arrivals);
    assert_eq!(report, vec![1, 22, 80, 443, 3306, 8080, 65534]);
    for w in report.windows(2) {
        assert!(w[0] < w[1]);
    }
}

#[test]
fn report_keeps_every_value() {
    let mut c = Collector::new();
    for p in [5u16, 3, 9, 1] {
        c.record(p);
    }
    assert_eq!(c.count(), 4);
    assert_eq!(c.finish(), vec![1, 3, 5, 9]);
}

#[test]
fn report_keeps_repeated_values() {
    let report = collect(&vec![7u16, 7, 2]);
    assert_eq!(report, vec![2, 7, 7]);
}
