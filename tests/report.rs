use boxxy::report::TraceReport;

#[test]
fn report_lists_paths_under_root_once() {
    let mut r = TraceReport::new("/tmp/boxxy-containers/n".to_string());
    r.record("/tmp/boxxy-containers/n/etc/hostname");
    r.record("/etc/passwd");
    r.record("/tmp/boxxy-containers/n/etc/hostname");
    r.record("/tmp/boxxy-containers/nn/etc/x");
    r.record("/tmp/boxxy-containers/n/usr/lib/libc.so");
    assert_eq!(r.total(), 2);
    assert_eq!(r.render(), "/etc/hostname\n/usr/lib/libc.so\n# total: 2\n");
}

#[test]
fn empty_report_counts_zero() {
    let r = TraceReport::new("/tmp/boxxy-containers/n".to_string());
    assert_eq!(r.render(), "# total: 0\n");
}
