use boxxy::idmap::{helper_verdict, verdict_from_capture, HelperVerdict, IdKind, IdMap, IdMapStep};

#[test]
fn user_map_is_identity() {
    let m = IdMap::for_user(1000);
    assert_eq!(m.helper_args(4242), vec!["4242", "1000", "1000", "1"]);
}

#[test]
fn group_map_holds_each_group_once() {
    let m = IdMap::for_groups(1000, &vec![1000, 27, 0, 27]);
    assert_eq!(m.len(), 3);
    assert_eq!(m.helper_args(7), vec!["7", "1000", "1000", "1", "0", "0", "1", "27", "27", "1"]);
}

#[test]
fn refused_id_is_read_from_helper_output() {
    let out = "newuidmap: uid range [1001-1002) -> [1001-1002) not allowed\n";
    assert_eq!(helper_verdict(IdKind::User, out), HelperVerdict::Refused(1001));
    assert_eq!(helper_verdict(IdKind::Group, out), HelperVerdict::Clean);
    let out = "newgidmap: gid range [27-28) -> [27-28) not allowed";
    assert_eq!(helper_verdict(IdKind::Group, out), HelperVerdict::Refused(27));
    assert_eq!(helper_verdict(IdKind::User, "some other failure"), HelperVerdict::Clean);
}

#[test]
fn captured_text_verdicts() {
    assert_eq!(verdict_from_capture(None), HelperVerdict::Clean);
    assert_eq!(verdict_from_capture(Some("12".to_string())), HelperVerdict::Refused(12));
    assert_eq!(verdict_from_capture(Some("99999999999".to_string())), HelperVerdict::Garbled);
}

#[test]
fn refused_ids_are_dropped_until_exhausted() {
    let mut m = IdMap::for_groups(1000, &vec![27]);
    assert_eq!(m.after_verdict(true, HelperVerdict::Refused(27)), IdMapStep::Mapped);
    assert_eq!(m.len(), 3);
    assert_eq!(m.after_verdict(false, HelperVerdict::Refused(27)), IdMapStep::Retry);
    assert_eq!(m.len(), 2);
    assert_eq!(m.after_verdict(false, HelperVerdict::Refused(27)), IdMapStep::Exhausted);
    assert_eq!(m.after_verdict(false, HelperVerdict::Clean), IdMapStep::Mapped);
    assert_eq!(m.after_verdict(false, HelperVerdict::Refused(0)), IdMapStep::Retry);
    assert_eq!(m.after_verdict(false, HelperVerdict::Refused(1000)), IdMapStep::Exhausted);
    assert_eq!(m.len(), 0);
}

#[test]
fn helper_output_drives_the_retry() {
    let mut m = IdMap::for_user(1001);
    m.insert(0, 0);
    let step = m.after_helper(IdKind::User, false, "newuidmap: uid range [1001-1002) -> [1001-1002) not allowed");
    assert_eq!(step, IdMapStep::Retry);
    assert_eq!(m.helper_args(1), vec!["1", "0", "0", "1"]);
}
