use star_os::models::textcnn::SecurityCategory;

#[test]
fn test_security_category() {
    assert_eq!(SecurityCategory::from_index(0), SecurityCategory::Normal);
    assert_eq!(SecurityCategory::from_index(1), SecurityCategory::DoS);
    assert_eq!(SecurityCategory::count(), 15);
}

#[test]
fn security_category_every_index() {
    let expected = [
        SecurityCategory::Normal,
        SecurityCategory::DoS,
        SecurityCategory::DDoS,
        SecurityCategory::PortScan,
        SecurityCategory::BruteForce,
        SecurityCategory::WebAttack,
        SecurityCategory::Infiltration,
        SecurityCategory::Botnet,
        SecurityCategory::FtpPatator,
        SecurityCategory::SshPatator,
        SecurityCategory::Heartbleed,
        SecurityCategory::SqlInjection,
        SecurityCategory::Xss,
        SecurityCategory::BufferOverflow,
        SecurityCategory::Other,
    ];
    for (i, c) in expected.iter().enumerate() {
        assert_eq!(SecurityCategory::from_index(i), *c);
    }
    assert_eq!(expected.len(), SecurityCategory::count());
}

#[test]
fn security_category_out_of_range_is_other() {
    assert_eq!(SecurityCategory::from_index(15), SecurityCategory::Other);
    assert_eq!(SecurityCategory::from_index(1000), SecurityCategory::Other);
    assert_eq!(SecurityCategory::from_index(usize::MAX), SecurityCategory::Other);
}

#[test]
fn textcnn_parameter_count() {
    // 64 filters of sizes 3, 5, 7 over 128 dimensions, and a 5-class classifier
    assert_eq!(star_os::models::textcnn::param_count(64, &[3, 5, 7]), 64 * 3 * 128 + 64 * 5 * 128 + 64 * 7 * 128 + 64 * 3 * 5);
    assert_eq!(star_os::models::textcnn::param_count(0, &[3]), 0);
    assert_eq!(star_os::models::textcnn::param_count(8, &[]), 0);
}
