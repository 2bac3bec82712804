use star_os::utils::ethics::EthicsDimension;

#[test]
fn test_ethics_dimensions() {
    let dims = EthicsDimension::all();
    assert_eq!(dims.len(), 6);
    assert_eq!(EthicsDimension::Safety.name(), "安全性");
}

#[test]
fn every_dimension_has_its_name() {
    let names: Vec<&str> = EthicsDimension::all().iter().map(|d| d.name()).collect();
    assert_eq!(names, vec!["安全性", "公平性", "透明度", "自主权", "隐私", "可信赖"]);
}
