use designspace::data_request::DataRequest;

fn all_fields_are_true(dr: &DataRequest) -> bool {
    dr.layers && dr.lib && dr.groups && dr.kerning && dr.features && dr.data && dr.images
}

fn all_fields_are_false(dr: &DataRequest) -> bool {
    !dr.layers && !dr.lib && !dr.groups && !dr.kerning && !dr.features && !dr.data && !dr.images
}

#[test]
fn test_datarequest_default() {
    assert!(all_fields_are_true(&DataRequest::default()));
}

#[test]
fn test_datarequest_all() {
    assert!(all_fields_are_true(&DataRequest::all()));
}

#[test]
fn test_datarequest_none() {
    assert!(all_fields_are_false(&DataRequest::none()));
}

#[test]
fn test_datarequest_builder() {
    let dr = DataRequest::default()
        .layers(false)
        .lib(false)
        .groups(false)
        .kerning(false)
        .features(false)
        .data(false)
        .images(false);

    assert!(all_fields_are_false(&dr));
}

#[test]
fn default_equals_all() {
    assert_eq!(DataRequest::default(), DataRequest::all());
    assert_ne!(DataRequest::all(), DataRequest::none());
}

#[test]
fn from_bool_sets_every_flag() {
    assert_eq!(DataRequest::from_bool(true), DataRequest::all());
    assert_eq!(DataRequest::from_bool(false), DataRequest::none());
}

#[test]
fn each_setter_touches_only_its_flag() {
    let n = DataRequest::none();
    let r = n.layers(true);
    assert!(r.layers && !r.lib && !r.groups && !r.kerning && !r.features && !r.data && !r.images);
    let r = n.lib(true);
    assert!(!r.layers && r.lib && !r.groups && !r.kerning && !r.features && !r.data && !r.images);
    let r = n.groups(true);
    assert!(!r.layers && !r.lib && r.groups && !r.kerning && !r.features && !r.data && !r.images);
    let r = n.kerning(true);
    assert!(!r.layers && !r.lib && !r.groups && r.kerning && !r.features && !r.data && !r.images);
    let r = n.features(true);
    assert!(!r.layers && !r.lib && !r.groups && !r.kerning && r.features && !r.data && !r.images);
    let r = n.data(true);
    assert!(!r.layers && !r.lib && !r.groups && !r.kerning && !r.features && r.data && !r.images);
    let r = n.images(true);
    assert!(!r.layers && !r.lib && !r.groups && !r.kerning && !r.features && !r.data && r.images);
    let a = DataRequest::all().kerning(false);
    assert!(a.layers && a.lib && a.groups && !a.kerning && a.features && a.data && a.images);
}
