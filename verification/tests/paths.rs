use property_commands::path::PathSeg;
use property_commands::path::PropertyPath;

fn segs(s: &str) -> Option<Vec<PathSeg>> {
    PropertyPath::parse(s).map(|p| p.segs)
}

#[test]
fn parse_single_name() {
    assert_eq!(segs("health"), Some(vec![PathSeg::Field("health".to_string())]));
}

#[test]
fn parse_dotted_and_indexed() {
    assert_eq!(
        segs("a.b[2].c"),
        Some(vec![
            PathSeg::Field("a".to_string()),
            PathSeg::Field("b".to_string()),
            PathSeg::Index(2),
            PathSeg::Field("c".to_string()),
        ])
    );
}

#[test]
fn parse_consecutive_indices() {
    assert_eq!(
        segs("grid[3][10]"),
        Some(vec![
            PathSeg::Field("grid".to_string()),
            PathSeg::Index(3),
            PathSeg::Index(10),
        ])
    );
}

#[test]
fn parse_keeps_unicode_names() {
    assert_eq!(
        segs("héllo.wörld"),
        Some(vec![
            PathSeg::Field("héllo".to_string()),
            PathSeg::Field("wörld".to_string()),
        ])
    );
}

#[test]
fn parse_index_zero_is_canonical() {
    assert_eq!(segs("a[0]"), Some(vec![PathSeg::Field("a".to_string()), PathSeg::Index(0)]));
    assert_eq!(segs("a[00]"), None);
    assert_eq!(segs("a[01]"), None);
}

#[test]
fn parse_rejects_malformed_paths() {
    assert_eq!(segs(""), None);
    assert_eq!(segs("."), None);
    assert_eq!(segs(".a"), None);
    assert_eq!(segs("a."), None);
    assert_eq!(segs("a..b"), None);
    assert_eq!(segs("a[]"), None);
    assert_eq!(segs("a["), None);
    assert_eq!(segs("a[1"), None);
    assert_eq!(segs("a[x]"), None);
    assert_eq!(segs("a]b"), None);
    assert_eq!(segs("[0]"), None);
}

#[test]
fn parse_index_bounds() {
    let max = usize::MAX.to_string();
    let path = format!("a[{}]", max);
    assert_eq!(
        segs(&path),
        Some(vec![PathSeg::Field("a".to_string()), PathSeg::Index(usize::MAX)])
    );
    assert_eq!(segs("a[18446744073709551616]"), None);
    assert_eq!(segs("a[99999999999999999999999999]"), None);
}
