use gacha_tracker::gacha::Error;
use gacha_tracker::web_caches::{latest_web_caches_version, WebCachesVersion};

#[test]
fn numerically_greater_generation_is_selected() {
    let a: WebCachesVersion = "1.10.0.0".parse().unwrap();
    let b: WebCachesVersion = "1.2.3.0".parse().unwrap();
    assert!(b.not_newer_than(&a) && !a.not_newer_than(&b));
    let names = vec!["1.2.3.0".to_string(), "1.10.0.0".to_string()];
    let latest = latest_web_caches_version(&names).unwrap();
    assert_eq!(latest.version(), "1.10.0.0");
}

#[test]
fn names_that_are_not_versions_are_ignored() {
    let names = vec!["Cache".to_string(), "2.0.0".to_string(), "x.1.2".to_string()];
    assert_eq!(latest_web_caches_version(&names).unwrap().version(), "2.0.0.0");
    assert_eq!(latest_web_caches_version(&vec!["tmp".to_string()]), None);
    assert_eq!(latest_web_caches_version(&Vec::new()), None);
}

#[test]
fn parse_three_or_four_fields() {
    let v = WebCachesVersion::parse("2.25.0").unwrap();
    assert_eq!(v, WebCachesVersion { major: 2, minor: 25, patch: 0, build: 0 });
    let v = WebCachesVersion::parse("+1.002.3.255").unwrap();
    assert_eq!(v, WebCachesVersion { major: 1, minor: 2, patch: 3, build: 255 });
    assert_eq!(WebCachesVersion::parse("1.2.3.4.5"), Err(Error::WebCaches));
}

#[test]
fn parse_rejects_malformed_names() {
    assert_eq!(WebCachesVersion::parse("1.2"), Err(Error::WebCaches));
    assert_eq!(WebCachesVersion::parse("1.2.256"), Err(Error::WebCaches));
    assert_eq!(WebCachesVersion::parse("1..2"), Err(Error::WebCaches));
    assert_eq!(WebCachesVersion::parse("1.2.3.x"), Err(Error::WebCaches));
    assert_eq!(WebCachesVersion::parse("-1.2.3"), Err(Error::WebCaches));
    assert_eq!(WebCachesVersion::parse("+.2.3"), Err(Error::WebCaches));
}

#[test]
fn version_text_has_four_fields() {
    let v = WebCachesVersion { major: 255, minor: 10, patch: 0, build: 7 };
    assert_eq!(v.version(), "255.10.0.7");
}

#[test]
fn from_str_parses_like_parse() {
    let v: WebCachesVersion = "1.10.0.0".parse().unwrap();
    assert_eq!(v, WebCachesVersion { major: 1, minor: 10, patch: 0, build: 0 });
    assert!("1.x.0".parse::<WebCachesVersion>().is_err());
}

#[test]
fn version_text_parses_back() {
    for v in [
        WebCachesVersion { major: 0, minor: 0, patch: 0, build: 0 },
        WebCachesVersion { major: 1, minor: 10, patch: 9, build: 100 },
        WebCachesVersion { major: 255, minor: 255, patch: 255, build: 255 },
    ] {
        assert_eq!(WebCachesVersion::parse(&v.version()), Ok(v));
    }
    assert_eq!("1.10.0".parse::<WebCachesVersion>().unwrap().version(), "1.10.0.0");
}
