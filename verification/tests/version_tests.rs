use upm_lib::version::{ValidationError, Version};

#[test]
fn semantic_matching() {
    let mut semantics: Vec<&str> = Vec::new();
    semantics.push("0.1.1");
    semantics.push("0.1.1-prerelease");
    semantics.push("0.1.1-prerelease.x.3");
    semantics.push("0.1.1-pre-pre-release");
    semantics.push("0.1.1+builddata");
    semantics.push("0.1.1+build-data");
    semantics.push("0.1.1+builddata.3");
    semantics.push("0.1.1-prerelease+builddata");
    let mut jejune: Vec<&str> = Vec::new();
    jejune.push("a.b.c");
    jejune.push("1-1-1");
    jejune.push("0.1.1-b@d");
    jejune.push("0.1.1+b@d");
    for string in &semantics {
        assert!(
            Version::is_semantic(string),
            "{} was detected as not semantic",
            string
        );
    }
    for string in &jejune {
        assert!(
            !Version::is_semantic(string),
            "{} was detected as semantic",
            string
        );
    }
}

#[test]
fn lib_semantic_matching() {
    let mut semantics: Vec<&str> = Vec::new();
    semantics.push("0.1.1");
    semantics.push("0.1.1-prerelease");
    semantics.push("0.1.1-prerelease.x.3");
    semantics.push("0.1.1-pre-pre-release");
    semantics.push("0.1.1+builddata");
    semantics.push("0.1.1+build-data");
    semantics.push("0.1.1+builddata.3");
    semantics.push("0.1.1-prerelease+builddata");
    let mut jejune: Vec<&str> = Vec::new();
    jejune.push("a.b.c");
    jejune.push("1-1-1");
    jejune.push("0.1.1-b@d");
    jejune.push("0.1.1+b@d");
    for string in &semantics {
        assert!(
            Version::is_semantic(string),
            "{} was detected as not semantic",
            string
        );
    }
    for string in &jejune {
        assert!(
            !Version::is_semantic(string),
            "{} was detected as semantic",
            string
        );
    }
}

#[test]
fn creation_test() {
    let blank_version = Version::new();
    assert_eq!(blank_version.get_representation(), String::new());
    assert!(!blank_version.get_semantic());
    let semantic_string = "0.1.2";
    let non_semantic_string = "1.4rc2";
    let semantic_version = Version::from_str(semantic_string);
    assert!(semantic_version.get_semantic());
    let non_semantic_version = Version::from_str(non_semantic_string);
    assert!(!non_semantic_version.get_semantic());
}

#[test]
fn lib_creation_test() {
    let blank_version = Version::new();
    assert_eq!(blank_version.get_representation(), String::new());
    assert!(!blank_version.get_semantic());
    let semantic_string = "0.1.2";
    let non_semantic_string = "1.4rc2";
    let semantic_version = Version::from_str(semantic_string);
    assert!(semantic_version.get_semantic());
    let non_semantic_version = Version::from_str(non_semantic_string);
    assert!(!non_semantic_version.get_semantic());
}

#[test]
fn equality_test() {
    let version1 = Version::from_str("0.1.2");
    let version2 = Version::from_str("1.4rc2");
    let mut version3 = Version::from_str("0.1.2");
    assert_eq!(version1, version3);
    assert_ne!(version1, version2);
    let _ = version3.set_semantic(false);
    assert_ne!(version1, version3);
}

#[test]
fn lib_equality_test() {
    let version1 = Version::from_str("0.1.2");
    let version2 = Version::from_str("1.4rc2");
    let mut version3 = Version::from_str("0.1.2");
    assert_eq!(version1, version3);
    assert_ne!(version1, version2);
    let res = version3.set_semantic(false);
    assert!(!res.is_err());
    assert_ne!(version1, version3);
}

#[test]
fn semantic_equality_ignores_prerelease_and_build() {
    let a = Version::from_str("1.2.3-rc1");
    let b = Version::from_str("1.2.3+buildX");
    assert!(a.get_semantic());
    assert!(b.get_semantic());
    assert_eq!(a, b);
    let c = Version::from_str("1.2.3");
    let d = Version::from_str("1.2.4");
    assert_ne!(c, d);
}

#[test]
fn non_semantic_equality_is_exact() {
    let a = Version::from_str("1.4rc2");
    let b = Version::from_str("1.4rc2");
    let c = Version::from_str("1.4rc3");
    assert!(!a.get_semantic());
    assert_eq!(a, b);
    assert_ne!(a, c);
}

#[test]
fn set_semantic_validates() {
    let mut v = Version::from_str("1.4rc2");
    assert_eq!(v.set_semantic(true), Err(ValidationError));
    assert!(!v.get_semantic());
    let mut w = Version::from_str("1.2.3");
    assert_eq!(w.set_semantic(false), Ok(()));
    assert!(!w.get_semantic());
    assert_eq!(w.set_semantic(true), Ok(()));
    assert!(w.get_semantic());
}

#[test]
fn set_representation_reclassifies() {
    let mut v = Version::new();
    v.set_representation(String::from("2.0.0"));
    assert!(v.get_semantic());
    assert_eq!(v.get_representation(), "2.0.0");
    v.set_representation(String::from("two dot oh"));
    assert!(!v.get_semantic());
    assert_eq!(v.get_representation(), "two dot oh");
}

#[test]
fn grammar_edges() {
    assert!(Version::is_semantic("0.0.0"));
    assert!(Version::is_semantic("01.2.3"));
    assert!(Version::is_semantic("10.20.30-a.b.c+d.e.f"));
    assert!(!Version::is_semantic(""));
    assert!(!Version::is_semantic("1"));
    assert!(!Version::is_semantic("1.2"));
    assert!(!Version::is_semantic("1.2.3.4"));
    assert!(!Version::is_semantic("1.2.3-"));
    assert!(!Version::is_semantic("1.2.3+"));
    assert!(!Version::is_semantic("1.2.3-a..b"));
    assert!(!Version::is_semantic("1.2.3-a."));
    assert!(!Version::is_semantic("1.2.3+a b"));
    assert!(!Version::is_semantic(" 1.2.3"));
    assert!(!Version::is_semantic("1.2.3 "));
    assert!(Version::is_semantic("1.2.3-4+5"));
}

#[test]
fn from_string_classifies() {
    let v = Version::from_string(String::from("0.1.1-prerelease+builddata"));
    assert!(v.get_semantic());
    let w = Version::from_string(String::from("0.1.1-b@d"));
    assert!(!w.get_semantic());
}
