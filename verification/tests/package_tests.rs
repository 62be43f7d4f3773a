use upm_lib::manager::PackageManager;
use upm_lib::package::Package;
use upm_lib::version::Version;

#[test]
fn blank_package_is_empty() {
    let p = Package::new();
    assert_eq!(p.get_name(), "");
    assert_eq!(p.get_description(), "");
    assert!(!p.get_version().get_semantic());
}

#[test]
fn package_identity() {
    let p = Package {
        name: String::from("ripgrep"),
        owner: PackageManager::new(),
        version: Version::from_str("13.0.0"),
        description: String::from("a line-oriented search tool"),
    };
    assert!(p.is_called("ripgrep"));
    assert!(!p.is_called("ripgre"));
    assert!(!p.is_called("ripgrepx"));
    assert_eq!(p.get_name(), "ripgrep");
    assert_eq!(p.get_description(), "a line-oriented search tool");
    let v = p.get_version();
    assert!(v.get_semantic());
    assert_eq!(v.get_representation(), "13.0.0");
}

#[test]
fn package_owner_is_returned() {
    let mut owner = PackageManager::new();
    owner.name = String::from("npm");
    let p = Package {
        name: String::from("left-pad"),
        owner,
        version: Version::new(),
        description: String::new(),
    };
    let manager = p.get_manager();
    assert_eq!(manager.get_name(), "npm");
}
