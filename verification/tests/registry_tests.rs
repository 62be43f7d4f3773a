use upm_lib::registry::{
    get_managers, read_config_dirs, DirListing, DirScan, FileEntry, ManagerSpecifier,
};

fn entry(name: &str, content: &str) -> FileEntry {
    FileEntry {
        name: String::from(name),
        content: String::from(content),
    }
}

const PACMAN_TOML: &str =
    "version = \"./pacman/version.sh\"\ninstall = \"pacman -S\"\nremove = \"pacman -Rs\"\nsearch = \"pacman -Ss\"\n";
const NPM_TOML: &str = "version = \"npm --version\"\ninstall_local = \"npm install\"\n";
const CARGO_TOML: &str = "version = \"cargo --version\"\ninstall_local = \"cargo install\"\n";

#[test]
fn read_toml() {
    let listing = DirListing {
        path: String::from("./test-files"),
        files: vec![entry("pacman.toml", PACMAN_TOML)],
    };
    let dirs = vec![DirScan::Listed(listing)];
    let managers = read_config_dirs(&dirs, &ManagerSpecifier::Empty).unwrap();
    assert_eq!(managers.len(), 1);
    let man = &managers[0];
    assert_eq!(man.name, "pacman");
    assert_eq!(man.version, "./pacman/version.sh");
    assert_eq!(man.config_dir, "./test-files");
    assert_eq!(man.install, Some(String::from("pacman -S")));
    assert_eq!(man.install_local, None);
    assert_eq!(man.remove, Some(String::from("pacman -Rs")));
    assert_eq!(man.remove_local, None);
    assert_eq!(man.search, Some(String::from("pacman -Ss")));
}

#[test]
fn first_directory_wins() {
    let dir_a = DirListing {
        path: String::from("/etc/upm/a"),
        files: vec![entry(
            "pacman.toml",
            "version = \"pacman -V\"\ninstall = \"pacman -S\"\n",
        )],
    };
    let dir_b = DirListing {
        path: String::from("/etc/upm/b"),
        files: vec![entry(
            "pacman.toml",
            "version = \"pacman -V\"\ninstall = \"other-tool install\"\n",
        )],
    };
    let dirs = vec![DirScan::Listed(dir_a), DirScan::Listed(dir_b)];
    let registry = read_config_dirs(&dirs, &ManagerSpecifier::Empty).unwrap();
    assert_eq!(registry.len(), 1);
    assert_eq!(registry[0].name, "pacman");
    assert_eq!(registry[0].config_dir, "/etc/upm/a");
    assert_eq!(registry[0].install, Some(String::from("pacman -S")));
}

#[test]
fn excludes_skips_a_loadable_file() {
    let listing = DirListing {
        path: String::from("/etc/upm"),
        files: vec![entry("cargo.toml", CARGO_TOML), entry("npm.toml", NPM_TOML)],
    };
    let managers = get_managers(
        &listing,
        &ManagerSpecifier::Excludes(vec![String::from("cargo")]),
    );
    assert_eq!(managers.len(), 1);
    assert!(managers.iter().all(|m| m.name != "cargo"));
    assert_eq!(managers[0].name, "npm");
}

#[test]
fn includes_keeps_only_the_named_manager() {
    let listing = DirListing {
        path: String::from("/etc/upm"),
        files: vec![
            entry("cargo.toml", CARGO_TOML),
            entry("npm.toml", NPM_TOML),
            entry("pacman.toml", PACMAN_TOML),
        ],
    };
    let managers = get_managers(
        &listing,
        &ManagerSpecifier::Includes(vec![String::from("npm")]),
    );
    assert_eq!(managers.len(), 1);
    assert_eq!(managers[0].name, "npm");
    assert_eq!(managers[0].install_local, Some(String::from("npm install")));
}

#[test]
fn file_without_version_is_skipped_but_siblings_load() {
    let broken = "install = \"apt install\"\ninstall_local = \"x\"\nremove = \"apt remove\"\nremove_local = \"y\"\nsearch = \"apt search\"\n";
    let listing = DirListing {
        path: String::from("/etc/upm"),
        files: vec![entry("apt.toml", broken), entry("npm.toml", NPM_TOML)],
    };
    let managers = get_managers(&listing, &ManagerSpecifier::Empty);
    assert_eq!(managers.len(), 1);
    assert_eq!(managers[0].name, "npm");
}

#[test]
fn non_toml_files_are_not_candidates() {
    let listing = DirListing {
        path: String::from("/etc/upm"),
        files: vec![
            entry("README", NPM_TOML),
            entry("npm.json", NPM_TOML),
            entry("npm.toml", NPM_TOML),
        ],
    };
    let managers = get_managers(&listing, &ManagerSpecifier::Empty);
    assert_eq!(managers.len(), 1);
    assert_eq!(managers[0].name, "npm");
}

#[test]
fn unreadable_directory_is_a_hard_error() {
    let readable = DirListing {
        path: String::from("/etc/upm"),
        files: vec![entry("npm.toml", NPM_TOML)],
    };
    let dirs = vec![
        DirScan::Listed(readable),
        DirScan::Unreadable(String::from("/etc/upm-extra")),
    ];
    let err = read_config_dirs(&dirs, &ManagerSpecifier::Empty).err().unwrap();
    assert_eq!(err.directory, "/etc/upm-extra");
}

#[test]
fn duplicate_names_within_one_directory_keep_the_first() {
    let listing = DirListing {
        path: String::from("/etc/upm"),
        files: vec![
            entry("npm.toml", NPM_TOML),
            entry("npm.toml", "version = \"other -V\"\n"),
        ],
    };
    let dirs = vec![DirScan::Listed(listing)];
    let registry = read_config_dirs(&dirs, &ManagerSpecifier::Empty).unwrap();
    assert_eq!(registry.len(), 1);
    assert_eq!(registry[0].version, "npm --version");
}
