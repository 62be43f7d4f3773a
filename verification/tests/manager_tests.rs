use upm_lib::manager::{CommandError, PackageManager};

fn pacman_descriptor() -> PackageManager {
    PackageManager {
        name: String::from("pacman"),
        version: String::from("./version.sh"),
        config_dir: String::from("/etc/upm/pacman"),
        install: Some(String::from("pacman -S")),
        install_local: None,
        remove: Some(String::from("pacman -Rs")),
        remove_local: None,
        search: Some(String::from("pacman -Ss")),
    }
}

#[test]
fn relative_template_concatenates_verbatim() {
    let pm = pacman_descriptor();
    let resolved = pm.make_command("version").unwrap().unwrap();
    assert_eq!(resolved.program, "/etc/upm/pacman./version.sh");
    assert!(resolved.args.is_empty());
}

#[test]
fn plain_template_is_used_verbatim() {
    let pm = pacman_descriptor();
    let resolved = pm.make_command("install").unwrap().unwrap();
    assert_eq!(resolved.program, "pacman");
    assert_eq!(resolved.args, vec![String::from("-S")]);
}

#[test]
fn fix_relative_path_only_touches_dot_slash() {
    let fixed = upm_lib::manager::fix_relative_path("/etc/upm/pacman", "./version.sh");
    assert_eq!(fixed, "/etc/upm/pacman./version.sh");
    let untouched = upm_lib::manager::fix_relative_path("/etc/upm/pacman", "pacman -Ss");
    assert_eq!(untouched, "pacman -Ss");
}

#[test]
fn unknown_slot_is_an_error() {
    let pm = pacman_descriptor();
    assert_eq!(
        pm.make_command("uninstall").err(),
        Some(CommandError::CommandNotFound)
    );
    assert!(matches!(
        pm.make_command("frobnicate"),
        Err(CommandError::CommandNotFound)
    ));
}

#[test]
fn unconfigured_slot_resolves_to_nothing() {
    let pm = pacman_descriptor();
    assert!(pm.make_command("install_local").unwrap().is_none());
    assert!(pm.make_command("remove_local").unwrap().is_none());
}

#[test]
fn has_command_reports_slots() {
    let pm = pacman_descriptor();
    assert!(pm.has_command("version"));
    assert!(pm.has_command("install"));
    assert!(!pm.has_command("install_local"));
    assert!(pm.has_command("remove"));
    assert!(!pm.has_command("remove_local"));
    assert!(pm.has_command("search"));
    assert!(!pm.has_command("uninstall"));
    assert!(!pm.has_command(""));
}

#[test]
fn caller_arguments_are_appended_after_fixed_ones() {
    let pm = pacman_descriptor();
    let resolved = pm.make_command("search").unwrap().unwrap();
    let with_extra = resolved.with_args("ripgrep  --color auto");
    assert_eq!(with_extra.program, "pacman");
    assert_eq!(
        with_extra.args,
        vec![
            String::from("-Ss"),
            String::from("ripgrep"),
            String::from("--color"),
            String::from("auto"),
        ]
    );
}

#[test]
fn blank_template_resolves_to_nothing() {
    let mut pm = pacman_descriptor();
    pm.version = String::from("   ");
    assert!(pm.make_command("version").unwrap().is_none());
}

#[test]
fn from_file_reads_a_descriptor() {
    let content = "version = \"npm --version\"\ninstall_local = \"npm install\"\n";
    let pm = PackageManager::from_file("/etc/upm/npm.toml", content).unwrap();
    assert_eq!(pm.name, "npm");
    assert_eq!(pm.config_dir, "/etc/upm");
    assert_eq!(pm.version, "npm --version");
    assert_eq!(pm.install, None);
    assert_eq!(pm.install_local, Some(String::from("npm install")));
    assert_eq!(pm.remove, None);
    assert_eq!(pm.remove_local, None);
    assert_eq!(pm.search, None);
}

#[test]
fn from_file_without_version_fails() {
    let content = "install = \"apt install\"\nremove = \"apt remove\"\nsearch = \"apt search\"\ninstall_local = \"x\"\nremove_local = \"y\"\n";
    assert!(PackageManager::from_file("/etc/upm/apt.toml", content).is_err());
}

#[test]
fn from_file_rejects_unparseable_text() {
    assert!(PackageManager::from_file("/etc/upm/bad.toml", "= = not toml = =").is_err());
}

#[test]
fn descriptor_equality_is_by_name() {
    let a = pacman_descriptor();
    let mut b = pacman_descriptor();
    b.install = None;
    b.config_dir = String::from("/somewhere/else");
    assert_eq!(a, b);
    let mut c = pacman_descriptor();
    c.name = String::from("npm");
    assert_ne!(a, c);
}

#[test]
fn getters_return_identity() {
    let pm = pacman_descriptor();
    assert_eq!(pm.get_name(), "pacman");
    assert_eq!(pm.get_config_dir(), "/etc/upm/pacman");
    let blank = PackageManager::new();
    assert_eq!(blank.get_name(), "");
    assert_eq!(blank.get_config_dir(), "");
    assert!(blank.install.is_none());
}
