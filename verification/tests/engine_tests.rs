use systemd_boot_friend::config::Config;
use systemd_boot_friend::copier::{check_copied, VerifiedCopier};
use systemd_boot_friend::error::Error;
use systemd_boot_friend::fsmodel::{BootEnv, StrMap};
use systemd_boot_friend::kernel::{Kernel, MakeConfigOutcome, ModuleDir};
use systemd_boot_friend::manager::KernelManager;
use systemd_boot_friend::plan::Action;

fn test_config() -> Config {
    Config {
        vmlinux: "vmlinuz-{VERSION}".to_owned(),
        initrd: "initramfs-{VERSION}.img".to_owned(),
        distro: "Linux".to_owned(),
        esp_mountpoint: "/efi".to_owned(),
        keep: None,
        bootarg: "root=/dev/sda1 rw".to_owned(),
    }
}

fn empty_env() -> BootEnv {
    BootEnv {
        source: StrMap::new(),
        esp: StrMap::new(),
        entries: StrMap::new(),
        default_entry: None,
        timeout: None,
        esp_dir_exists: true,
        entries_dir_exists: true,
    }
}

#[test]
fn test_copier_skips_identical_and_overwrites_differing() {
    let mut source: StrMap<Vec<u8>> = StrMap::new();
    source.insert("vmlinuz-5.10.0", vec![1, 2, 3]);
    let mut esp: StrMap<Vec<u8>> = StrMap::new();
    let mut plan: Vec<Action> = Vec::new();

    // first copy moves bytes
    assert_eq!(VerifiedCopier::copy(&source, "vmlinuz-5.10.0", &mut esp, &mut plan), Ok(true));
    assert_eq!(esp.get("vmlinuz-5.10.0"), Some(&vec![1u8, 2, 3]));
    assert_eq!(plan.len(), 1);

    // the second copy is skipped: identical content, no action emitted
    assert_eq!(VerifiedCopier::copy(&source, "vmlinuz-5.10.0", &mut esp, &mut plan), Ok(false));
    assert_eq!(esp.get("vmlinuz-5.10.0"), Some(&vec![1u8, 2, 3]));
    assert_eq!(plan.len(), 1);

    // a differing destination is overwritten
    esp.insert("vmlinuz-5.10.0", vec![9, 9]);
    assert_eq!(VerifiedCopier::copy(&source, "vmlinuz-5.10.0", &mut esp, &mut plan), Ok(true));
    assert_eq!(esp.get("vmlinuz-5.10.0"), Some(&vec![1u8, 2, 3]));
    assert_eq!(plan.len(), 2);

    // a missing source fails and changes nothing
    assert!(matches!(
        VerifiedCopier::copy(&source, "vmlinuz-9.9.9", &mut esp, &mut plan),
        Err(Error::Missing(_))
    ));
    assert_eq!(plan.len(), 2);
}

#[test]
fn test_check_copied_judges_byte_count() {
    assert!(check_copied(4096, 4096).is_ok());
    assert!(matches!(check_copied(4095, 4096), Err(Error::NoSpace)));
}

#[test]
fn test_install_without_esp_dir_fails() {
    let config = test_config();
    let k = Kernel::parse(&config, "5.10.0-11-amd64").unwrap();
    let mut env = empty_env();
    env.esp_dir_exists = false;
    let mut plan: Vec<Action> = Vec::new();
    assert!(matches!(k.install(&mut env, &mut plan), Err(Error::PathNotInitialized(_))));
    assert!(plan.is_empty());
}

#[test]
fn test_install_missing_kernel_image_fails() {
    let config = test_config();
    let k = Kernel::parse(&config, "5.10.0-11-amd64").unwrap();
    let mut env = empty_env();
    let mut plan: Vec<Action> = Vec::new();
    assert!(matches!(k.install(&mut env, &mut plan), Err(Error::Missing(_))));
}

#[test]
fn test_install_without_source_initrd_succeeds_and_entry_has_no_initrd_line() {
    let config = test_config();
    let k = Kernel::parse(&config, "5.10.0-11-amd64").unwrap();
    let mut env = empty_env();
    env.source.insert("vmlinuz-5.10.0-11-amd64", vec![7u8; 16]);
    let mut plan: Vec<Action> = Vec::new();

    assert!(k.install(&mut env, &mut plan).is_ok());
    assert!(env.esp.contains("vmlinuz-5.10.0-11-amd64"));
    assert!(!env.esp.contains("initramfs-5.10.0-11-amd64.img"));

    assert_eq!(k.make_config(&mut env, &mut plan, false), Ok(MakeConfigOutcome::Written));
    let entry = env.entries.get("5.10.0-11-amd64.conf").unwrap();
    let expected = "title Linux (5.10.0-11-amd64)\n\
                    linux /EFI/systemd-boot-friend/vmlinuz-5.10.0-11-amd64\n\
                    options root=/dev/sda1 rw\n";
    assert_eq!(entry.as_str(), expected);
    assert!(!entry.contains("initrd"));
}

#[test]
fn test_entry_lists_microcode_before_initrd() {
    let config = test_config();
    let k = Kernel::parse(&config, "5.15.2").unwrap();
    let mut env = empty_env();
    env.source.insert("vmlinuz-5.15.2", vec![1u8]);
    env.source.insert("initramfs-5.15.2.img", vec![2u8]);
    env.source.insert("intel-ucode.img", vec![3u8]);
    let mut plan: Vec<Action> = Vec::new();

    assert!(k.install(&mut env, &mut plan).is_ok());
    assert_eq!(k.make_config(&mut env, &mut plan, false), Ok(MakeConfigOutcome::Written));
    let entry = env.entries.get("5.15.2.conf").unwrap();
    let expected = "title Linux (5.15.2)\n\
                    linux /EFI/systemd-boot-friend/vmlinuz-5.15.2\n\
                    initrd /EFI/systemd-boot-friend/intel-ucode.img\n\
                    initrd /EFI/systemd-boot-friend/initramfs-5.15.2.img\n\
                    options root=/dev/sda1 rw\n";
    assert_eq!(entry.as_str(), expected);
}

#[test]
fn test_stale_microcode_is_deleted_on_install() {
    let config = test_config();
    let k = Kernel::parse(&config, "5.15.2").unwrap();
    let mut env = empty_env();
    env.source.insert("vmlinuz-5.15.2", vec![1u8]);
    env.esp.insert("intel-ucode.img", vec![3u8]);
    let mut plan: Vec<Action> = Vec::new();

    assert!(k.install(&mut env, &mut plan).is_ok());
    assert!(!env.esp.contains("intel-ucode.img"));
    assert!(plan.iter().any(|a| matches!(a, Action::RemoveFromEsp { name } if name.as_str() == "intel-ucode.img")));
}

#[test]
fn test_make_config_respects_existing_entry() {
    let config = test_config();
    let k = Kernel::parse(&config, "5.15.2").unwrap();
    let mut env = empty_env();
    env.entries.insert("5.15.2.conf", "old".to_owned());
    let mut plan: Vec<Action> = Vec::new();

    assert_eq!(k.make_config(&mut env, &mut plan, false), Ok(MakeConfigOutcome::WouldOverwrite));
    assert_eq!(env.entries.get("5.15.2.conf"), Some(&"old".to_owned()));

    assert_eq!(k.make_config(&mut env, &mut plan, true), Ok(MakeConfigOutcome::Written));
    assert_ne!(env.entries.get("5.15.2.conf"), Some(&"old".to_owned()));
}

#[test]
fn test_remove_clears_default_only_for_own_entry() {
    let config = test_config();
    let own = Kernel::parse(&config, "5.15.2").unwrap();
    let other = Kernel::parse(&config, "5.14.9").unwrap();
    let mut plan: Vec<Action> = Vec::new();

    // removing the default kernel clears the pointer
    let mut env = empty_env();
    env.default_entry = Some("5.15.2.conf".to_owned());
    own.remove(&mut env, &mut plan);
    assert_eq!(env.default_entry, None);

    // removing a non-default kernel never changes the pointer
    let mut env2 = empty_env();
    env2.default_entry = Some("5.15.2.conf".to_owned());
    other.remove(&mut env2, &mut plan);
    assert_eq!(env2.default_entry, Some("5.15.2.conf".to_owned()));
}

#[test]
fn test_set_default_and_remove_default() {
    let config = test_config();
    let k = Kernel::parse(&config, "5.15.2").unwrap();
    let mut env = empty_env();
    let mut plan: Vec<Action> = Vec::new();

    k.set_default(&mut env, &mut plan);
    assert_eq!(env.default_entry, Some("5.15.2.conf".to_owned()));

    // clearing is a no-op unless the pointer names this kernel
    env.default_entry = Some("other.conf".to_owned());
    k.remove_default(&mut env, &mut plan);
    assert_eq!(env.default_entry, Some("other.conf".to_owned()));
    env.default_entry = Some("5.15.2.conf".to_owned());
    k.remove_default(&mut env, &mut plan);
    assert_eq!(env.default_entry, None);
}

#[test]
fn test_list_skips_incomplete_and_unparseable_and_sorts() {
    let config = test_config();
    let dir = |name: &str, complete: bool| ModuleDir {
        name: name.to_owned(),
        has_dep: complete,
        has_order: complete,
        has_builtin: complete,
    };
    let modules = vec![
        dir("5.10.0-11-amd64", true),
        dir("not-a-kernel", true),
        dir("6.1.4", false),
        dir("5.15.2", true),
    ];
    let kernels = Kernel::list(&config, &modules);
    assert_eq!(kernels.len(), 2);
    assert_eq!(kernels[0].render(), "5.15.2");
    assert_eq!(kernels[1].render(), "5.10.0-11-amd64");
}

#[test]
fn test_list_installed_matches_image_template() {
    let config = test_config();
    let files = vec![
        "vmlinuz-5.10.0-11-amd64".to_owned(),
        "initramfs-5.10.0-11-amd64.img".to_owned(),
        "intel-ucode.img".to_owned(),
        "vmlinuz-6.1.4".to_owned(),
        "vmlinuz-garbage".to_owned(),
    ];
    let kernels = Kernel::list_installed(&config, &files);
    assert_eq!(kernels.len(), 2);
    assert_eq!(kernels[0].render(), "6.1.4");
    assert_eq!(kernels[1].render(), "5.10.0-11-amd64");
}

#[test]
fn test_update_installs_all_and_sets_newest_default() {
    let config = test_config();
    let newest = Kernel::parse(&config, "5.15.0-rc1-x").unwrap();
    let older = Kernel::parse(&config, "5.14.9-x").unwrap();
    let mut env = empty_env();
    env.source.insert("vmlinuz-5.15.0-rc1-x", vec![1u8]);
    env.source.insert("vmlinuz-5.14.9-x", vec![2u8]);
    let mut plan: Vec<Action> = Vec::new();

    let manager = KernelManager::new(vec![newest, older], vec![]);
    assert!(manager.update(&config, &mut env, &mut plan).is_ok());

    assert!(env.esp.contains("vmlinuz-5.15.0-rc1-x"));
    assert!(env.esp.contains("vmlinuz-5.14.9-x"));
    assert!(env.entries.contains("5.15.0-rc1-x.conf"));
    assert!(env.entries.contains("5.14.9-x.conf"));
    assert_eq!(env.default_entry, Some("5.15.0-rc1-x.conf".to_owned()));
}

#[test]
fn test_update_twice_reaches_the_same_state() {
    let config = test_config();
    let mut env = empty_env();
    env.source.insert("vmlinuz-5.15.0-rc1-x", vec![1u8]);
    env.source.insert("vmlinuz-5.14.9-x", vec![2u8]);
    env.source.insert("initramfs-5.15.0-rc1-x.img", vec![3u8]);
    let mut plan: Vec<Action> = Vec::new();

    let available = || {
        vec![
            Kernel::parse(&config, "5.15.0-rc1-x").unwrap(),
            Kernel::parse(&config, "5.14.9-x").unwrap(),
        ]
    };

    let first = KernelManager::new(available(), vec![]);
    assert!(first.update(&config, &mut env, &mut plan).is_ok());
    let esp_names_1 = env.esp.names();
    let entry_1 = env.entries.get("5.15.0-rc1-x.conf").unwrap().clone();
    let default_1 = env.default_entry.clone();

    // rescan the installed kernels from the ESP, then reconcile again
    let installed = Kernel::list_installed(&config, &env.esp.names());
    let second = KernelManager::new(available(), installed);
    let mut plan2: Vec<Action> = Vec::new();
    assert!(second.update(&config, &mut env, &mut plan2).is_ok());

    let mut esp_names_2 = env.esp.names();
    let mut expected = esp_names_1;
    esp_names_2.sort();
    expected.sort();
    assert_eq!(esp_names_2, expected);
    assert_eq!(env.entries.get("5.15.0-rc1-x.conf").unwrap(), &entry_1);
    assert_eq!(env.default_entry, default_1);
    // the second pass copies no bytes
    assert!(!plan2.iter().any(|a| matches!(a, Action::CopyToEsp { .. })));
}

#[test]
fn test_update_removes_obsolete_kernels() {
    let config = test_config();
    let mut env = empty_env();
    env.source.insert("vmlinuz-6.1.4", vec![1u8]);
    env.esp.insert("vmlinuz-5.4.0", vec![9u8]);
    env.entries.insert("5.4.0.conf", "old entry".to_owned());
    env.default_entry = Some("5.4.0.conf".to_owned());
    let mut plan: Vec<Action> = Vec::new();

    let target = Kernel::parse(&config, "6.1.4").unwrap();
    let obsolete = Kernel::parse(&config, "5.4.0").unwrap();
    let manager = KernelManager::new(vec![target], vec![obsolete]);
    assert!(manager.update(&config, &mut env, &mut plan).is_ok());

    assert!(!env.esp.contains("vmlinuz-5.4.0"));
    assert!(!env.entries.contains("5.4.0.conf"));
    assert!(env.esp.contains("vmlinuz-6.1.4"));
    assert!(env.entries.contains("6.1.4.conf"));
    // the old default was removed, and the newest target took its place
    assert_eq!(env.default_entry, Some("6.1.4.conf".to_owned()));
}

#[test]
fn test_update_keep_cap_limits_installs() {
    let mut config = test_config();
    config.keep = Some(1);
    let mut env = empty_env();
    env.source.insert("vmlinuz-6.1.4", vec![1u8]);
    env.source.insert("vmlinuz-5.15.2", vec![2u8]);
    let mut plan: Vec<Action> = Vec::new();

    let manager = KernelManager::new(
        vec![Kernel::parse(&config, "6.1.4").unwrap(), Kernel::parse(&config, "5.15.2").unwrap()],
        vec![],
    );
    assert!(manager.update(&config, &mut env, &mut plan).is_ok());
    assert!(env.esp.contains("vmlinuz-6.1.4"));
    assert!(!env.esp.contains("vmlinuz-5.15.2"));
    assert_eq!(env.default_entry, Some("6.1.4.conf".to_owned()));
}

#[test]
fn test_update_keep_zero_only_cleans_up() {
    let mut config = test_config();
    config.keep = Some(0);
    let mut env = empty_env();
    env.esp.insert("vmlinuz-5.4.0", vec![9u8]);
    env.entries.insert("5.4.0.conf", "old entry".to_owned());
    env.default_entry = Some("5.4.0.conf".to_owned());
    let mut plan: Vec<Action> = Vec::new();

    let obsolete = Kernel::parse(&config, "5.4.0").unwrap();
    let manager = KernelManager::new(vec![], vec![obsolete]);
    assert!(manager.update(&config, &mut env, &mut plan).is_ok());
    assert!(!env.esp.contains("vmlinuz-5.4.0"));
    assert!(!env.entries.contains("5.4.0.conf"));
    // the removed kernel was the default, so the pointer was cleared and
    // nothing new was made default
    assert_eq!(env.default_entry, None);
}

#[test]
fn test_microcode_refreshed_from_source() {
    let config = test_config();
    let k = Kernel::parse(&config, "5.15.2").unwrap();
    let mut env = empty_env();
    env.source.insert("vmlinuz-5.15.2", vec![1u8]);
    env.source.insert("intel-ucode.img", vec![4u8, 5]);
    env.esp.insert("intel-ucode.img", vec![3u8]);
    let mut plan: Vec<Action> = Vec::new();

    assert!(k.install(&mut env, &mut plan).is_ok());
    assert_eq!(env.esp.get("intel-ucode.img"), Some(&vec![4u8, 5]));
}

#[test]
fn test_manager_listings() {
    let config = test_config();
    let a = Kernel::parse(&config, "6.1.4").unwrap();
    let b = Kernel::parse(&config, "5.15.2").unwrap();
    let manager = KernelManager::new(vec![a.clone(), b], vec![a]);

    let available = manager.list_available();
    assert_eq!(available.len(), 2);
    assert_eq!(available[0], (true, "6.1.4".to_owned()));
    assert_eq!(available[1], (false, "5.15.2".to_owned()));

    let mut env = empty_env();
    env.default_entry = Some("6.1.4.conf".to_owned());
    let installed = manager.list_installed(&env);
    assert_eq!(installed.len(), 1);
    assert_eq!(installed[0], (true, "6.1.4".to_owned()));
}

#[test]
fn test_kernel_at_selection_errors() {
    let config = test_config();
    let kernels = vec![Kernel::parse(&config, "6.1.4").unwrap()];
    let none: Vec<Kernel> = Vec::new();
    assert!(matches!(
        systemd_boot_friend::manager::kernel_at(&none, 0),
        Err(Error::EmptySelection)
    ));
    assert!(matches!(
        systemd_boot_friend::manager::kernel_at(&kernels, 1),
        Err(Error::InvalidIndex)
    ));
    assert_eq!(
        systemd_boot_friend::manager::kernel_at(&kernels, 0).unwrap().render(),
        "6.1.4"
    );
}

#[test]
fn test_error_descriptions_name_the_path() {
    let e = Error::PathNotInitialized("/efi".to_owned());
    assert!(e.describe().contains("/efi"));
    assert!(Error::NoSpace.describe().contains("space"));
}
