use systemd_boot_friend::bootarg::{detect_root_partition, fill_necessary_bootarg};
use systemd_boot_friend::config::{migrate_template, Config};
use systemd_boot_friend::template::{expand, match_template, replace};

#[test]
fn test_expand_substitutes_every_token() {
    assert_eq!(expand("vmlinuz-{VERSION}", "5.10.0-11-amd64"), "vmlinuz-5.10.0-11-amd64");
    assert_eq!(expand("initramfs-{VERSION}.img", "5.12-aosc-main"), "initramfs-5.12-aosc-main.img");
    assert_eq!(expand("{VERSION}/{VERSION}", "x"), "x/x");
    assert_eq!(expand("plain", "x"), "plain");
}

#[test]
fn test_match_template_recovers_version() {
    assert_eq!(
        match_template("vmlinuz-{VERSION}", "vmlinuz-5.10.0-11-amd64"),
        Some("5.10.0-11-amd64".to_owned())
    );
    assert_eq!(
        match_template("initramfs-{VERSION}.img", "initramfs-5.12-aosc-main.img"),
        Some("5.12-aosc-main".to_owned())
    );
    // the wrong prefix, a missing suffix, and an empty version part
    assert_eq!(match_template("vmlinuz-{VERSION}", "initramfs-5.12.img"), None);
    assert_eq!(match_template("initramfs-{VERSION}.img", "initramfs-5.12"), None);
    assert_eq!(match_template("vmlinuz-{VERSION}", "vmlinuz-"), None);
    // a template without the token matches nothing
    assert_eq!(match_template("vmlinuz", "vmlinuz"), None);
}

#[test]
fn test_match_after_expand_is_identity() {
    let name = "6.1.0-7-rt-amd64";
    let file = expand("vmlinuz-{VERSION}", name);
    assert_eq!(match_template("vmlinuz-{VERSION}", file.as_str()), Some(name.to_owned()));
}

#[test]
fn test_replace_leftmost_first() {
    assert_eq!(replace("aaa", "aa", "b"), "ba");
    assert_eq!(replace("abcabc", "b", "xy"), "axycaxyc");
}

#[test]
fn test_migrate_template() {
    assert_eq!(migrate_template("vmlinuz-{VERSION}-{LOCALVERSION}"), "vmlinuz-{VERSION}");
    assert_eq!(migrate_template("vmlinuz-{VERSION}"), "vmlinuz-{VERSION}");
    let old = Config {
        vmlinux: "vmlinuz-{VERSION}-{LOCALVERSION}".to_owned(),
        initrd: "initramfs-{VERSION}-{LOCALVERSION}.img".to_owned(),
        distro: "Linux".to_owned(),
        esp_mountpoint: "/efi".to_owned(),
        keep: None,
        bootarg: "quiet".to_owned(),
    };
    let migrated = old.migrated();
    assert_eq!(migrated.vmlinux, "vmlinuz-{VERSION}");
    assert_eq!(migrated.initrd, "initramfs-{VERSION}.img");
    assert_eq!(migrated.bootarg, "quiet");
}

#[test]
fn test_default_config() {
    let c = Config::default();
    assert_eq!(c.vmlinux, "vmlinuz-{VERSION}");
    assert_eq!(c.initrd, "initramfs-{VERSION}.img");
    assert_eq!(c.distro, "Linux");
    assert_eq!(c.esp_mountpoint, "/efi");
    assert!(c.keep.is_none());
    assert_eq!(c.bootarg, "");
}

#[test]
fn test_fill_bootarg_adds_missing_params() {
    assert_eq!(fill_necessary_bootarg("quiet", "/dev/sda1"), "quiet root=/dev/sda1 rw");
    assert_eq!(fill_necessary_bootarg("", "/dev/sda1"), " root=/dev/sda1 rw");
    assert_eq!(
        fill_necessary_bootarg("root=/dev/nvme0n1p2 quiet", "/dev/sda1"),
        "root=/dev/nvme0n1p2 quiet rw"
    );
    assert_eq!(fill_necessary_bootarg("ro root=UUID=abc", "/dev/sda1"), "ro root=UUID=abc");
    assert_eq!(fill_necessary_bootarg("root=/dev/sda2 rw", "x"), "root=/dev/sda2 rw");
}

#[test]
fn test_fill_bootarg_strips_one_newline_and_matches_whole_params() {
    assert_eq!(fill_necessary_bootarg("root=/dev/sda2 rw\n", "x"), "root=/dev/sda2 rw");
    // `rwx` is not the `rw` parameter, and `noroot=` does not begin with `root=`
    assert_eq!(fill_necessary_bootarg("rwx", "/dev/sda1"), "rwx root=/dev/sda1 rw");
    assert_eq!(
        fill_necessary_bootarg("noroot=/dev/sda9", "/dev/sda1"),
        "noroot=/dev/sda9 root=/dev/sda1 rw"
    );
}

#[test]
fn test_detect_root_partition() {
    let mounts = "proc /proc proc rw 0 0\n/dev/nvme0n1p2 / ext4 rw,relatime 0 0\n/dev/nvme0n1p1 /efi vfat rw 0 0\n";
    assert_eq!(detect_root_partition(mounts), "/dev/nvme0n1p2");
    // the last line mounting `/` wins, and no such line gives nothing
    let twice = "/dev/sda1 / ext4 rw 0 0\n/dev/sdb1 / btrfs rw 0 0\n";
    assert_eq!(detect_root_partition(twice), "/dev/sdb1");
    assert_eq!(detect_root_partition("proc /proc proc rw 0 0\n"), "");
    assert_eq!(detect_root_partition(""), "");
}
