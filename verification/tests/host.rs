use capture::ebpf::host::{
    probe_bpffs, probe_regular_file, probe_unprivileged_bpf, statfs_type_is_bpffs,
    FilesystemInspection, HostInspection, PathInspection, SettingRead, BPF_FS_MAGIC,
};
use capture::{
    EbpfHostProbe, EbpfHostProbeConfig, EbpfHostProbeReport, EbpfProbeCheck, UnprivilegedBpfStatus,
};

#[test]
fn report_marks_available_kernel_prerequisites() {
    let report = EbpfHostProbeReport {
        linux: true,
        btf_vmlinux: EbpfProbeCheck::available(),
        bpffs: EbpfProbeCheck::available(),
        unprivileged_bpf: UnprivilegedBpfStatus::Disabled,
    };

    assert!(report.kernel_prerequisites_available());
    assert!(report.summary().contains("btf_vmlinux=available"));
    assert!(report.summary().contains("bpffs=available"));
}

#[test]
fn host_probe_reports_unprivileged_bpf_states() {
    let path = "unprivileged_bpf_disabled";

    assert_eq!(
        probe_unprivileged_bpf(&SettingRead::Value("1\n".to_string()), path),
        UnprivilegedBpfStatus::PermanentlyDisabled
    );
    assert_eq!(
        probe_unprivileged_bpf(&SettingRead::Value("2\n".to_string()), path),
        UnprivilegedBpfStatus::Disabled
    );
}

#[test]
fn host_probe_reports_non_bpffs_directory() {
    let report = EbpfHostProbe::probe_with_linux(
        &config("vmlinux", "bpffs", "unprivileged_bpf_disabled"),
        true,
        &HostInspection {
            btf_vmlinux: PathInspection::RegularFile,
            bpffs: PathInspection::Directory,
            bpffs_filesystem: FilesystemInspection::Type(0x0102_1994),
            unprivileged_bpf: SettingRead::Value("2\n".to_string()),
        },
    );

    assert!(!report.kernel_prerequisites_available());
    assert!(report.btf_vmlinux.is_available());
    assert!(!report.bpffs.is_available());
    assert!(report
        .bpffs
        .reason()
        .is_some_and(|reason| reason.contains("not bpffs")));
    assert_eq!(report.unprivileged_bpf, UnprivilegedBpfStatus::Disabled);
}

#[test]
fn host_probe_reports_missing_btf_and_bpffs() {
    let report = EbpfHostProbe::probe_with_linux(
        &config("missing-vmlinux", "missing-bpffs", "missing-unprivileged"),
        true,
        &missing_host(),
    );

    assert!(!report.kernel_prerequisites_available());
    assert!(!report.btf_vmlinux.is_available());
    assert!(!report.bpffs.is_available());
    assert!(matches!(
        report.unprivileged_bpf,
        UnprivilegedBpfStatus::Unknown { .. }
    ));
}

#[test]
fn host_probe_reports_non_linux_as_unavailable() {
    let report =
        EbpfHostProbe::probe_with_linux(&EbpfHostProbeConfig::default(), false, &missing_host());

    assert!(!report.kernel_prerequisites_available());
    assert_eq!(report.summary(), "eBPF capture requires Linux");
}

#[test]
fn host_probe_tells_a_complete_host_in_words() {
    let report = EbpfHostProbe::probe(
        &EbpfHostProbeConfig::default(),
        &HostInspection {
            btf_vmlinux: PathInspection::RegularFile,
            bpffs: PathInspection::Directory,
            bpffs_filesystem: FilesystemInspection::Type(BPF_FS_MAGIC),
            unprivileged_bpf: SettingRead::Value("0".to_string()),
        },
    );

    assert!(report.kernel_prerequisites_available());
    assert_eq!(
        report.summary(),
        "btf_vmlinux=available, bpffs=available, unprivileged_bpf=enabled"
    );
}

#[test]
fn file_checks_tell_what_stands_at_the_path() {
    let reason = |inspection: &PathInspection| {
        probe_regular_file(inspection, "/a", "BTF vmlinux")
            .reason()
            .map(str::to_string)
    };

    assert_eq!(reason(&PathInspection::RegularFile), None);
    assert_eq!(
        reason(&PathInspection::Symlink).as_deref(),
        Some("BTF vmlinux path /a is a symlink")
    );
    assert_eq!(
        reason(&PathInspection::Directory).as_deref(),
        Some("BTF vmlinux path /a is a directory")
    );
    assert_eq!(
        reason(&PathInspection::Other).as_deref(),
        Some("BTF vmlinux path /a is not a regular file")
    );
    assert_eq!(
        reason(&PathInspection::Missing).as_deref(),
        Some("BTF vmlinux path /a does not exist")
    );
    assert_eq!(
        reason(&PathInspection::Failed {
            error: "denied".to_string()
        })
        .as_deref(),
        Some("failed to inspect BTF vmlinux path /a: denied")
    );
}

#[test]
fn bpffs_checks_tell_what_is_mounted() {
    let magic = FilesystemInspection::Type(BPF_FS_MAGIC);
    let reason = |inspection: &PathInspection, filesystem: &FilesystemInspection| {
        probe_bpffs(inspection, filesystem, "/b")
            .reason()
            .map(str::to_string)
    };

    assert_eq!(reason(&PathInspection::Directory, &magic), None);
    assert_eq!(
        reason(
            &PathInspection::Directory,
            &FilesystemInspection::Type(0x1_0000_ef53)
        )
        .as_deref(),
        Some("bpffs path /b is mounted as filesystem type 0xef53, not bpffs")
    );
    assert_eq!(
        reason(
            &PathInspection::Directory,
            &FilesystemInspection::Failed {
                error: "gone".to_string()
            }
        )
        .as_deref(),
        Some("failed to inspect bpffs filesystem /b: gone")
    );
    assert_eq!(
        reason(&PathInspection::Symlink, &magic).as_deref(),
        Some("bpffs path /b is a symlink")
    );
    assert_eq!(
        reason(&PathInspection::RegularFile, &magic).as_deref(),
        Some("bpffs path /b is not a directory")
    );
    assert_eq!(
        reason(&PathInspection::Other, &magic).as_deref(),
        Some("bpffs path /b is not a directory")
    );
    assert_eq!(
        reason(&PathInspection::Missing, &magic).as_deref(),
        Some("bpffs path /b does not exist")
    );
    assert_eq!(
        reason(
            &PathInspection::Failed {
                error: "denied".to_string()
            },
            &magic
        )
        .as_deref(),
        Some("failed to inspect bpffs path /b: denied")
    );
}

#[test]
fn bpffs_type_may_be_filled_up_by_its_sign() {
    assert!(statfs_type_is_bpffs(BPF_FS_MAGIC));
    assert!(statfs_type_is_bpffs(0xffff_ffff_cafe_4a11));
    assert!(!statfs_type_is_bpffs(0xcafe_4a12));
}

#[test]
fn unprivileged_setting_is_told_without_white_space_around_it() {
    assert_eq!(
        probe_unprivileged_bpf(&SettingRead::Value(" \t0\u{3000}\n".to_string()), "/c"),
        UnprivilegedBpfStatus::Enabled
    );
    assert_eq!(
        probe_unprivileged_bpf(&SettingRead::Value(" 3 \n".to_string()), "/c").to_text(),
        "unknown(unexpected unprivileged_bpf_disabled value at /c: 3)"
    );
    assert_eq!(
        probe_unprivileged_bpf(&SettingRead::Missing, "/c").to_text(),
        "unknown(unprivileged_bpf_disabled path /c does not exist)"
    );
    assert_eq!(
        probe_unprivileged_bpf(
            &SettingRead::Failed {
                error: "denied".to_string()
            },
            "/c"
        )
        .to_text(),
        "unknown(failed to read unprivileged_bpf_disabled path /c: denied)"
    );
    assert_eq!(UnprivilegedBpfStatus::Disabled.to_text(), "disabled");
    assert_eq!(
        UnprivilegedBpfStatus::PermanentlyDisabled.to_text(),
        "permanently_disabled"
    );
}

fn missing_host() -> HostInspection {
    HostInspection {
        btf_vmlinux: PathInspection::Missing,
        bpffs: PathInspection::Missing,
        bpffs_filesystem: FilesystemInspection::Failed {
            error: "not inspected".to_string(),
        },
        unprivileged_bpf: SettingRead::Missing,
    }
}

fn config(btf: &str, bpffs: &str, unprivileged: &str) -> EbpfHostProbeConfig {
    EbpfHostProbeConfig {
        btf_vmlinux_path: btf.to_string(),
        bpffs_path: bpffs.to_string(),
        unprivileged_bpf_disabled_path: unprivileged.to_string(),
    }
}
