//! Whether the host can run eBPF capture.
use vstd::prelude::*;
use vstd::string::StringExecFns;

use crate::text::{digits_of, hexadecimal, joined, same_text, trim, trimmed};

verus! {

/// Whether something that capture needs is there.
#[derive(Debug, PartialEq, Eq)]
pub enum EbpfProbeCheck {
    Available,
    Unavailable { reason: String },
}

#[verifier::ext_equal]
pub enum EbpfProbeCheckView {
    Available,
    Unavailable { reason: Seq<char> },
}

impl View for EbpfProbeCheck {
    type V = EbpfProbeCheckView;

    open spec fn view(&self) -> EbpfProbeCheckView {
        match *self {
            EbpfProbeCheck::Available => EbpfProbeCheckView::Available,
            EbpfProbeCheck::Unavailable { reason } => EbpfProbeCheckView::Unavailable {
                reason: reason@,
            },
        }
    }
}

impl EbpfProbeCheckView {
    /// The check in words.
    pub open spec fn text(self) -> Seq<char> {
        match self {
            EbpfProbeCheckView::Available => "available"@,
            EbpfProbeCheckView::Unavailable { reason } => reason,
        }
    }
}

impl EbpfProbeCheck {
    pub fn is_available(&self) -> (available: bool)
        ensures
            available == (self@ is Available),
    {
        matches!(self, EbpfProbeCheck::Available)
    }

    pub fn reason(&self) -> (reason: Option<&str>)
        ensures
            match self@ {
                EbpfProbeCheckView::Available => reason is None,
                EbpfProbeCheckView::Unavailable { reason: why } => reason is Some && reason->0@
                    == why,
            },
    {
        match self {
            EbpfProbeCheck::Available => None,
            EbpfProbeCheck::Unavailable { reason } => Some(reason.as_str()),
        }
    }

    pub fn available() -> (check: EbpfProbeCheck)
        ensures
            check@ is Available,
    {
        EbpfProbeCheck::Available
    }

    pub fn unavailable(reason: String) -> (check: EbpfProbeCheck)
        ensures
            check@ == (EbpfProbeCheckView::Unavailable { reason: reason@ }),
    {
        EbpfProbeCheck::Unavailable { reason }
    }

    /// The check in words.
    pub fn summary(&self) -> (summary: String)
        ensures
            summary@ == self@.text(),
    {
        match self {
            EbpfProbeCheck::Available => "available".to_owned(),
            EbpfProbeCheck::Unavailable { reason } => reason.clone(),
        }
    }
}

/// Whether processes without privileges may load eBPF programs.
#[derive(Debug, PartialEq, Eq)]
pub enum UnprivilegedBpfStatus {
    Enabled,
    Disabled,
    PermanentlyDisabled,
    Unknown { reason: String },
}

#[verifier::ext_equal]
pub enum UnprivilegedBpfStatusView {
    Enabled,
    Disabled,
    PermanentlyDisabled,
    Unknown { reason: Seq<char> },
}

impl View for UnprivilegedBpfStatus {
    type V = UnprivilegedBpfStatusView;

    open spec fn view(&self) -> UnprivilegedBpfStatusView {
        match *self {
            UnprivilegedBpfStatus::Enabled => UnprivilegedBpfStatusView::Enabled,
            UnprivilegedBpfStatus::Disabled => UnprivilegedBpfStatusView::Disabled,
            UnprivilegedBpfStatus::PermanentlyDisabled =>
                UnprivilegedBpfStatusView::PermanentlyDisabled,
            UnprivilegedBpfStatus::Unknown { reason } => UnprivilegedBpfStatusView::Unknown {
                reason: reason@,
            },
        }
    }
}

impl UnprivilegedBpfStatusView {
    /// The status in words.
    pub open spec fn text(self) -> Seq<char> {
        match self {
            UnprivilegedBpfStatusView::Enabled => "enabled"@,
            UnprivilegedBpfStatusView::Disabled => "disabled"@,
            UnprivilegedBpfStatusView::PermanentlyDisabled => "permanently_disabled"@,
            UnprivilegedBpfStatusView::Unknown { reason } => "unknown("@ + reason + ")"@,
        }
    }
}

impl UnprivilegedBpfStatus {
    /// The status in words.
    pub fn to_text(&self) -> (text: String)
        ensures
            text@ == self@.text(),
    {
        match self {
            UnprivilegedBpfStatus::Enabled => "enabled".to_owned(),
            UnprivilegedBpfStatus::Disabled => "disabled".to_owned(),
            UnprivilegedBpfStatus::PermanentlyDisabled => "permanently_disabled".to_owned(),
            UnprivilegedBpfStatus::Unknown { reason } => {
                let mut text = joined("unknown(", reason.as_str());
                text.append(")");
                text
            },
        }
    }
}

/// Where to look on the host.
#[derive(Debug, PartialEq, Eq)]
pub struct EbpfHostProbeConfig {
    pub btf_vmlinux_path: String,
    pub bpffs_path: String,
    pub unprivileged_bpf_disabled_path: String,
}

impl Default for EbpfHostProbeConfig {
    fn default() -> (config: Self)
        ensures
            config.btf_vmlinux_path@ == "/sys/kernel/btf/vmlinux"@,
            config.bpffs_path@ == "/sys/fs/bpf"@,
            config.unprivileged_bpf_disabled_path@ == "/proc/sys/kernel/unprivileged_bpf_disabled"@,
    {
        EbpfHostProbeConfig {
            btf_vmlinux_path: "/sys/kernel/btf/vmlinux".to_owned(),
            bpffs_path: "/sys/fs/bpf".to_owned(),
            unprivileged_bpf_disabled_path: "/proc/sys/kernel/unprivileged_bpf_disabled".to_owned(),
        }
    }
}

/// What stands at a path, links not followed.
#[derive(Debug, PartialEq, Eq)]
pub enum PathInspection {
    RegularFile,
    Symlink,
    Directory,
    Other,
    Missing,
    Failed { error: String },
}

#[verifier::ext_equal]
pub enum PathInspectionView {
    RegularFile,
    Symlink,
    Directory,
    Other,
    Missing,
    Failed { error: Seq<char> },
}

impl View for PathInspection {
    type V = PathInspectionView;

    open spec fn view(&self) -> PathInspectionView {
        match *self {
            PathInspection::RegularFile => PathInspectionView::RegularFile,
            PathInspection::Symlink => PathInspectionView::Symlink,
            PathInspection::Directory => PathInspectionView::Directory,
            PathInspection::Other => PathInspectionView::Other,
            PathInspection::Missing => PathInspectionView::Missing,
            PathInspection::Failed { error } => PathInspectionView::Failed { error: error@ },
        }
    }
}

/// What filesystem a directory is on.
#[derive(Debug, PartialEq, Eq)]
pub enum FilesystemInspection {
    Type(u64),
    Failed { error: String },
}

#[verifier::ext_equal]
pub enum FilesystemInspectionView {
    Type(u64),
    Failed { error: Seq<char> },
}

impl View for FilesystemInspection {
    type V = FilesystemInspectionView;

    open spec fn view(&self) -> FilesystemInspectionView {
        match *self {
            FilesystemInspection::Type(kind) => FilesystemInspectionView::Type(kind),
            FilesystemInspection::Failed { error } => FilesystemInspectionView::Failed {
                error: error@,
            },
        }
    }
}

/// What was read of a setting.
#[derive(Debug, PartialEq, Eq)]
pub enum SettingRead {
    Value(String),
    Missing,
    Failed { error: String },
}

#[verifier::ext_equal]
pub enum SettingReadView {
    Value(Seq<char>),
    Missing,
    Failed { error: Seq<char> },
}

impl View for SettingRead {
    type V = SettingReadView;

    open spec fn view(&self) -> SettingReadView {
        match *self {
            SettingRead::Value(value) => SettingReadView::Value(value@),
            SettingRead::Missing => SettingReadView::Missing,
            SettingRead::Failed { error } => SettingReadView::Failed { error: error@ },
        }
    }
}

/// A text around a path.
pub open spec fn around(prefix: Seq<char>, path: Seq<char>, suffix: Seq<char>) -> Seq<char> {
    prefix + path + suffix
}

fn wrap_path(prefix: &str, path: &str, suffix: &str) -> (text: String)
    ensures
        text@ == around(prefix@, path@, suffix@),
{
    let mut text = joined(prefix, path);
    text.append(suffix);
    text
}

/// Whether a regular file stands at a path.
pub open spec fn regular_file_check(
    inspection: PathInspectionView,
    path: Seq<char>,
    label: Seq<char>,
) -> EbpfProbeCheckView {
    match inspection {
        PathInspectionView::RegularFile => EbpfProbeCheckView::Available,
        PathInspectionView::Symlink => EbpfProbeCheckView::Unavailable {
            reason: around(label + " path "@, path, " is a symlink"@),
        },
        PathInspectionView::Directory => EbpfProbeCheckView::Unavailable {
            reason: around(label + " path "@, path, " is a directory"@),
        },
        PathInspectionView::Other => EbpfProbeCheckView::Unavailable {
            reason: around(label + " path "@, path, " is not a regular file"@),
        },
        PathInspectionView::Missing => EbpfProbeCheckView::Unavailable {
            reason: around(label + " path "@, path, " does not exist"@),
        },
        PathInspectionView::Failed { error } => EbpfProbeCheckView::Unavailable {
            reason: around("failed to inspect "@ + label + " path "@, path, ": "@) + error,
        },
    }
}

/// Whether a regular file stands at a path.
pub fn probe_regular_file(inspection: &PathInspection, path: &str, label: &str) -> (check:
    EbpfProbeCheck)
    ensures
        check@ == regular_file_check(inspection@, path@, label@),
{
    let prefix = joined(label, " path ");
    match inspection {
        PathInspection::RegularFile => EbpfProbeCheck::available(),
        PathInspection::Symlink => EbpfProbeCheck::unavailable(
            wrap_path(prefix.as_str(), path, " is a symlink"),
        ),
        PathInspection::Directory => EbpfProbeCheck::unavailable(
            wrap_path(prefix.as_str(), path, " is a directory"),
        ),
        PathInspection::Other => EbpfProbeCheck::unavailable(
            wrap_path(prefix.as_str(), path, " is not a regular file"),
        ),
        PathInspection::Missing => EbpfProbeCheck::unavailable(
            wrap_path(prefix.as_str(), path, " does not exist"),
        ),
        PathInspection::Failed { error } => {
            let mut failed = joined("failed to inspect ", label);
            failed.append(" path ");
            let mut reason = wrap_path(failed.as_str(), path, ": ");
            reason.append(error.as_str());
            EbpfProbeCheck::unavailable(reason)
        },
    }
}

/// The type of the eBPF filesystem.
pub const BPF_FS_MAGIC: u64 = 0xcafe_4a11;

/// Whether a filesystem type is that of the eBPF filesystem. Where the type is signed, its upper
/// half may be filled up.
pub open spec fn is_bpffs(statfs_type: u64) -> bool {
    statfs_type == BPF_FS_MAGIC || statfs_type & 0xffff_ffff == BPF_FS_MAGIC
}

pub fn statfs_type_is_bpffs(statfs_type: u64) -> (bpffs: bool)
    ensures
        bpffs == is_bpffs(statfs_type),
{
    statfs_type == BPF_FS_MAGIC || (statfs_type & 0xffff_ffff) == BPF_FS_MAGIC
}

/// Whether a directory is on the eBPF filesystem.
pub open spec fn bpffs_filesystem_check(
    filesystem: FilesystemInspectionView,
    path: Seq<char>,
) -> EbpfProbeCheckView {
    match filesystem {
        FilesystemInspectionView::Type(kind) => if is_bpffs(kind) {
            EbpfProbeCheckView::Available
        } else {
            EbpfProbeCheckView::Unavailable {
                reason: around("bpffs path "@, path, " is mounted as filesystem type 0x"@)
                    + digits_of((kind & 0xffff_ffff) as nat, 16) + ", not bpffs"@,
            }
        },
        FilesystemInspectionView::Failed { error } => EbpfProbeCheckView::Unavailable {
            reason: around("failed to inspect bpffs filesystem "@, path, ": "@) + error,
        },
    }
}

/// Whether a directory is on the eBPF filesystem.
pub fn probe_bpffs_filesystem(filesystem: &FilesystemInspection, path: &str) -> (check:
    EbpfProbeCheck)
    ensures
        check@ == bpffs_filesystem_check(filesystem@, path@),
{
    match filesystem {
        FilesystemInspection::Type(kind) => {
            if statfs_type_is_bpffs(*kind) {
                return EbpfProbeCheck::available();
            }
            let mut reason = wrap_path(
                "bpffs path ",
                path,
                " is mounted as filesystem type 0x",
            );
            reason.append(hexadecimal(*kind & 0xffff_ffff).as_str());
            reason.append(", not bpffs");
            EbpfProbeCheck::unavailable(reason)
        },
        FilesystemInspection::Failed { error } => {
            let mut reason = wrap_path("failed to inspect bpffs filesystem ", path, ": ");
            reason.append(error.as_str());
            EbpfProbeCheck::unavailable(reason)
        },
    }
}

/// Whether the eBPF filesystem is mounted at a path.
pub open spec fn bpffs_check(
    inspection: PathInspectionView,
    filesystem: FilesystemInspectionView,
    path: Seq<char>,
) -> EbpfProbeCheckView {
    match inspection {
        PathInspectionView::Directory => bpffs_filesystem_check(filesystem, path),
        PathInspectionView::Symlink => EbpfProbeCheckView::Unavailable {
            reason: around("bpffs path "@, path, " is a symlink"@),
        },
        PathInspectionView::RegularFile => EbpfProbeCheckView::Unavailable {
            reason: around("bpffs path "@, path, " is not a directory"@),
        },
        PathInspectionView::Other => EbpfProbeCheckView::Unavailable {
            reason: around("bpffs path "@, path, " is not a directory"@),
        },
        PathInspectionView::Missing => EbpfProbeCheckView::Unavailable {
            reason: around("bpffs path "@, path, " does not exist"@),
        },
        PathInspectionView::Failed { error } => EbpfProbeCheckView::Unavailable {
            reason: around("failed to inspect bpffs path "@, path, ": "@) + error,
        },
    }
}

/// Whether the eBPF filesystem is mounted at a path.
pub fn probe_bpffs(
    inspection: &PathInspection,
    filesystem: &FilesystemInspection,
    path: &str,
) -> (check: EbpfProbeCheck)
    ensures
        check@ == bpffs_check(inspection@, filesystem@, path@),
{
    match inspection {
        PathInspection::Directory => probe_bpffs_filesystem(filesystem, path),
        PathInspection::Symlink => EbpfProbeCheck::unavailable(
            wrap_path("bpffs path ", path, " is a symlink"),
        ),
        PathInspection::RegularFile | PathInspection::Other => EbpfProbeCheck::unavailable(
            wrap_path("bpffs path ", path, " is not a directory"),
        ),
        PathInspection::Missing => EbpfProbeCheck::unavailable(
            wrap_path("bpffs path ", path, " does not exist"),
        ),
        PathInspection::Failed { error } => {
            let mut reason = wrap_path("failed to inspect bpffs path ", path, ": ");
            reason.append(error.as_str());
            EbpfProbeCheck::unavailable(reason)
        },
    }
}

/// The status that a setting tells.
pub open spec fn unprivileged_status(
    read: SettingReadView,
    path: Seq<char>,
) -> UnprivilegedBpfStatusView {
    match read {
        SettingReadView::Value(value) => {
            let told = trimmed(value);
            if told == "0"@ {
                UnprivilegedBpfStatusView::Enabled
            } else if told == "1"@ {
                UnprivilegedBpfStatusView::PermanentlyDisabled
            } else if told == "2"@ {
                UnprivilegedBpfStatusView::Disabled
            } else {
                UnprivilegedBpfStatusView::Unknown {
                    reason: around(
                        "unexpected unprivileged_bpf_disabled value at "@,
                        path,
                        ": "@,
                    ) + told,
                }
            }
        },
        SettingReadView::Missing => UnprivilegedBpfStatusView::Unknown {
            reason: around("unprivileged_bpf_disabled path "@, path, " does not exist"@),
        },
        SettingReadView::Failed { error } => UnprivilegedBpfStatusView::Unknown {
            reason: around("failed to read unprivileged_bpf_disabled path "@, path, ": "@) + error,
        },
    }
}

/// The status that a setting tells.
pub fn probe_unprivileged_bpf(read: &SettingRead, path: &str) -> (status: UnprivilegedBpfStatus)
    ensures
        status@ == unprivileged_status(read@, path@),
{
    match read {
        SettingRead::Value(value) => {
            let told = trim(value.as_str());
            proof {
                reveal_strlit("0");
                reveal_strlit("1");
                reveal_strlit("2");
                assert("0"@[0] != "1"@[0]);
                assert("0"@[0] != "2"@[0]);
                assert("1"@[0] != "2"@[0]);
            }
            if same_text(told.as_str(), "0") {
                UnprivilegedBpfStatus::Enabled
            } else if same_text(told.as_str(), "1") {
                UnprivilegedBpfStatus::PermanentlyDisabled
            } else if same_text(told.as_str(), "2") {
                UnprivilegedBpfStatus::Disabled
            } else {
                let mut reason = wrap_path(
                    "unexpected unprivileged_bpf_disabled value at ",
                    path,
                    ": ",
                );
                reason.append(told.as_str());
                UnprivilegedBpfStatus::Unknown { reason }
            }
        },
        SettingRead::Missing => UnprivilegedBpfStatus::Unknown {
            reason: wrap_path("unprivileged_bpf_disabled path ", path, " does not exist"),
        },
        SettingRead::Failed { error } => {
            let mut reason = wrap_path(
                "failed to read unprivileged_bpf_disabled path ",
                path,
                ": ",
            );
            reason.append(error.as_str());
            UnprivilegedBpfStatus::Unknown { reason }
        },
    }
}

/// What was found on the host.
#[derive(Debug, PartialEq, Eq)]
pub struct EbpfHostProbeReport {
    pub linux: bool,
    pub btf_vmlinux: EbpfProbeCheck,
    pub bpffs: EbpfProbeCheck,
    pub unprivileged_bpf: UnprivilegedBpfStatus,
}

#[verifier::ext_equal]
pub struct EbpfHostProbeReportView {
    pub linux: bool,
    pub btf_vmlinux: EbpfProbeCheckView,
    pub bpffs: EbpfProbeCheckView,
    pub unprivileged_bpf: UnprivilegedBpfStatusView,
}

impl View for EbpfHostProbeReport {
    type V = EbpfHostProbeReportView;

    open spec fn view(&self) -> EbpfHostProbeReportView {
        EbpfHostProbeReportView {
            linux: self.linux,
            btf_vmlinux: self.btf_vmlinux@,
            bpffs: self.bpffs@,
            unprivileged_bpf: self.unprivileged_bpf@,
        }
    }
}

impl EbpfHostProbeReportView {
    /// Whether the kernel has what capture needs.
    pub open spec fn can_capture(self) -> bool {
        self.linux && self.btf_vmlinux is Available && self.bpffs is Available
    }

    /// The report in words.
    pub open spec fn text(self) -> Seq<char> {
        if self.linux {
            "btf_vmlinux="@ + self.btf_vmlinux.text() + ", bpffs="@ + self.bpffs.text()
                + ", unprivileged_bpf="@ + self.unprivileged_bpf.text()
        } else {
            "eBPF capture requires Linux"@
        }
    }
}

impl EbpfHostProbeReport {
    pub fn kernel_prerequisites_available(&self) -> (available: bool)
        ensures
            available == self@.can_capture(),
    {
        self.linux && self.btf_vmlinux.is_available() && self.bpffs.is_available()
    }

    /// The report in words.
    pub fn summary(&self) -> (summary: String)
        ensures
            summary@ == self@.text(),
    {
        if !self.linux {
            return "eBPF capture requires Linux".to_owned();
        }
        let mut summary = joined("btf_vmlinux=", self.btf_vmlinux.summary().as_str());
        summary.append(", bpffs=");
        summary.append(self.bpffs.summary().as_str());
        summary.append(", unprivileged_bpf=");
        summary.append(self.unprivileged_bpf.to_text().as_str());
        summary
    }
}

/// What was looked at on the host.
#[derive(Debug, PartialEq, Eq)]
pub struct HostInspection {
    pub btf_vmlinux: PathInspection,
    pub bpffs: PathInspection,
    pub bpffs_filesystem: FilesystemInspection,
    pub unprivileged_bpf: SettingRead,
}

/// Finds out whether the host can run eBPF capture.
pub struct EbpfHostProbe;

/// The report on a host.
pub open spec fn host_report(
    config: EbpfHostProbeConfig,
    linux: bool,
    host: HostInspection,
) -> EbpfHostProbeReportView {
    if linux {
        EbpfHostProbeReportView {
            linux,
            btf_vmlinux: regular_file_check(
                host.btf_vmlinux@,
                config.btf_vmlinux_path@,
                "BTF vmlinux"@,
            ),
            bpffs: bpffs_check(host.bpffs@, host.bpffs_filesystem@, config.bpffs_path@),
            unprivileged_bpf: unprivileged_status(
                host.unprivileged_bpf@,
                config.unprivileged_bpf_disabled_path@,
            ),
        }
    } else {
        EbpfHostProbeReportView {
            linux,
            btf_vmlinux: EbpfProbeCheckView::Unavailable { reason: "not running on Linux"@ },
            bpffs: EbpfProbeCheckView::Unavailable { reason: "not running on Linux"@ },
            unprivileged_bpf: UnprivilegedBpfStatusView::Unknown {
                reason: "not running on Linux"@,
            },
        }
    }
}

impl EbpfHostProbe {
    /// The report on a Linux host, by what was looked at.
    pub fn probe(config: &EbpfHostProbeConfig, host: &HostInspection) -> (report:
        EbpfHostProbeReport)
        ensures
            report@ == host_report(*config, true, *host),
    {
        EbpfHostProbe::probe_with_linux(config, true, host)
    }

    /// The report on a host, by what was looked at.
    pub fn probe_with_linux(
        config: &EbpfHostProbeConfig,
        linux: bool,
        host: &HostInspection,
    ) -> (report: EbpfHostProbeReport)
        ensures
            report@ == host_report(*config, linux, *host),
    {
        if !linux {
            return EbpfHostProbeReport {
                linux,
                btf_vmlinux: EbpfProbeCheck::unavailable("not running on Linux".to_owned()),
                bpffs: EbpfProbeCheck::unavailable("not running on Linux".to_owned()),
                unprivileged_bpf: UnprivilegedBpfStatus::Unknown {
                    reason: "not running on Linux".to_owned(),
                },
            };
        }
        EbpfHostProbeReport {
            linux,
            btf_vmlinux: probe_regular_file(
                &host.btf_vmlinux,
                config.btf_vmlinux_path.as_str(),
                "BTF vmlinux",
            ),
            bpffs: probe_bpffs(&host.bpffs, &host.bpffs_filesystem, config.bpffs_path.as_str()),
            unprivileged_bpf: probe_unprivileged_bpf(
                &host.unprivileged_bpf,
                config.unprivileged_bpf_disabled_path.as_str(),
            ),
        }
    }
}

/// Capture is possible exactly on a Linux host with a type description of its kernel and an eBPF
/// filesystem, whatever processes without privileges may do.
pub proof fn law_capture_needs_kernel_types_and_bpffs(
    config: EbpfHostProbeConfig,
    linux: bool,
    host: HostInspection,
)
    ensures
        host_report(config, linux, host).can_capture() <==> {
            &&& linux
            &&& host.btf_vmlinux@ is RegularFile
            &&& host.bpffs@ is Directory
            &&& host.bpffs_filesystem@ matches FilesystemInspectionView::Type(kind) && is_bpffs(
                kind,
            )
        },
{
}

} // verus!
