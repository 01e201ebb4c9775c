//! What an eBPF object file holds.
use aya_obj::ProgramSection;
use vstd::prelude::*;
use vstd::relations::sorted_by;
use vstd::string::StringExecFns;

use crate::octets::{is_native, native_is_little};
use crate::order::{lemma_text_order_is_total, place_for, text_order};
use crate::text::{comma_joined, decimal_digits, join_with_commas, joined, push_labelled, texts};

use super::object_layout::{can_be_looked_into, object_can_be_looked_into};
use super::host::{EbpfProbeCheck, EbpfProbeCheckView};

verus! {

/// Declares where an XDP program is attached; nothing is claimed of its inside.
#[verifier::external_type_specification]
#[verifier::external_body]
pub struct ExXdpAttachType(aya_obj::programs::XdpAttachType);

/// Declares where a program on socket addresses is attached; nothing is claimed of its inside.
#[verifier::external_type_specification]
#[verifier::external_body]
pub struct ExCgroupSockAddrAttachType(aya_obj::programs::CgroupSockAddrAttachType);

/// Declares where a program on socket options is attached; nothing is claimed of its inside.
#[verifier::external_type_specification]
#[verifier::external_body]
pub struct ExCgroupSockoptAttachType(aya_obj::programs::CgroupSockoptAttachType);

/// Declares where a program on sockets is attached; nothing is claimed of its inside.
#[verifier::external_type_specification]
#[verifier::external_body]
pub struct ExCgroupSockAttachType(aya_obj::programs::CgroupSockAttachType);

/// Declares the section that a program stands in, with its variants.
#[verifier::external_type_specification]
pub struct ExProgramSection(aya_obj::ProgramSection);

/// The most octets that an object file may have.
pub const MAX_EBPF_OBJECT_BYTES: u64 = 64 * 1024 * 1024;

/// The kind of a program, by its section.
#[derive(Debug, Clone, Copy, PartialEq, Eq, Structural)]
pub enum EbpfObjectProgramKind {
    Kretprobe,
    Kprobe,
    Uprobe,
    Uretprobe,
    Tracepoint,
    SocketFilter,
    Xdp,
    SkMsg,
    SkSkbStreamParser,
    SkSkbStreamVerdict,
    SockOps,
    SchedClassifier,
    CgroupSkb,
    CgroupSkbIngress,
    CgroupSkbEgress,
    CgroupSockAddr,
    CgroupSysctl,
    CgroupSockopt,
    LircMode2,
    PerfEvent,
    RawTracepoint,
    Lsm,
    BtfTracepoint,
    Fentry,
    Fexit,
    Extension,
    SkLookup,
    CgroupSock,
    CgroupDevice,
}

/// The kind of the programs in a section.
pub open spec fn kind_of(section: ProgramSection) -> EbpfObjectProgramKind {
    match section {
        ProgramSection::KRetProbe => EbpfObjectProgramKind::Kretprobe,
        ProgramSection::KProbe => EbpfObjectProgramKind::Kprobe,
        ProgramSection::UProbe { .. } => EbpfObjectProgramKind::Uprobe,
        ProgramSection::URetProbe { .. } => EbpfObjectProgramKind::Uretprobe,
        ProgramSection::TracePoint => EbpfObjectProgramKind::Tracepoint,
        ProgramSection::SocketFilter => EbpfObjectProgramKind::SocketFilter,
        ProgramSection::Xdp { .. } => EbpfObjectProgramKind::Xdp,
        ProgramSection::SkMsg => EbpfObjectProgramKind::SkMsg,
        ProgramSection::SkSkbStreamParser => EbpfObjectProgramKind::SkSkbStreamParser,
        ProgramSection::SkSkbStreamVerdict => EbpfObjectProgramKind::SkSkbStreamVerdict,
        ProgramSection::SockOps => EbpfObjectProgramKind::SockOps,
        ProgramSection::SchedClassifier => EbpfObjectProgramKind::SchedClassifier,
        ProgramSection::CgroupSkb => EbpfObjectProgramKind::CgroupSkb,
        ProgramSection::CgroupSkbIngress => EbpfObjectProgramKind::CgroupSkbIngress,
        ProgramSection::CgroupSkbEgress => EbpfObjectProgramKind::CgroupSkbEgress,
        ProgramSection::CgroupSockAddr { .. } => EbpfObjectProgramKind::CgroupSockAddr,
        ProgramSection::CgroupSysctl => EbpfObjectProgramKind::CgroupSysctl,
        ProgramSection::CgroupSockopt { .. } => EbpfObjectProgramKind::CgroupSockopt,
        ProgramSection::LircMode2 => EbpfObjectProgramKind::LircMode2,
        ProgramSection::PerfEvent => EbpfObjectProgramKind::PerfEvent,
        ProgramSection::RawTracePoint => EbpfObjectProgramKind::RawTracepoint,
        ProgramSection::Lsm { .. } => EbpfObjectProgramKind::Lsm,
        ProgramSection::BtfTracePoint => EbpfObjectProgramKind::BtfTracepoint,
        ProgramSection::FEntry { .. } => EbpfObjectProgramKind::Fentry,
        ProgramSection::FExit { .. } => EbpfObjectProgramKind::Fexit,
        ProgramSection::Extension => EbpfObjectProgramKind::Extension,
        ProgramSection::SkLookup => EbpfObjectProgramKind::SkLookup,
        ProgramSection::CgroupSock { .. } => EbpfObjectProgramKind::CgroupSock,
        ProgramSection::CgroupDevice => EbpfObjectProgramKind::CgroupDevice,
    }
}

impl EbpfObjectProgramKind {
    /// The kind of the programs in a section.
    pub fn from_section(section: &ProgramSection) -> (kind: EbpfObjectProgramKind)
        ensures
            kind == kind_of(*section),
    {
        match section {
            ProgramSection::KRetProbe => EbpfObjectProgramKind::Kretprobe,
            ProgramSection::KProbe => EbpfObjectProgramKind::Kprobe,
            ProgramSection::UProbe { .. } => EbpfObjectProgramKind::Uprobe,
            ProgramSection::URetProbe { .. } => EbpfObjectProgramKind::Uretprobe,
            ProgramSection::TracePoint => EbpfObjectProgramKind::Tracepoint,
            ProgramSection::SocketFilter => EbpfObjectProgramKind::SocketFilter,
            ProgramSection::Xdp { .. } => EbpfObjectProgramKind::Xdp,
            ProgramSection::SkMsg => EbpfObjectProgramKind::SkMsg,
            ProgramSection::SkSkbStreamParser => EbpfObjectProgramKind::SkSkbStreamParser,
            ProgramSection::SkSkbStreamVerdict => EbpfObjectProgramKind::SkSkbStreamVerdict,
            ProgramSection::SockOps => EbpfObjectProgramKind::SockOps,
            ProgramSection::SchedClassifier => EbpfObjectProgramKind::SchedClassifier,
            ProgramSection::CgroupSkb => EbpfObjectProgramKind::CgroupSkb,
            ProgramSection::CgroupSkbIngress => EbpfObjectProgramKind::CgroupSkbIngress,
            ProgramSection::CgroupSkbEgress => EbpfObjectProgramKind::CgroupSkbEgress,
            ProgramSection::CgroupSockAddr { .. } => EbpfObjectProgramKind::CgroupSockAddr,
            ProgramSection::CgroupSysctl => EbpfObjectProgramKind::CgroupSysctl,
            ProgramSection::CgroupSockopt { .. } => EbpfObjectProgramKind::CgroupSockopt,
            ProgramSection::LircMode2 => EbpfObjectProgramKind::LircMode2,
            ProgramSection::PerfEvent => EbpfObjectProgramKind::PerfEvent,
            ProgramSection::RawTracePoint => EbpfObjectProgramKind::RawTracepoint,
            ProgramSection::Lsm { .. } => EbpfObjectProgramKind::Lsm,
            ProgramSection::BtfTracePoint => EbpfObjectProgramKind::BtfTracepoint,
            ProgramSection::FEntry { .. } => EbpfObjectProgramKind::Fentry,
            ProgramSection::FExit { .. } => EbpfObjectProgramKind::Fexit,
            ProgramSection::Extension => EbpfObjectProgramKind::Extension,
            ProgramSection::SkLookup => EbpfObjectProgramKind::SkLookup,
            ProgramSection::CgroupSock { .. } => EbpfObjectProgramKind::CgroupSock,
            ProgramSection::CgroupDevice => EbpfObjectProgramKind::CgroupDevice,
        }
    }
}

/// A program of an object file.
#[derive(Debug, PartialEq, Eq)]
pub struct EbpfObjectProgram {
    pub name: String,
    pub kind: EbpfObjectProgramKind,
}

#[verifier::ext_equal]
pub struct EbpfObjectProgramView {
    pub name: Seq<char>,
    pub kind: EbpfObjectProgramKind,
}

impl View for EbpfObjectProgram {
    type V = EbpfObjectProgramView;

    open spec fn view(&self) -> EbpfObjectProgramView {
        EbpfObjectProgramView { name: self.name@, kind: self.kind }
    }
}

/// The views of some programs.
pub open spec fn object_program_views(
    programs: Seq<EbpfObjectProgram>,
) -> Seq<EbpfObjectProgramView> {
    programs.map_values(|program: EbpfObjectProgram| program@)
}

/// The names of some programs.
pub open spec fn program_names(programs: Seq<EbpfObjectProgramView>) -> Seq<Seq<char>> {
    programs.map_values(|program: EbpfObjectProgramView| program.name)
}

/// The octets at the start of a file that tell its format.
pub const FILE_IDENTIFICATION_LEN: usize = 16;

/// The programs and maps of a parsed object, in no order.
#[derive(Debug)]
pub struct ParsedEbpfObject {
    pub programs: Vec<(String, ProgramSection)>,
    pub maps: Vec<String>,
}

/// The programs of a parsed object.
pub open spec fn parsed_programs(
    programs: Seq<(String, ProgramSection)>,
) -> Seq<EbpfObjectProgramView> {
    programs.map_values(
        |program: (String, ProgramSection)|
            EbpfObjectProgramView { name: program.0@, kind: kind_of(program.1) },
    )
}

/// What `aya_obj::Object::parse` may bring for some octets, with the names and sections of the
/// programs and the names of the maps taken out of the parsed object, and its error put into
/// words.
pub uninterp spec fn parse_may_bring(
    octets: Seq<u8>,
    outcome: Result<ParsedEbpfObject, String>,
) -> bool;

/// `aya_obj::Object::parse`, with the names and sections of the programs and the names of the
/// maps taken out of the parsed object, and its error put into words. What comes is one of the
/// things that the octets may bring. The object keeps programs and maps under their names in hash
/// maps, so no name comes twice; the order is that of the hash maps, which is left unsaid. What
/// has no room for the identification of a file format is never parsed. Which other octets can be
/// parsed is left unsaid: it depends on the address at which they lie, since headers are read in
/// place and have to be aligned, and on the octet order of the machine. The call takes parts of
/// sections, types and names out by the places that the object tells, and panics where these lie
/// outside; where it is built to check sums and products, it also panics where those of numbers
/// that the object tells are too large. All such octets are left out. For a section without octets
/// it sets aside as much memory as the section tells, which is less than four gibibytes.
#[verifier::external_body]
fn parse_object(octets: &[u8]) -> (parsed: Result<ParsedEbpfObject, String>)
    requires
        exists|little: bool| #[trigger]
            is_native(little) && can_be_looked_into(octets@, little),
    ensures
        parse_may_bring(octets@, parsed),
        parsed matches Ok(object) ==> program_names(
            parsed_programs(object.programs@),
        ).no_duplicates() && texts(object.maps@).no_duplicates() && octets@.len()
            >= FILE_IDENTIFICATION_LEN,
{
    match aya_obj::Object::parse(octets) {
        Ok(object) => Ok(ParsedEbpfObject {
            programs: object.programs.into_iter().map(|(name, program)| (name, program.section)).collect(),
            maps: object.maps.into_keys().collect(),
        }),
        Err(error) => Err(error.to_string()),
    }
}

/// The programs in the order of their names.
fn sorted_programs(parsed: &Vec<(String, ProgramSection)>) -> (programs: Vec<EbpfObjectProgram>)
    ensures
        program_names(object_program_views(programs@)) == program_names(
            parsed_programs(parsed@),
        ).sort_by(text_order()),
        object_program_views(programs@).to_multiset() == parsed_programs(parsed@).to_multiset(),
{
    let ghost all = parsed_programs(parsed@);
    let mut names: Vec<String> = Vec::new();
    let mut programs: Vec<EbpfObjectProgram> = Vec::new();
    let mut index: usize = 0;
    assert(object_program_views(programs@) =~= all.take(0));
    assert(texts(names@) =~= program_names(object_program_views(programs@)));
    while index < parsed.len()
        invariant
            index <= parsed.len(),
            all == parsed_programs(parsed@),
            sorted_by(texts(names@), text_order()),
            texts(names@) == program_names(object_program_views(programs@)),
            object_program_views(programs@).to_multiset() =~= all.take(index as int).to_multiset(),
        decreases parsed.len() - index,
    {
        let entry = &parsed[index];
        let ghost before_names = texts(names@);
        let ghost before = object_program_views(programs@);
        let place: usize = place_for(&names, entry.0.as_str());
        assert(before.len() == before_names.len());
        names.insert(place, entry.0.clone());
        programs.insert(
            place,
            EbpfObjectProgram {
                name: entry.0.clone(),
                kind: EbpfObjectProgramKind::from_section(&entry.1),
            },
        );
        proof {
            let added = all[index as int];
            let after = object_program_views(programs@);
            assert(after =~= before.insert(place as int, added));
            assert(texts(names@) =~= before_names.insert(place as int, added.name));
            assert(program_names(after) =~= program_names(before).insert(
                place as int,
                added.name,
            ));
            vstd::seq_lib::to_multiset_insert(before, place as int, added);
            assert(all.take(index + 1) =~= all.take(index as int).push(added));
            all.take(index as int).to_multiset_ensures();
        }
        index = index + 1;
    }
    proof {
        assert(all.take(index as int) =~= all);
        lemma_names_multiset(object_program_views(programs@), all);
        lemma_sorted_is_sort(texts(names@), program_names(all));
    }
    programs
}

/// The names in order.
fn sorted_names(parsed: &Vec<String>) -> (names: Vec<String>)
    ensures
        texts(names@) == texts(parsed@).sort_by(text_order()),
{
    let ghost all = texts(parsed@);
    let mut names: Vec<String> = Vec::new();
    let mut index: usize = 0;
    assert(texts(names@) =~= all.take(0));
    while index < parsed.len()
        invariant
            index <= parsed.len(),
            all == texts(parsed@),
            sorted_by(texts(names@), text_order()),
            texts(names@).to_multiset() =~= all.take(index as int).to_multiset(),
        decreases parsed.len() - index,
    {
        let ghost before = texts(names@);
        let place: usize = place_for(&names, parsed[index].as_str());
        names.insert(place, parsed[index].clone());
        proof {
            let added = all[index as int];
            assert(texts(names@) =~= before.insert(place as int, added));
            vstd::seq_lib::to_multiset_insert(before, place as int, added);
            assert(all.take(index + 1) =~= all.take(index as int).push(added));
            all.take(index as int).to_multiset_ensures();
        }
        index = index + 1;
    }
    proof {
        assert(all.take(index as int) =~= all);
        lemma_sorted_is_sort(texts(names@), all);
    }
    names
}

/// A sorted list of the same texts is their sort.
proof fn lemma_sorted_is_sort(sorted: Seq<Seq<char>>, all: Seq<Seq<char>>)
    requires
        sorted_by(sorted, text_order()),
        sorted.to_multiset() == all.to_multiset(),
    ensures
        sorted == all.sort_by(text_order()),
{
    lemma_text_order_is_total();
    all.lemma_sort_by_ensures(text_order());
    vstd::seq_lib::lemma_sorted_unique(sorted, all.sort_by(text_order()), text_order());
}

/// The same programs have the same names.
proof fn lemma_names_multiset(
    first: Seq<EbpfObjectProgramView>,
    second: Seq<EbpfObjectProgramView>,
)
    requires
        first.to_multiset() == second.to_multiset(),
    ensures
        program_names(first).to_multiset() == program_names(second).to_multiset(),
    decreases first.len(),
{
    first.to_multiset_ensures();
    second.to_multiset_ensures();
    if first.len() == 0 {
        assert(second.len() == 0);
        assert(program_names(first) =~= program_names(second));
    } else {
        let last = first.last();
        let shorter = first.drop_last();
        assert(first =~= shorter.push(last));
        shorter.to_multiset_ensures();
        assert(first.to_multiset() == shorter.to_multiset().insert(last));
        assert(second.to_multiset().contains(last));
        assert(second.contains(last));
        let place = choose|place: int| 0 <= place < second.len() && second[place] == last;
        let rest = second.remove(place);
        assert(second =~= rest.insert(place, last));
        vstd::seq_lib::to_multiset_insert(rest, place, last);
        assert(rest.to_multiset() =~= second.to_multiset().remove(last));
        assert(shorter.to_multiset() =~= first.to_multiset().remove(last));
        lemma_names_multiset(shorter, rest);
        assert(program_names(first) =~= program_names(shorter).push(last.name));
        program_names(shorter).to_multiset_ensures();
        assert(program_names(second) =~= program_names(rest).insert(place, last.name));
        vstd::seq_lib::to_multiset_insert(program_names(rest), place, last.name);
    }
}

/// Which object file to look into.
#[derive(Debug, PartialEq, Eq)]
pub struct EbpfObjectProbeConfig {
    pub object_path: String,
}

impl EbpfObjectProbeConfig {
    pub fn new(object_path: &str) -> (config: EbpfObjectProbeConfig)
        ensures
            config.object_path@ == object_path@,
    {
        EbpfObjectProbeConfig { object_path: object_path.to_owned() }
    }
}

/// What was found in an object file.
#[derive(Debug, PartialEq, Eq)]
pub struct EbpfObjectProbeReport {
    pub object_path: String,
    pub object: EbpfProbeCheck,
    pub programs: Vec<EbpfObjectProgram>,
    pub maps: Vec<String>,
}

#[verifier::ext_equal]
pub struct EbpfObjectProbeReportView {
    pub object_path: Seq<char>,
    pub object: EbpfProbeCheckView,
    pub programs: Seq<EbpfObjectProgramView>,
    pub maps: Seq<Seq<char>>,
}

impl View for EbpfObjectProbeReport {
    type V = EbpfObjectProbeReportView;

    open spec fn view(&self) -> EbpfObjectProbeReportView {
        EbpfObjectProbeReportView {
            object_path: self.object_path@,
            object: self.object@,
            programs: object_program_views(self.programs@),
            maps: texts(self.maps@),
        }
    }
}

/// A list of names in words.
pub open spec fn list_text(names: Seq<Seq<char>>) -> Seq<char> {
    if names.len() == 0 {
        "none"@
    } else {
        comma_joined(names)
    }
}

/// A list of names in words.
pub fn named_list_summary(names: &Vec<String>) -> (summary: String)
    ensures
        summary@ == list_text(texts(names@)),
{
    if names.len() == 0 {
        return "none".to_owned();
    }
    join_with_commas(names)
}

impl EbpfObjectProbeReportView {
    /// The report in words.
    pub open spec fn text(self) -> Seq<char> {
        match self.object {
            EbpfProbeCheckView::Available => "object "@ + self.object_path + " parsed, programs="@
                + list_text(program_names(self.programs)) + ", maps="@ + list_text(self.maps),
            EbpfProbeCheckView::Unavailable { reason } => "object "@ + self.object_path
                + " unavailable: "@ + reason,
        }
    }
}

impl EbpfObjectProbeReport {
    pub fn object_available(&self) -> (available: bool)
        ensures
            available == (self@.object is Available),
    {
        self.object.is_available()
    }

    /// The report in words.
    pub fn summary(&self) -> (summary: String)
        ensures
            summary@ == self@.text(),
    {
        let mut summary = joined("object ", self.object_path.as_str());
        match &self.object {
            EbpfProbeCheck::Available => {
                let mut names: Vec<String> = Vec::new();
                let mut index: usize = 0;
                assert(texts(names@) =~= program_names(self@.programs).take(0));
                while index < self.programs.len()
                    invariant
                        index <= self.programs.len(),
                        texts(names@) == program_names(self@.programs).take(index as int),
                    decreases self.programs.len() - index,
                {
                    let ghost before = names@;
                    names.push(self.programs[index].name.clone());
                    proof {
                        assert(texts(names@) =~= texts(before).push(
                            self.programs@[index as int].name@,
                        ));
                        assert(texts(names@) =~= program_names(self@.programs).take(index + 1));
                    }
                    index = index + 1;
                }
                assert(program_names(self@.programs).take(index as int) =~= program_names(
                    self@.programs,
                ));
                summary.append(" parsed, programs=");
                summary.append(named_list_summary(&names).as_str());
                summary.append(", maps=");
                summary.append(named_list_summary(&self.maps).as_str());
            },
            EbpfProbeCheck::Unavailable { reason } => {
                summary.append(" unavailable: ");
                summary.append(reason.as_str());
            },
        }
        summary
    }
}

/// Why an object file is too large.
pub open spec fn too_large_text(path: Seq<char>, size: u64, limit: u64) -> Seq<char> {
    "eBPF object path "@ + path + " is too large: "@ + decimal_digits(size as nat)
        + " bytes exceeds "@ + decimal_digits(limit as nat) + " bytes"@
}

pub fn ebpf_object_too_large_reason(path: &str, size: u64, limit: u64) -> (reason: String)
    ensures
        reason@ == too_large_text(path@, size, limit),
{
    let mut reason = joined("eBPF object path ", path);
    push_labelled(&mut reason, " is too large: ", size);
    push_labelled(&mut reason, " bytes exceeds ", limit);
    reason.append(" bytes");
    reason
}

/// Whether an opened file can be an object file, by what it is and how large it is.
pub open spec fn opened_check(path: Seq<char>, is_file: bool, size: u64) -> Result<(), Seq<char>> {
    if !is_file {
        Err("eBPF object path "@ + path + " is not a regular file"@)
    } else if size > MAX_EBPF_OBJECT_BYTES {
        Err(too_large_text(path, size, MAX_EBPF_OBJECT_BYTES))
    } else {
        Ok(())
    }
}

/// The view of a check.
pub open spec fn check_view(check: Result<(), String>) -> Result<(), Seq<char>> {
    match check {
        Ok(_) => Ok(()),
        Err(reason) => Err(reason@),
    }
}

/// Whether an opened file can be an object file, by what it is and how large it is.
pub fn validate_opened_ebpf_object(path: &str, is_file: bool, size: u64) -> (check: Result<
    (),
    String,
>)
    ensures
        check_view(check) == opened_check(path@, is_file, size),
{
    if !is_file {
        let mut reason = joined("eBPF object path ", path);
        reason.append(" is not a regular file");
        return Err(reason);
    }
    if size > MAX_EBPF_OBJECT_BYTES {
        return Err(ebpf_object_too_large_reason(path, size, MAX_EBPF_OBJECT_BYTES));
    }
    Ok(())
}

/// The octets that were read of a file, unless they are more than `limit`.
pub fn limited_ebpf_object_bytes(path: &str, octets: Vec<u8>, limit: u64) -> (kept: Result<
    Vec<u8>,
    String,
>)
    ensures
        match kept {
            Ok(bytes) => octets@.len() <= limit && bytes@ == octets@,
            Err(reason) => octets@.len() > limit && reason@ == too_large_text(
                path@,
                octets@.len() as u64,
                limit,
            ),
        },
{
    let size: u64 = octets.len() as u64;
    if size > limit {
        return Err(ebpf_object_too_large_reason(path, size, limit));
    }
    Ok(octets)
}

/// The report on an object file, by what parsing it brought: programs and maps in the order of
/// their names, or the reason why there are none.
pub open spec fn is_report_on(
    report: EbpfObjectProbeReportView,
    object_path: Seq<char>,
    parsed: Result<ParsedEbpfObject, String>,
) -> bool {
    &&& report.object_path == object_path
    &&& match parsed {
        Ok(object) => {
            &&& report.object is Available
            &&& program_names(report.programs) == program_names(
                parsed_programs(object.programs@),
            ).sort_by(text_order())
            &&& report.programs.to_multiset() == parsed_programs(object.programs@).to_multiset()
            &&& report.maps == texts(object.maps@).sort_by(text_order())
        },
        Err(reason) => is_failure(report, object_path, reason@),
    }
}

/// The report on an object file that could not be looked into.
pub open spec fn is_failure(
    report: EbpfObjectProbeReportView,
    object_path: Seq<char>,
    reason: Seq<char>,
) -> bool {
    &&& report.object_path == object_path
    &&& report.object == EbpfProbeCheckView::Unavailable { reason }
    &&& report.programs.len() == 0
    &&& report.maps.len() == 0
}

/// The report on an object file, by what parsing it brought.
pub fn object_report(object_path: &str, parsed: Result<ParsedEbpfObject, String>) -> (report:
    EbpfObjectProbeReport)
    ensures
        is_report_on(report@, object_path@, parsed),
{
    match parsed {
        Ok(object) => EbpfObjectProbeReport {
            object_path: object_path.to_owned(),
            object: EbpfProbeCheck::Available,
            programs: sorted_programs(&object.programs),
            maps: sorted_names(&object.maps),
        },
        Err(reason) => EbpfObjectProbeReport {
            object_path: object_path.to_owned(),
            object: EbpfProbeCheck::Unavailable { reason },
            programs: Vec::new(),
            maps: Vec::new(),
        },
    }
}

pub const PARSE_FAILED_PREFIX: &'static str = "failed to parse eBPF object with aya-obj: ";

/// Why an object file is not parsed whose parts do not lie where it says.
pub const DAMAGED_REASON: &'static str = "failed to parse eBPF object: it tells of parts that cannot be taken out of it";

/// What parsing octets brought, with an error told as such.
pub open spec fn is_parsing_told(
    octets: Seq<u8>,
    outcome: Result<ParsedEbpfObject, String>,
    report: EbpfObjectProbeReportView,
    object_path: Seq<char>,
) -> bool {
    &&& parse_may_bring(octets, outcome)
    &&& match outcome {
        Ok(object) => {
            &&& octets.len() >= FILE_IDENTIFICATION_LEN
            &&& program_names(parsed_programs(object.programs@)).no_duplicates()
            &&& texts(object.maps@).no_duplicates()
            &&& is_report_on(report, object_path, Ok(object))
        },
        Err(error) => is_failure(report, object_path, PARSE_FAILED_PREFIX@ + error@),
    }
}

/// What looking into octets brought, on a machine with an order: they are parsed, unless that
/// cannot be done.
pub open spec fn is_looking_told(
    octets: Seq<u8>,
    native: bool,
    report: EbpfObjectProbeReportView,
    object_path: Seq<char>,
) -> bool {
    if can_be_looked_into(octets, native) {
        exists|outcome: Result<ParsedEbpfObject, String>| #[trigger]
            is_parsing_told(octets, outcome, report, object_path)
    } else {
        is_failure(report, object_path, DAMAGED_REASON@)
    }
}

/// Looks into object files.
pub struct AyaEbpfObjectProbe;

impl AyaEbpfObjectProbe {
    /// The report on an object file, by the octets that were read of it or why none were. A file
    /// whose parts do not lie where it says is not parsed.
    pub fn probe(config: &EbpfObjectProbeConfig, octets: Result<Vec<u8>, String>) -> (report:
        EbpfObjectProbeReport)
        ensures
            match octets {
                Err(reason) => is_failure(report@, config.object_path@, reason@),
                Ok(read) => exists|little: bool| #[trigger]
                    is_native(little) && is_looking_told(
                        read@,
                        little,
                        report@,
                        config.object_path@,
                    ),
            },
    {
        let read = match octets {
            Ok(read) => read,
            Err(reason) => {
                return object_report(config.object_path.as_str(), Err(reason));
            },
        };
        let native = native_is_little();
        if !object_can_be_looked_into(read.as_slice(), native) {
            let report = object_report(
                config.object_path.as_str(),
                Err(DAMAGED_REASON.to_owned()),
            );
            assert(is_looking_told(read@, native, report@, config.object_path@));
            return report;
        }
        let outcome = parse_object(read.as_slice());
        let ghost brought = outcome;
        let report = match outcome {
            Ok(object) => object_report(config.object_path.as_str(), Ok(object)),
            Err(error) => object_report(
                config.object_path.as_str(),
                Err(joined(PARSE_FAILED_PREFIX, error.as_str())),
            ),
        };
        assert(is_parsing_told(read@, brought, report@, config.object_path@));
        assert(is_looking_told(read@, native, report@, config.object_path@));
        report
    }
}

} // verus!
