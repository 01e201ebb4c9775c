use aya_obj::ProgramSection;
use capture::ebpf::host::{probe_regular_file, PathInspection};
use capture::ebpf::object::{
    limited_ebpf_object_bytes, named_list_summary, object_report, validate_opened_ebpf_object,
    ParsedEbpfObject, MAX_EBPF_OBJECT_BYTES,
};
use capture::{
    AyaEbpfObjectProbe, EbpfObjectProbeConfig, EbpfObjectProgramKind, EbpfProbeCheck,
};

/// The octets of an object file, by the stages at which they are read.
fn octets_of(
    path: &str,
    inspection: PathInspection,
    size: u64,
    octets: &[u8],
) -> Result<Vec<u8>, String> {
    if let EbpfProbeCheck::Unavailable { reason } =
        probe_regular_file(&inspection, path, "eBPF object")
    {
        return Err(reason);
    }
    validate_opened_ebpf_object(path, true, size)?;
    limited_ebpf_object_bytes(path, octets.to_vec(), MAX_EBPF_OBJECT_BYTES)
}

#[test]
fn object_probe_reports_missing_object() {
    let config = EbpfObjectProbeConfig::new("missing.bpf.o");

    let report = AyaEbpfObjectProbe::probe(
        &config,
        octets_of("missing.bpf.o", PathInspection::Missing, 0, b""),
    );

    assert!(!report.object_available());
    assert!(report.summary().contains("does not exist"));
    assert!(report.programs.is_empty());
    assert!(report.maps.is_empty());
}

#[test]
fn object_probe_reports_invalid_object() {
    let octets = b"not an elf object";
    let config = EbpfObjectProbeConfig::new("invalid.bpf.o");

    let report = AyaEbpfObjectProbe::probe(
        &config,
        octets_of("invalid.bpf.o", PathInspection::RegularFile, 17, octets),
    );

    assert!(!report.object_available());
    assert!(report.summary().contains("failed to parse eBPF object"));
    assert!(report.programs.is_empty());
    assert!(report.maps.is_empty());
}

#[test]
fn object_probe_rejects_oversized_object_before_parse() {
    let config = EbpfObjectProbeConfig::new("oversized.bpf.o");

    let report = AyaEbpfObjectProbe::probe(
        &config,
        octets_of(
            "oversized.bpf.o",
            PathInspection::RegularFile,
            MAX_EBPF_OBJECT_BYTES + 1,
            b"",
        ),
    );

    assert!(!report.object_available());
    assert!(report.summary().contains("too large"));
    assert!(report.programs.is_empty());
    assert!(report.maps.is_empty());
}

#[test]
fn bounded_object_reader_rejects_file_larger_than_limit() {
    let error = limited_ebpf_object_bytes("bounded.bpf.o", b"abcd".to_vec(), 3)
        .expect_err("bounded reader must reject bytes beyond limit");

    assert!(error.contains("too large"));
    assert_eq!(
        error,
        "eBPF object path bounded.bpf.o is too large: 4 bytes exceeds 3 bytes"
    );
    assert_eq!(
        limited_ebpf_object_bytes("bounded.bpf.o", b"abc".to_vec(), 3),
        Ok(b"abc".to_vec())
    );
}

#[test]
fn opened_directory_is_no_object() {
    assert_eq!(
        validate_opened_ebpf_object("object.bpf.o", false, 10),
        Err("eBPF object path object.bpf.o is not a regular file".to_string())
    );
    assert_eq!(
        validate_opened_ebpf_object("object.bpf.o", true, MAX_EBPF_OBJECT_BYTES),
        Ok(())
    );
}

#[test]
fn octets_too_short_for_any_format_are_not_parsed() {
    let config = EbpfObjectProbeConfig::new("short.bpf.o");
    let report = AyaEbpfObjectProbe::probe(&config, Ok(b"\x7fELF".to_vec()));
    assert!(!report.object_available());
    assert!(report.summary().contains("failed to parse eBPF object"));
}

/// A little-endian 64-bit ELF file with a null section and a section of names, and nothing else.
fn empty_elf_object() -> Vec<u8> {
    let names = b"\0.shstrtab\0";
    let mut octets = Vec::new();
    octets.extend_from_slice(&[0x7f, b'E', b'L', b'F', 2, 1, 1, 0]);
    octets.extend_from_slice(&[0; 8]);
    octets.extend_from_slice(&1u16.to_le_bytes());
    octets.extend_from_slice(&247u16.to_le_bytes());
    octets.extend_from_slice(&1u32.to_le_bytes());
    octets.extend_from_slice(&0u64.to_le_bytes());
    octets.extend_from_slice(&0u64.to_le_bytes());
    octets.extend_from_slice(&80u64.to_le_bytes());
    octets.extend_from_slice(&0u32.to_le_bytes());
    octets.extend_from_slice(&64u16.to_le_bytes());
    octets.extend_from_slice(&56u16.to_le_bytes());
    octets.extend_from_slice(&0u16.to_le_bytes());
    octets.extend_from_slice(&64u16.to_le_bytes());
    octets.extend_from_slice(&2u16.to_le_bytes());
    octets.extend_from_slice(&1u16.to_le_bytes());
    octets.extend_from_slice(names);
    octets.resize(80, 0);
    octets.extend_from_slice(&[0; 64]);
    octets.extend_from_slice(&1u32.to_le_bytes());
    octets.extend_from_slice(&3u32.to_le_bytes());
    octets.extend_from_slice(&0u64.to_le_bytes());
    octets.extend_from_slice(&0u64.to_le_bytes());
    octets.extend_from_slice(&64u64.to_le_bytes());
    octets.extend_from_slice(&(names.len() as u64).to_le_bytes());
    octets.extend_from_slice(&[0; 8]);
    octets.extend_from_slice(&1u64.to_le_bytes());
    octets.extend_from_slice(&0u64.to_le_bytes());
    octets
}

#[test]
fn empty_object_is_parsed() {
    let config = EbpfObjectProbeConfig::new("empty.bpf.o");
    let report = AyaEbpfObjectProbe::probe(&config, Ok(empty_elf_object()));
    assert_eq!(
        report.summary(),
        "object empty.bpf.o parsed, programs=none, maps=none"
    );
    assert!(report.object_available());
}

#[test]
fn report_lists_programs_and_maps_by_name() {
    let report = object_report(
        "object.bpf.o",
        Ok(ParsedEbpfObject {
            programs: vec![
                ("write".to_string(), ProgramSection::TracePoint),
                ("accept".to_string(), ProgramSection::KProbe),
                ("read".to_string(), ProgramSection::UProbe { sleepable: false }),
            ],
            maps: vec!["b".to_string(), "a".to_string()],
        }),
    );
    let programs = report
        .programs
        .iter()
        .map(|program| (program.name.as_str(), program.kind))
        .collect::<Vec<_>>();
    assert_eq!(
        programs,
        vec![
            ("accept", EbpfObjectProgramKind::Kprobe),
            ("read", EbpfObjectProgramKind::Uprobe),
            ("write", EbpfObjectProgramKind::Tracepoint),
        ]
    );
    assert_eq!(report.maps, vec!["a".to_string(), "b".to_string()]);
    assert_eq!(
        report.summary(),
        "object object.bpf.o parsed, programs=accept,read,write, maps=a,b"
    );
}

#[test]
fn section_tells_the_kind_of_a_program() {
    assert_eq!(
        EbpfObjectProgramKind::from_section(&ProgramSection::SchedClassifier),
        EbpfObjectProgramKind::SchedClassifier
    );
    assert_eq!(
        EbpfObjectProgramKind::from_section(&ProgramSection::URetProbe { sleepable: true }),
        EbpfObjectProgramKind::Uretprobe
    );
    assert_eq!(
        EbpfObjectProgramKind::from_section(&ProgramSection::SkLookup),
        EbpfObjectProgramKind::SkLookup
    );
}

#[test]
fn empty_list_has_a_word_for_it() {
    assert_eq!(named_list_summary(&Vec::new()), "none");
}
