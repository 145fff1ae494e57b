use libquil_sys::quilc::{
    group_rb_sequences, rb_sequence_count, ConjugatePauliByCliffordResult, MemoryType,
};
use libquil_sys::qvm::{split_trials, MultishotAddressRequest};
use libquil_sys::runtime::{core_file_candidates, library_name};
use libquil_sys::{find_core_file, Error};

#[test]
fn core_file_search_order() {
    let candidates = core_file_candidates(Some("/opt/libquil.core"));
    assert_eq!(
        candidates,
        vec![
            "/opt/libquil.core".to_string(),
            "/usr/local/lib/libquil.core".to_string(),
            "/usr/lib/libquil.core".to_string()
        ]
    );
    assert_eq!(core_file_candidates(None).len(), 2);
}

#[test]
fn first_existing_core_file_wins() {
    let candidates = vec![
        ("/a".to_string(), false),
        ("/b".to_string(), true),
        ("/c".to_string(), true),
    ];
    assert_eq!(find_core_file(&candidates), Ok("/b".to_string()));
    let none = vec![("/a".to_string(), false)];
    assert_eq!(find_core_file(&none), Err(Error::CoreFileNotFound));
    assert_eq!(find_core_file(&vec![]), Err(Error::CoreFileNotFound));
}

#[test]
fn library_name_per_system() {
    assert_eq!(library_name("linux"), Ok("libquil.so".to_string()));
    assert_eq!(library_name("macos"), Ok("libquil.dylib".to_string()));
    assert_eq!(
        library_name("windows"),
        Err(Error::UnsupportedOperatingSystem("windows".to_string()))
    );
    assert_eq!(
        Error::UnsupportedOperatingSystem("windows".to_string()).message(),
        "Unsupported Operating System: windows".to_string()
    );
    assert_eq!(
        Error::CoreFileNotFound.message(),
        "Could not find libquil core file. Set the LIBQUIL_CORE_PATH environment variable."
            .to_string()
    );
}

#[test]
fn memory_type_codes() {
    assert_eq!(MemoryType::from_code(0), Ok(MemoryType::Bit));
    assert_eq!(MemoryType::from_code(1), Ok(MemoryType::Octet));
    assert_eq!(MemoryType::from_code(2), Ok(MemoryType::Integer));
    assert_eq!(MemoryType::from_code(3), Ok(MemoryType::Real));
    assert_eq!(MemoryType::from_code(4), Err(4));
    assert_eq!(MemoryType::from_code(-1), Err(u32::MAX));
}

#[test]
fn rb_sequences_are_grouped_by_length() {
    assert_eq!(rb_sequence_count(3, true), 5);
    assert_eq!(rb_sequence_count(3, false), 3);
    let flat = vec![0, 1, 2, 0, 0, 0, 1, 2, 0, 1];
    let lens = vec![2, 1, 4, 1, 2];
    assert_eq!(
        group_rb_sequences(&flat, &lens),
        vec![vec![0, 1], vec![2], vec![0, 0, 0, 1], vec![2], vec![0, 1]]
    );
    let flat = vec![2, 0, 1, 0, 0, 0, 1, 0, 1];
    let lens = vec![3, 4, 2];
    assert_eq!(
        group_rb_sequences(&flat, &lens),
        vec![vec![2, 0, 1], vec![0, 0, 0, 1], vec![0, 1]]
    );
    assert_eq!(group_rb_sequences(&vec![], &vec![0]), vec![Vec::<i32>::new()]);
}

#[test]
fn measurements_are_split_per_trial() {
    let flat = vec![1, 0, 1, 1, 0, 1];
    assert_eq!(split_trials(&flat, 3), vec![vec![1, 0, 1], vec![1, 0, 1]]);
    assert_eq!(split_trials(&flat, 4), vec![vec![1, 0, 1, 1], vec![0, 1]]);
    assert_eq!(split_trials(&vec![], 2), Vec::<Vec<i32>>::new());
}

#[test]
fn version_info_text() {
    let quilc = libquil_sys::quilc::VersionInfo {
        version: "1.26.0".to_string(),
        githash: "abc123".to_string(),
    };
    assert_eq!(quilc.to_string(), "1.26.0 (abc123)".to_string());
    let qvm = libquil_sys::qvm::VersionInfo {
        version: "1.17.2".to_string(),
        githash: "def456".to_string(),
    };
    assert_eq!(qvm.to_string(), "1.17.2 (def456)".to_string());
}

#[test]
fn plain_result_types() {
    let r = ConjugatePauliByCliffordResult { phase: 0, pauli: "Z".to_string() };
    assert_eq!(r, ConjugatePauliByCliffordResult { phase: 0, pauli: "Z".to_string() });
    let request = MultishotAddressRequest::Indices(vec![0, 2]);
    assert_eq!(request, MultishotAddressRequest::Indices(vec![0, 2]));
    assert_ne!(request, MultishotAddressRequest::All);
}
