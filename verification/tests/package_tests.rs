use six::package::{
    check_signature, dependency_names, header_file_name, is_package_file, package_stem,
    signature_hex, signature_of, stored_signature, SignatureCheck,
};

#[test]
fn package_names_become_file_stems() {
    assert_eq!(package_stem("@scope/name"), "scope-name");
    assert_eq!(package_stem("a@b/c/d"), "ab-c-d");
    assert_eq!(package_stem("plain"), "plain");
    assert_eq!(package_stem(""), "");
}

#[test]
fn library_files_of_a_package() {
    assert!(is_package_file("scope-name-1.0.siz.lib", "scope-name"));
    assert!(is_package_file("scope-name.siz.lib", "scope-name"));
    assert!(!is_package_file("scope-name.six.h", "scope-name"));
    assert!(!is_package_file("other.siz.lib", "scope-name"));
    assert!(!is_package_file("scope.siz.lib", "scope-name"));
    assert!(is_package_file(".siz.lib", ""));
    assert!(!is_package_file("siz.lib", ""));
}

#[test]
fn header_names_follow_library_names() {
    assert_eq!(header_file_name("math.siz.lib"), "math.six.h");
    assert_eq!(header_file_name("a.siz.lib.siz.lib"), "a.six.h.six.h");
    assert_eq!(header_file_name("readme"), "readme");
}

#[test]
fn signatures_fold_shifted_bytes() {
    assert_eq!(signature_of(&[]), 0);
    assert_eq!(signature_of(&[1]), 1);
    assert_eq!(signature_of(&[1, 1]), 3);
    assert_eq!(signature_of(&[1, 2, 3]), 9);
    assert_eq!(signature_of(&[0x80; 8]), 0x7F80);
    assert_eq!(signature_of(&[0x80; 9]), 0x7F00);
}

#[test]
fn signatures_print_as_sixteen_hex_digits() {
    assert_eq!(signature_hex(0), "0000000000000000");
    assert_eq!(signature_hex(0x7F00), "0000000000007F00");
    assert_eq!(signature_hex(u64::MAX), "FFFFFFFFFFFFFFFF");
    assert_eq!(signature_hex(0xABCDEF0123456789), "ABCDEF0123456789");
    assert_eq!(signature_hex(0x1234), format!("{:016X}", 0x1234u64));
}

#[test]
fn stored_signatures_are_read_from_the_first_marked_line() {
    let header = "// .six Interface Header\n// SIG: 0000000000000009\nvoid f();\n// SIG: FFFF\n";
    assert_eq!(stored_signature(header), "0000000000000009");
    assert_eq!(stored_signature("void f();\n"), "");
    assert_eq!(stored_signature(""), "");
    assert_eq!(stored_signature("// SIG:// SIG:  ABC \r\nrest"), "ABC");
    assert_eq!(stored_signature(" // SIG: 12"), "");
    assert_eq!(stored_signature("x\n// SIG:"), "");
    assert_eq!(stored_signature("\n\n// SIG:\tD1\t"), "D1");
}

#[test]
fn signature_verdicts() {
    let bin = [1u8, 2, 3];
    assert_eq!(check_signature(None, &bin), SignatureCheck::MissingHeader);
    assert_eq!(check_signature(Some("void f();\n"), &bin), SignatureCheck::Unsigned);
    assert_eq!(
        check_signature(Some("// .six Interface Header\n// SIG: 0000000000000009\n"), &bin),
        SignatureCheck::Verified
    );
    let tampered = [1u8, 2, 4];
    let verdict = check_signature(Some("// SIG: 0000000000000009"), &tampered);
    assert_eq!(
        verdict,
        SignatureCheck::Mismatch {
            expected: "0000000000000009".to_string(),
            computed: "0000000000000015".to_string(),
        }
    );
    assert!(!verdict.allows_install());
    assert!(SignatureCheck::Verified.allows_install());
    assert!(SignatureCheck::Unsigned.allows_install());
    assert!(SignatureCheck::MissingHeader.allows_install());
}

#[test]
fn lower_case_signatures_do_not_match() {
    let bin = [0xffu8];
    assert_eq!(signature_hex(signature_of(&bin)), "00000000000000FF");
    assert!(matches!(
        check_signature(Some("// SIG: 00000000000000ff"), &bin),
        SignatureCheck::Mismatch { .. }
    ));
}

#[test]
fn a_header_signed_with_the_binary_verifies() {
    let bin: Vec<u8> = (0..100u32).map(|i| (i * 37 % 256) as u8).collect();
    let header = format!("// SIG: {}\nvoid main();\n", signature_hex(signature_of(&bin)));
    assert_eq!(check_signature(Some(&header), &bin), SignatureCheck::Verified);
}

#[test]
fn manifest_dependencies() {
    let manifest = "[package]\nname = \"app\"\n\n[dependencies]\n\"@six/math\" = \"1.0\"\nutils = \"*\"\nnot a dependency\n\n[dev]\nfoo = 1\n";
    assert_eq!(dependency_names(manifest), vec!["@six/math".to_string(), "utils".to_string()]);
}

#[test]
fn manifest_section_headers_are_trimmed() {
    let manifest = "  [dependencies]  \r\n  a = 1\r\n[x]\nb = 2\n[dependencies]\nc=3=4";
    assert_eq!(dependency_names(manifest), vec!["a".to_string(), "c".to_string()]);
    assert!(dependency_names("").is_empty());
    assert!(dependency_names("a = 1\n").is_empty());
}

use six::package::{install_next, InstallAction, InstallEvent, InstallStage, InstallState};

fn step(st: InstallState, ev: InstallEvent) -> (InstallState, InstallAction) {
    install_next(&st, ev)
}

#[test]
fn local_files_are_checked_then_installed() {
    let st = InstallState::new("@six/math");
    assert_eq!(st.stem, "six-math");
    let (st, a) = step(st, InstallEvent::LocalFile("readme.txt".to_string()));
    assert_eq!(a, InstallAction::Skip);
    let (st, a) = step(st, InstallEvent::LocalFile("six-math.siz.lib".to_string()));
    assert_eq!(a, InstallAction::Check);
    let (st, a) = step(st, InstallEvent::LocalChecked(true));
    assert_eq!(a, InstallAction::Install);
    assert!(st.found);
    let (st, a) = step(st, InstallEvent::LocalDone);
    assert_eq!(a, InstallAction::Done);
    assert_eq!(st.stage, InstallStage::Finished);
    assert!(!st.wants_more());
}

#[test]
fn a_failed_local_check_stops_everything() {
    let st = InstallState::new("pkg");
    let (st, _) = step(st, InstallEvent::LocalFile("pkg.siz.lib".to_string()));
    let (st, a) = step(st, InstallEvent::LocalChecked(false));
    assert_eq!(a, InstallAction::Abort);
    let (st, a) = step(st, InstallEvent::LocalFile("pkg-2.siz.lib".to_string()));
    assert_eq!(a, InstallAction::Skip);
    let (_, a) = step(st, InstallEvent::LocalDone);
    assert_eq!(a, InstallAction::Skip);
}

#[test]
fn the_registry_is_searched_only_when_nothing_was_installed() {
    let st = InstallState::new("pkg");
    let (st, a) = step(st, InstallEvent::LocalDone);
    assert_eq!(a, InstallAction::SearchRegistry);
    assert!(st.wants_more());
    let (st, a) = step(st, InstallEvent::RemoteFile("other.siz.lib".to_string()));
    assert_eq!(a, InstallAction::Skip);
    let (st, a) = step(st, InstallEvent::RemoteFile("pkg.siz.lib".to_string()));
    assert_eq!(a, InstallAction::Fetch);
    let (st, a) = step(st, InstallEvent::RemoteFetched(true));
    assert_eq!(a, InstallAction::Check);
    let (st, a) = step(st, InstallEvent::RemoteChecked(true));
    assert_eq!(a, InstallAction::Install);
    assert!(!st.wants_more());
    let (_, a) = step(st, InstallEvent::RemoteDone);
    assert_eq!(a, InstallAction::Done);
}

#[test]
fn remote_failures_report_not_found() {
    let st = InstallState::new("pkg");
    let (st, _) = step(st, InstallEvent::LocalDone);
    let (st, _) = step(st, InstallEvent::RemoteFile("pkg.siz.lib".to_string()));
    let (st, a) = step(st, InstallEvent::RemoteFetched(false));
    assert_eq!(a, InstallAction::DownloadFailed);
    let (_, a) = step(st, InstallEvent::RemoteDone);
    assert_eq!(a, InstallAction::NotFound);
    let st = InstallState::new("pkg");
    let (st, _) = step(st, InstallEvent::LocalDone);
    let (_, a) = step(st, InstallEvent::RemoteDone);
    assert_eq!(a, InstallAction::NotFound);
}
