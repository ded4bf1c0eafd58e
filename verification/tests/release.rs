use oflh::release::{
    artifact_names, checksums_text, formula, hex_digest, hex_text, name, release_request, stray_artifact, version, ReleaseAction,
};

#[test]
fn versions() {
    for v in ["dev", "v0.0.10-rc.1", "v1.2.3"] {
        assert!(version(v).is_ok())
    }
    for v in ["1.2.3", "v1.2", "v1.2.3-", "v01.2.3", "v1.2.3\n"] {
        assert!(version(v).is_err())
    }
}

#[test]
fn artifact_names_and_digests() {
    assert_eq!(name("linux", "amd64").unwrap(), "oflh-linux-amd64");
    assert_eq!(name("windows", "arm64").unwrap(), "oflh-windows-arm64.exe");
    assert!(name("freebsd", "amd64").is_err());
    assert_eq!(
        hex_digest(b"abc"),
        "ba7816bf8f01cfea414140de5dae2223b00361a396177a9cb410ff61f20015ad"
    );
}

#[test]
fn homebrew_formula() {
    let sums: Vec<(String, String)> = ["darwin-amd64", "darwin-arm64", "linux-amd64", "linux-arm64"]
        .iter()
        .enumerate()
        .map(|(i, t)| (format!("oflh-{t}"), format!("{i}").repeat(64)))
        .collect();
    let f = formula("v0.0.10-rc.1", &sums, None).unwrap();
    assert_eq!(f.matches("sha256").count(), 4);
    assert!(f.contains("releases/download/v0.0.10-rc.1/oflh-darwin-arm64"));
    assert!(f.contains("version \"0.0.10-rc.1\""));
    assert!(formula("dev", &sums, None).is_err());
    assert!(formula("v1.0.0", &sums, Some("https://x/\"y")).is_err());
    assert_eq!(formula("v1.0.0", &sums[1..], None).unwrap_err(), "missing artifact checksum");
    let mut bad = sums.clone();
    bad[0].1 = "A".repeat(64);
    assert_eq!(formula("v1.0.0", &bad, None).unwrap_err(), "invalid checksum");
}

fn args(list: &[&str]) -> Vec<String> {
    list.iter().map(|a| a.to_string()).collect()
}

#[test]
fn release_directory_contents() {
    let names = artifact_names();
    assert_eq!(names.len(), 6);
    assert_eq!(names[0], "oflh-linux-amd64");
    assert_eq!(names[5], "oflh-windows-arm64.exe");
    let mut present = names.clone();
    present.push("checksums.txt".into());
    assert_eq!(stray_artifact(&present), None);
    present.push("unexpected".into());
    present.push("other".into());
    assert_eq!(stray_artifact(&present), Some("unexpected".to_string()));
    let sums = vec![("oflh-a".to_string(), "00ff".to_string()), ("oflh-b".to_string(), "11".to_string())];
    assert_eq!(checksums_text(&sums), "00ff  oflh-a\n11  oflh-b\n");
    assert_eq!(checksums_text(&[]), "");
}

#[test]
fn release_tool_arguments() {
    assert!(release_request(&args(&[])).unwrap_err().starts_with("usage:"));
    let q = release_request(&args(&["validate", "--version", "dev"])).unwrap();
    assert_eq!(q.action, ReleaseAction::Validate);
    assert_eq!(q.tag, "dev");
    assert_eq!(q.output, "dist");
    let q = release_request(&args(&["package", "--version", "v1.2.3", "--binary", "b", "--os", "linux", "--arch", "arm64", "--output", "out"])).unwrap();
    assert_eq!(q.action, ReleaseAction::Package);
    assert_eq!((q.binary.as_deref(), q.os.as_deref(), q.arch.as_deref()), (Some("b"), Some("linux"), Some("arm64")));
    assert_eq!(q.output, "out");
    let q = release_request(&args(&["assemble", "--version", "v1.2.3", "--base-url", "https://x"])).unwrap();
    assert_eq!(q.action, ReleaseAction::Assemble);
    assert_eq!(q.base.as_deref(), Some("https://x"));
    assert_eq!(q.formula, None);
    assert_eq!(release_request(&args(&["validate", "--bogus", "1"])).unwrap_err(), "unknown option --bogus");
    assert_eq!(release_request(&args(&["validate", "--version"])).unwrap_err(), "option requires a value");
    assert_eq!(release_request(&args(&["validate", "--version", "dev", "--version", "dev"])).unwrap_err(), "duplicate option");
    assert_eq!(release_request(&args(&["validate"])).unwrap_err(), "missing --version");
    assert!(release_request(&args(&["validate", "--version", "1.0.0"])).is_err());
    assert_eq!(release_request(&args(&["package", "--version", "dev", "--os", "linux"])).unwrap_err(), "missing --binary");
    assert_eq!(release_request(&args(&["package", "--version", "dev", "--binary", "b"])).unwrap_err(), "missing --os");
    assert_eq!(release_request(&args(&["publish", "--version", "dev"])).unwrap_err(), "unknown action");
}

#[test]
fn bytes_as_hex() {
    assert_eq!(hex_text(&[0x00, 0x0f, 0xa0, 0xff]), "000fa0ff");
    assert_eq!(hex_text(&[]), "");
}
