use gadget::gadget::{manifest_index, strip_locale, ArchiveEntry, Gadget, LoadError};
use gadget::rewrite::{stats_json, MachineStats};

const MANIFEST: &str = r#"<?xml version="1.0" encoding="utf-8" ?>
<gadget>
  <name>CPU Meter</name>
  <author name="Microsoft Corporation"><info url="http://example.com"/></author>
  <copyright>&#169; Microsoft Corporation.</copyright>
  <hosts>
    <host name="sidebar">
      <base type="HTML" apiVersion="1.0.0" src="cpu.html" />
      <permissions>Full</permissions>
    </host>
  </hosts>
</gadget>"#;

fn file(name: &str, contents: &[u8]) -> ArchiveEntry {
    ArchiveEntry { name: name.to_string(), is_dir: false, contents: contents.to_vec() }
}

fn dir(name: &str) -> ArchiveEntry {
    ArchiveEntry { name: name.to_string(), is_dir: true, contents: Vec::new() }
}

fn stats() -> MachineStats {
    MachineStats { cpu_usage: vec!["1".to_string()], total_memory: 4_000_000, available_memory: 1_000_000 }
}

#[test]
fn gadget_from_file() {
    let entries = vec![dir("en-US/"), file("en-US/gadget.xml", MANIFEST.as_bytes())];
    let gadget = Gadget::from_entries(&entries).unwrap();
    assert_eq!(gadget.name, "CPU Meter");
    assert_eq!(gadget.entrypoint, "cpu.html");
}

#[test]
fn manifest_metadata() {
    let g = Gadget::from_manifest(MANIFEST.as_bytes()).unwrap();
    assert_eq!(g.author, Some("Microsoft Corporation".to_string()));
    assert_eq!(g.copyright, Some("\u{a9} Microsoft Corporation.".to_string()));
    assert_eq!(g.summary(), "CPU Meter, Microsoft Corporation \u{a9} Microsoft Corporation.");
}

#[test]
fn manifest_optional_fields_absent() {
    let m = r#"<gadget><name>N</name><hosts><host><base type="html" src="a/b.html"/></host></hosts></gadget>"#;
    let g = Gadget::from_manifest(m.as_bytes()).unwrap();
    assert_eq!(g.author, None);
    assert_eq!(g.copyright, None);
    assert_eq!(g.entrypoint, "a/b.html");
    assert_eq!(g.summary(), "N");
}

#[test]
fn manifest_picks_the_html_base() {
    let m = r#"<gadget><name>N</name><hosts><host><base type="Flash" src="x.swf"/></host><host><base type="HTML" src="y.html"/></host></hosts></gadget>"#;
    assert_eq!(Gadget::from_manifest(m.as_bytes()).unwrap().entrypoint, "y.html");
}

#[test]
fn manifest_without_name_fails() {
    let m = r#"<gadget><hosts><host><base type="HTML" src="a.html"/></host></hosts></gadget>"#;
    assert_eq!(Gadget::from_manifest(m.as_bytes()).err(), Some(LoadError::NoName));
}

#[test]
fn manifest_without_entrypoint_fails() {
    let m = r#"<gadget><name>N</name><hosts><host><base type="HTML"/></host></hosts></gadget>"#;
    assert_eq!(Gadget::from_manifest(m.as_bytes()).err(), Some(LoadError::NoEntrypoint));
}

#[test]
fn malformed_manifest_fails() {
    assert_eq!(Gadget::from_manifest(b"<gadget><name>N</gadget>").err(), Some(LoadError::ManifestParse));
}

#[test]
fn missing_manifest_fails() {
    let entries = vec![file("en-US/other.xml", MANIFEST.as_bytes())];
    assert_eq!(Gadget::from_entries(&entries).err(), Some(LoadError::ManifestNotFound));
}

#[test]
fn manifest_in_locale_folder_comes_first() {
    let entries = vec![file("gadget.xml", b""), file("x", b""), file("en-US/gadget.xml", b"")];
    assert_eq!(manifest_index(&entries), Some(2));
    let entries = vec![file("x", b""), file("gadget.xml", b"")];
    assert_eq!(manifest_index(&entries), Some(1));
    assert_eq!(manifest_index(&vec![]), None);
}

#[test]
fn locale_folder_is_stripped() {
    assert_eq!(strip_locale("en-US/images/a.png"), "images/a.png");
    assert_eq!(strip_locale("de-DE/a.png"), "de-DE/a.png");
    assert_eq!(strip_locale("en-US"), "en-US");
    assert_eq!(strip_locale("x/en-US/a"), "x/en-US/a");
}

#[test]
fn output_paths() {
    let g = Gadget::from_manifest(MANIFEST.as_bytes()).unwrap();
    assert_eq!(g.output_path("en-US/cpu.html"), ("index.html".to_string(), true));
    assert_eq!(g.output_path("cpu.html"), ("index.html".to_string(), true));
    assert_eq!(g.output_path("en-US/css/cpu.css"), ("css/cpu.css".to_string(), false));
}

#[test]
fn unpack_writes_one_file_per_file_entry() {
    let html = "<html><head></head><body><g:image src=\"a.png\"/></body></html>";
    let entries = vec![
        dir("en-US/"),
        file("en-US/gadget.xml", MANIFEST.as_bytes()),
        dir("en-US/images/"),
        file("en-US/images/a.png", &[0, 1, 2, 255]),
        file("en-US/cpu.html", html.as_bytes()),
        file("readme.txt", b"hi"),
    ];
    let g = Gadget::from_entries(&entries).unwrap();
    let files = g.unpack_plan(entries, "S", &stats()).unwrap();
    let paths: Vec<&str> = files.iter().map(|f| f.path.as_str()).collect();
    assert_eq!(paths, vec!["gadget.xml", "images/a.png", "index.html", "readme.txt"]);
    assert_eq!(files[0].contents, MANIFEST.as_bytes());
    assert_eq!(files[1].contents, vec![0, 1, 2, 255]);
    assert_eq!(files[3].contents, b"hi");
    let page = String::from_utf8(files[2].contents.clone()).unwrap();
    assert!(page.contains("<img src=\"a.png\"></img>"));
    assert!(page.contains(&stats_json(&stats())));
    assert!(!paths.contains(&"cpu.html"));
}

#[test]
fn unpack_stops_on_bad_entry_document() {
    let entries = vec![file("gadget.xml", MANIFEST.as_bytes()), file("cpu.html", &[0xff, 0xfe, 0x41])];
    let g = Gadget::from_entries(&entries).unwrap();
    assert!(g.unpack_plan(entries, "S", &stats()).is_err());
}
