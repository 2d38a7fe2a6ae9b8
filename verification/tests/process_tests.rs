use ll_core::{Error, Files, Format, ECAD};

fn fmt_for(ecad: ECAD, name: &str) -> Format {
    Format::from_ecad(&name.to_string(), ecad, "out".to_string())
}

fn run(fmt: &Format, files: &mut Files, path: &str, bytes: &[u8]) {
    let mut item = bytes.to_vec();
    fmt.process("out".to_string(), files, path.to_string(), &mut item)
        .unwrap();
}

#[test]
fn d3_nests_every_key_under_the_library_folder() {
    let fmt = fmt_for(ECAD::D3, "widget");
    let mut files = Files::new();
    run(&fmt, &mut files, "3D/model.stp", b"solid");
    run(&fmt, &mut files, "3D/doc/info.txt", b"info");
    assert_eq!(files.len(), 2);
    assert_eq!(files.get("widget/3D/model.stp").unwrap(), b"solid");
    assert_eq!(files.get("widget/3D/doc/info.txt").unwrap(), b"info");
    for k in files.keys() {
        assert!(k.contains('/'));
    }
}

#[test]
fn eagle_and_designspark_add_no_nesting() {
    for ecad in [ECAD::Eagle, ECAD::DesignSpark] {
        let fmt = fmt_for(ecad, "widget");
        let mut files = Files::new();
        run(&fmt, &mut files, "part.lbr", b"data");
        assert_eq!(files.len(), 1);
        assert_eq!(files.get("part.lbr").unwrap(), b"data");
        assert!(!files.contains_key("widget/part.lbr"));
    }
}

#[test]
fn easyeda_is_plain_pass_through() {
    let fmt = fmt_for(ECAD::EasyEDA, "widget");
    let mut files = Files::new();
    run(&fmt, &mut files, "comp.json", b"{}");
    assert_eq!(files.len(), 1);
    assert_eq!(files.get("comp.json").unwrap(), b"{}");
}

#[test]
fn later_writes_at_the_same_path_win() {
    let fmt = fmt_for(ECAD::Eagle, "widget");
    let mut files = Files::new();
    run(&fmt, &mut files, "part.lbr", b"first");
    run(&fmt, &mut files, "part.lbr", b"second");
    assert_eq!(files.len(), 1);
    assert_eq!(files.get("part.lbr").unwrap(), b"second");
}

#[test]
fn kicad_merges_fragments_into_three_artifact_groups() {
    let fmt = fmt_for(ECAD::KiCad, "widget");
    let mut files = Files::new();
    run(&fmt, &mut files, "KiCad/alpha.lib", b"alpha-lib;");
    run(&fmt, &mut files, "KiCad/alpha.dcm", b"alpha-dcm;");
    run(&fmt, &mut files, "KiCad/alpha.pretty/r1.kicad_mod", b"mod-r1");
    run(&fmt, &mut files, "KiCad/beta.lib", b"beta-lib;");
    run(&fmt, &mut files, "KiCad/beta.pretty/r2.kicad_mod", b"mod-r2");

    assert_eq!(files.len(), 4);
    assert_eq!(files.get("LibraryLoader.lib").unwrap(), b"alpha-lib;beta-lib;");
    assert_eq!(files.get("LibraryLoader.dcm").unwrap(), b"alpha-dcm;");
    assert_eq!(files.get("LibraryLoader.pretty/r1.kicad_mod").unwrap(), b"mod-r1");
    assert_eq!(files.get("LibraryLoader.pretty/r2.kicad_mod").unwrap(), b"mod-r2");

    for k in files.keys() {
        assert!(
            k == "LibraryLoader.lib"
                || k == "LibraryLoader.dcm"
                || k.starts_with("LibraryLoader.pretty/")
        );
    }
}

#[test]
fn a_single_kicad_fragment_still_yields_all_artifact_groups() {
    let fmt = fmt_for(ECAD::KiCad, "widget");
    let mut files = Files::new();
    run(&fmt, &mut files, "KiCad/solo.pretty/only.kicad_mod", b"only");
    assert_eq!(files.len(), 3);
    assert_eq!(files.get("LibraryLoader.lib").unwrap(), b"");
    assert_eq!(files.get("LibraryLoader.dcm").unwrap(), b"");
    assert_eq!(files.get("LibraryLoader.pretty/only.kicad_mod").unwrap(), b"only");
}

#[test]
fn zip_identifier_cannot_be_processed() {
    let fmt = fmt_for(ECAD::Zip, "widget");
    let mut files = Files::new();
    let mut item = b"x".to_vec();
    let err = fmt
        .process("out".to_string(), &mut files, "a.txt".to_string(), &mut item)
        .unwrap_err();
    assert_eq!(err, Error::UnsupportedOperation(ECAD::Zip));
    assert_eq!(files.len(), 0);
}

#[test]
fn processing_leaves_the_item_bytes_unchanged() {
    let fmt = fmt_for(ECAD::Eagle, "widget");
    let mut files = Files::new();
    let mut item = b"payload".to_vec();
    fmt.process("out".to_string(), &mut files, "p.lbr".to_string(), &mut item)
        .unwrap();
    assert_eq!(item, b"payload");
}
