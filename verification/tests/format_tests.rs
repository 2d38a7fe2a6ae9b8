use ll_core::{Format, Output, ECAD};

fn build(ecad: ECAD) -> Format {
    Format::from_ecad(&"lib".to_string(), ecad, "out".to_string())
}

#[test]
fn policy_table_for_d3() {
    let f = build(ECAD::D3);
    assert!(f.create_folder);
    assert_eq!(f.match_path, vec!["3D"]);
    assert!(f.ignore.is_empty());
    assert!(f.output.is_empty());
}

#[test]
fn policy_table_for_designspark() {
    let f = build(ECAD::DesignSpark);
    assert!(!f.create_folder);
    assert_eq!(f.match_path, vec!["DesignSpark PCB"]);
    assert!(f.ignore.is_empty());
    assert!(f.output.is_empty());
}

#[test]
fn policy_table_for_eagle() {
    let f = build(ECAD::Eagle);
    assert!(!f.create_folder);
    assert_eq!(f.match_path, vec!["EAGLE"]);
    assert_eq!(f.ignore, vec!["Readme.html"]);
    assert!(f.output.is_empty());
}

#[test]
fn policy_table_for_easyeda() {
    let f = build(ECAD::EasyEDA);
    assert!(!f.create_folder);
    assert_eq!(f.match_path, vec!["EasyEDA"]);
    assert_eq!(f.ignore, vec!["Readme.html"]);
    assert!(f.output.is_empty());
}

#[test]
fn policy_table_for_kicad() {
    let f = build(ECAD::KiCad);
    assert!(!f.create_folder);
    assert_eq!(f.match_path, vec!["KiCad"]);
    assert!(f.ignore.is_empty());
    assert_eq!(
        f.output,
        vec![
            Output::File("LibraryLoader.lib"),
            Output::File("LibraryLoader.dcm"),
            Output::Folder("LibraryLoader.pretty"),
        ]
    );
}

#[test]
fn policy_table_for_zip() {
    let f = build(ECAD::Zip);
    assert!(!f.create_folder);
    assert_eq!(f.match_path, vec![""]);
    assert!(f.ignore.is_empty());
    assert!(f.output.is_empty());
}

#[test]
fn format_carries_name_ecad_and_output_path() {
    let f = Format::from_ecad(&"widget".to_string(), ECAD::Eagle, "some/dir".to_string());
    assert_eq!(f.name, "widget");
    assert_eq!(f.ecad, ECAD::Eagle);
    assert_eq!(f.output_path, "some/dir");
}
