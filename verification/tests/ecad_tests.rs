use ll_core::{Error, ECAD};

#[test]
fn parse_accepts_each_label_case_insensitively() {
    assert_eq!(ECAD::parse("3d").unwrap(), ECAD::D3);
    assert_eq!(ECAD::parse("3D").unwrap(), ECAD::D3);
    assert_eq!(ECAD::parse("designspark").unwrap(), ECAD::DesignSpark);
    assert_eq!(ECAD::parse("DesignSpark").unwrap(), ECAD::DesignSpark);
    assert_eq!(ECAD::parse("eagle").unwrap(), ECAD::Eagle);
    assert_eq!(ECAD::parse("EAGLE").unwrap(), ECAD::Eagle);
    assert_eq!(ECAD::parse("easyeda").unwrap(), ECAD::EasyEDA);
    assert_eq!(ECAD::parse("EasyEDA").unwrap(), ECAD::EasyEDA);
    assert_eq!(ECAD::parse("kicad").unwrap(), ECAD::KiCad);
    assert_eq!(ECAD::parse("KiCad").unwrap(), ECAD::KiCad);
    assert_eq!(ECAD::parse("zip").unwrap(), ECAD::Zip);
    assert_eq!(ECAD::parse("ZIP").unwrap(), ECAD::Zip);
}

#[test]
fn parse_then_format_gives_the_lowercased_label() {
    let labels = [
        "3d",
        "3D",
        "designspark",
        "DESIGNSPARK",
        "eagle",
        "Eagle",
        "easyeda",
        "EasyEDA",
        "kicad",
        "KICAD",
        "zip",
        "Zip",
    ];
    for s in labels {
        let parsed = ECAD::parse(s).unwrap();
        assert_eq!(parsed.to_display_string(), s.to_lowercase());
    }
}

#[test]
fn format_then_parse_returns_the_same_variant() {
    let variants = [
        ECAD::D3,
        ECAD::DesignSpark,
        ECAD::Eagle,
        ECAD::EasyEDA,
        ECAD::KiCad,
        ECAD::Zip,
    ];
    for v in variants {
        assert_eq!(ECAD::parse(&v.to_display_string()).unwrap(), v);
    }
}

#[test]
fn display_strings_are_the_fixed_lowercase_labels() {
    assert_eq!(ECAD::D3.to_display_string(), "3d");
    assert_eq!(ECAD::DesignSpark.to_display_string(), "designspark");
    assert_eq!(ECAD::Eagle.to_display_string(), "eagle");
    assert_eq!(ECAD::EasyEDA.to_display_string(), "easyeda");
    assert_eq!(ECAD::KiCad.to_display_string(), "kicad");
    assert_eq!(ECAD::Zip.to_display_string(), "zip");
}

#[test]
fn error_descriptions_name_the_failure() {
    assert_eq!(Error::EcadNotFound.describe(), "unrecognized ecad label");
    assert_eq!(
        Error::UnsupportedOperation(ECAD::Zip).describe(),
        "operation not supported for this ecad"
    );
    assert_eq!(
        Error::ArchiveRead.describe(),
        "archive entry could not be read"
    );
}

#[test]
fn parse_rejects_anything_outside_the_six_labels() {
    assert_eq!(ECAD::parse("altium").unwrap_err(), Error::EcadNotFound);
    assert_eq!(ECAD::parse("").unwrap_err(), Error::EcadNotFound);
    assert_eq!(ECAD::parse("eagle ").unwrap_err(), Error::EcadNotFound);
    assert_eq!(ECAD::parse("eagle2").unwrap_err(), Error::EcadNotFound);
    assert_eq!(ECAD::parse("ki cad").unwrap_err(), Error::EcadNotFound);
}
