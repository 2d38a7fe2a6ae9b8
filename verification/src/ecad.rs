//! The closed set of supported ECAD source formats, with a
//! case-insensitive parser and a canonical lowercase label for each
//! variant.

use vstd::prelude::*;

use crate::error::Error;
use crate::strutil::{eq_lowercase, spec_lower};

verus! {

/// A supported ECAD vendor format.
#[derive(Debug, Clone, Copy, PartialEq, Eq, Structural)]
pub enum ECAD {
    D3,
    DesignSpark,
    Eagle,
    EasyEDA,
    KiCad,
    Zip,
}

/// The fixed lowercase label of each variant; parsing and formatting
/// both go through this single table.
pub open spec fn spec_label(e: ECAD) -> Seq<char> {
    match e {
        ECAD::D3 => "3d"@,
        ECAD::DesignSpark => "designspark"@,
        ECAD::Eagle => "eagle"@,
        ECAD::EasyEDA => "easyeda"@,
        ECAD::KiCad => "kicad"@,
        ECAD::Zip => "zip"@,
    }
}

impl ECAD {
    /// The canonical label of this variant, always lowercase.
    pub fn label(&self) -> (r: &'static str)
        ensures
            r@ == spec_label(*self),
    {
        match self {
            ECAD::D3 => "3d",
            ECAD::DesignSpark => "designspark",
            ECAD::Eagle => "eagle",
            ECAD::EasyEDA => "easyeda",
            ECAD::KiCad => "kicad",
            ECAD::Zip => "zip",
        }
    }

    /// The canonical label as an owned string.
    pub fn to_display_string(&self) -> (r: String)
        ensures
            r@ == spec_label(*self),
    {
        self.label().to_owned()
    }

    /// Case-insensitive parsing: succeeds exactly when lowercasing the
    /// input gives one of the six fixed labels, and then returns the
    /// variant carrying that label.
    pub fn parse(s: &str) -> (r: Result<ECAD, Error>)
        ensures
            r matches Ok(e) ==> spec_label(e) == spec_lower(s@),
            r matches Err(err) ==> {
                &&& err == Error::EcadNotFound
                &&& forall|e: ECAD| spec_label(e) != spec_lower(s@)
            },
    {
        proof {
            reveal_strlit("3d");
            reveal_strlit("designspark");
            reveal_strlit("eagle");
            reveal_strlit("easyeda");
            reveal_strlit("kicad");
            reveal_strlit("zip");
            assert(spec_lower("3d"@) =~= "3d"@);
            assert(spec_lower("designspark"@) =~= "designspark"@);
            assert(spec_lower("eagle"@) =~= "eagle"@);
            assert(spec_lower("easyeda"@) =~= "easyeda"@);
            assert(spec_lower("kicad"@) =~= "kicad"@);
            assert(spec_lower("zip"@) =~= "zip"@);
        }
        if eq_lowercase(s, "3d") {
            Ok(ECAD::D3)
        } else if eq_lowercase(s, "designspark") {
            Ok(ECAD::DesignSpark)
        } else if eq_lowercase(s, "eagle") {
            Ok(ECAD::Eagle)
        } else if eq_lowercase(s, "easyeda") {
            Ok(ECAD::EasyEDA)
        } else if eq_lowercase(s, "kicad") {
            Ok(ECAD::KiCad)
        } else if eq_lowercase(s, "zip") {
            Ok(ECAD::Zip)
        } else {
            Err(Error::EcadNotFound)
        }
    }
}

/// Every label is a fixed point of ASCII lowercasing; together with
/// `parse`'s contract this gives the round trip
/// `label(parse(s)) == lower(s)` for every accepted input `s`.
pub proof fn lemma_labels_lowercase()
    ensures
        forall|e: ECAD| #[trigger] spec_lower(spec_label(e)) == spec_label(e),
{
    reveal_strlit("3d");
    reveal_strlit("designspark");
    reveal_strlit("eagle");
    reveal_strlit("easyeda");
    reveal_strlit("kicad");
    reveal_strlit("zip");
    assert forall|e: ECAD| #[trigger] spec_lower(spec_label(e)) == spec_label(e) by {
        assert(spec_lower(spec_label(e)) =~= spec_label(e));
    }
}

/// No two variants share a label, so the variant returned by a
/// successful parse is uniquely determined by the input.
pub proof fn lemma_labels_injective(a: ECAD, b: ECAD)
    requires
        spec_label(a) == spec_label(b),
    ensures
        a == b,
{
    reveal_strlit("3d");
    reveal_strlit("designspark");
    reveal_strlit("eagle");
    reveal_strlit("easyeda");
    reveal_strlit("kicad");
    reveal_strlit("zip");
    if a != b {
        // the length and the first character together distinguish
        // every pair of labels
        assert("3d"@.len() == 2);
        assert("designspark"@.len() == 11);
        assert("eagle"@.len() == 5);
        assert("easyeda"@.len() == 7);
        assert("kicad"@.len() == 5);
        assert("zip"@.len() == 3);
        assert("eagle"@[0] == 'e');
        assert("kicad"@[0] == 'k');
        assert(spec_label(a).len() == spec_label(b).len());
        assert(spec_label(a)[0] == spec_label(b)[0]);
        assert(false);
    }
}

} // verus!
