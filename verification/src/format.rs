//! The `Format` configuration record and the extraction step: per-ECAD
//! path matching and ignore rules, and the selection of relevant
//! archive entries.

use vstd::prelude::*;

use crate::archive::{all_entries_readable, archive_entries, archive_len, entry_readable, read_entry};
use crate::ecad::ECAD;
use crate::error::Error;
use crate::files::Files;
use crate::processors::{d3_process, eagle_process, easyeda_process, kicad_process};
use crate::processors::{kicad_keys_grouped, kicad_shape, spec_d3_key, spec_kicad_step};
use crate::processors::{spec_dcm_key, spec_lib_key, spec_pretty_prefix};
use crate::strutil::{basename_of, spec_basename, str_eq, str_starts_with};

verus! {

/// One expected top-level output artifact of a format.
#[derive(Debug, Clone, PartialEq)]
pub enum Output {
    File(&'static str),
    Folder(&'static str),
}

/// Immutable configuration of one extraction-and-processing job.
#[derive(Debug, Clone, PartialEq)]
pub struct Format {
    pub output_path: String,
    pub name: String,
    pub ecad: ECAD,
    pub create_folder: bool,
    pub match_path: Vec<&'static str>,
    pub output: Vec<Output>,
    pub ignore: Vec<&'static str>,
}

/// The path prefixes that select relevant entries, per ECAD variant.
pub open spec fn spec_match_paths(e: ECAD) -> Seq<Seq<char>> {
    match e {
        ECAD::D3 => seq!["3D"@],
        ECAD::DesignSpark => seq!["DesignSpark PCB"@],
        ECAD::Eagle => seq!["EAGLE"@],
        ECAD::EasyEDA => seq!["EasyEDA"@],
        ECAD::KiCad => seq!["KiCad"@],
        ECAD::Zip => seq![""@],
    }
}

/// The filenames dropped even when prefix-matched, per ECAD variant.
pub open spec fn spec_ignores(e: ECAD) -> Seq<Seq<char>> {
    match e {
        ECAD::Eagle => seq!["Readme.html"@],
        ECAD::EasyEDA => seq!["Readme.html"@],
        _ => Seq::empty(),
    }
}

/// The fixed output artifacts, per ECAD variant.
pub open spec fn spec_outputs(e: ECAD) -> Seq<Output> {
    match e {
        ECAD::KiCad => seq![
            Output::File("LibraryLoader.lib"),
            Output::File("LibraryLoader.dcm"),
            Output::Folder("LibraryLoader.pretty"),
        ],
        _ => Seq::empty(),
    }
}

/// The three artifact names the KiCad policy row declares are exactly
/// the output keys the KiCad processor writes under: the two merged
/// files, and the folder every footprint key is nested in.
pub proof fn lemma_kicad_outputs_match_artifact_groups()
    ensures
        spec_outputs(ECAD::KiCad).len() == 3,
        spec_outputs(ECAD::KiCad)[0] matches Output::File(n) && n@ == spec_lib_key(),
        spec_outputs(ECAD::KiCad)[1] matches Output::File(n) && n@ == spec_dcm_key(),
        spec_outputs(ECAD::KiCad)[2] matches Output::Folder(n) && n@ + "/"@ == spec_pretty_prefix(),
{
    reveal_strlit("LibraryLoader.pretty");
    reveal_strlit("LibraryLoader.pretty/");
    reveal_strlit("/");
    assert("LibraryLoader.pretty"@ + "/"@ =~= "LibraryLoader.pretty/"@);
}

/// Does some configured prefix start `name`?
pub open spec fn spec_matches_prefix(fmt: Format, name: Seq<char>) -> bool {
    exists|i: int|
        0 <= i < fmt.match_path.deep_view().len() && (
        #[trigger] fmt.match_path.deep_view()[i]).is_prefix_of(name)
}

/// Is `name`'s base filename on the ignore list?
pub open spec fn spec_ignored(fmt: Format, name: Seq<char>) -> bool {
    exists|i: int|
        0 <= i < fmt.ignore.deep_view().len() && spec_basename(name)
            == #[trigger] fmt.ignore.deep_view()[i]
}

/// An archive entry is relevant to a format exactly when its path
/// starts with one of the format's prefixes and its base filename is
/// not ignored.
pub open spec fn spec_relevant(fmt: Format, name: Seq<char>) -> bool {
    spec_matches_prefix(fmt, name) && !spec_ignored(fmt, name)
}

/// The mapping extraction builds from an entry sequence: exactly the
/// relevant entries, keyed by their full path, a later duplicate
/// winning.
pub open spec fn spec_extraction(entries: Seq<(Seq<char>, Seq<u8>)>, fmt: Format) -> Map<
    Seq<char>,
    Seq<u8>,
>
    decreases entries.len(),
{
    if entries.len() == 0 {
        Map::empty()
    } else if spec_relevant(fmt, entries.last().0) {
        spec_extraction(entries.drop_last(), fmt).insert(entries.last().0, entries.last().1)
    } else {
        spec_extraction(entries.drop_last(), fmt)
    }
}

/// A key stands in the extraction result exactly when it is relevant
/// and some entry carries it.
pub proof fn lemma_extraction_dom(entries: Seq<(Seq<char>, Seq<u8>)>, fmt: Format)
    ensures
        forall|k: Seq<char>|
            #![trigger spec_extraction(entries, fmt).contains_key(k)]
            spec_extraction(entries, fmt).contains_key(k) <==> (spec_relevant(fmt, k) && exists|
                i: int,
            |
                0 <= i < entries.len() && entries[i].0 == k),
    decreases entries.len(),
{
    if entries.len() > 0 {
        lemma_extraction_dom(entries.drop_last(), fmt);
        assert forall|k: Seq<char>| spec_extraction(entries, fmt).contains_key(k) implies (
        spec_relevant(fmt, k) && exists|i: int| 0 <= i < entries.len() && entries[i].0 == k) by {
            if spec_relevant(fmt, entries.last().0) && k == entries.last().0 {
                assert(entries[entries.len() - 1].0 == k);
            } else {
                assert(spec_extraction(entries.drop_last(), fmt).contains_key(k));
                let i = choose|i: int|
                    0 <= i < entries.drop_last().len() && entries.drop_last()[i].0 == k;
                assert(entries.drop_last()[i] == entries[i]);
                assert(entries[i].0 == k);
            }
        }
        assert forall|k: Seq<char>|
            (spec_relevant(fmt, k) && exists|i: int|
                0 <= i < entries.len() && entries[i].0 == k) implies spec_extraction(
            entries,
            fmt,
        ).contains_key(k) by {
            let i = choose|i: int| 0 <= i < entries.len() && entries[i].0 == k;
            if i < entries.len() - 1 {
                assert(entries.drop_last()[i].0 == k);
                assert(spec_extraction(entries.drop_last(), fmt).contains_key(k));
            }
        }
    }
}

/// The set of selected entries does not depend on the order the
/// archive lists them in: entry sequences holding the same entries
/// yield the same key set.
pub proof fn lemma_extraction_set_order_independent(
    e1: Seq<(Seq<char>, Seq<u8>)>,
    e2: Seq<(Seq<char>, Seq<u8>)>,
    fmt: Format,
)
    requires
        e1.to_set() == e2.to_set(),
    ensures
        spec_extraction(e1, fmt).dom() == spec_extraction(e2, fmt).dom(),
{
    lemma_extraction_dom(e1, fmt);
    lemma_extraction_dom(e2, fmt);
    assert forall|k: Seq<char>|
        spec_extraction(e1, fmt).contains_key(k) implies spec_extraction(e2, fmt).contains_key(
        k,
    ) by {
        assert(spec_relevant(fmt, k) && exists|i: int| 0 <= i < e1.len() && e1[i].0 == k);
        let i = choose|i: int| 0 <= i < e1.len() && e1[i].0 == k;
        let p = e1[i];
        assert(e1.contains(p));
        assert(e2.to_set().contains(p));
        assert(e2.contains(p));
        let j = choose|j: int| 0 <= j < e2.len() && e2[j] == p;
        assert(e2[j].0 == k);
    }
    assert forall|k: Seq<char>|
        spec_extraction(e2, fmt).contains_key(k) implies spec_extraction(e1, fmt).contains_key(
        k,
    ) by {
        assert(spec_relevant(fmt, k) && exists|i: int| 0 <= i < e2.len() && e2[i].0 == k);
        let i = choose|i: int| 0 <= i < e2.len() && e2[i].0 == k;
        let p = e2[i];
        assert(e2.contains(p));
        assert(e1.to_set().contains(p));
        assert(e1.contains(p));
        let j = choose|j: int| 0 <= j < e1.len() && e1[j] == p;
        assert(e1[j].0 == k);
    }
    assert(spec_extraction(e1, fmt).dom() =~= spec_extraction(e2, fmt).dom());
}

/// For the formats that ignore a bundled `Readme.html`, no entry whose
/// base filename is exactly that name is ever extracted, whatever the
/// rest of its path looks like.
pub proof fn lemma_ignored_name_never_extracted(
    entries: Seq<(Seq<char>, Seq<u8>)>,
    fmt: Format,
    k: Seq<char>,
)
    requires
        fmt.ecad is Eagle || fmt.ecad is EasyEDA,
        fmt.ignore.deep_view() == spec_ignores(fmt.ecad),
        spec_basename(k) == "Readme.html"@,
    ensures
        !spec_extraction(entries, fmt).contains_key(k),
{
    lemma_extraction_dom(entries, fmt);
    assert(fmt.ignore.deep_view()[0] == "Readme.html"@);
    assert(spec_ignored(fmt, k));
    if spec_extraction(entries, fmt).contains_key(k) {
        assert(spec_relevant(fmt, k));
        assert(false);
    }
}

/// Is `name` relevant to `fmt`?
fn is_relevant(fmt: &Format, name: &str) -> (r: bool)
    ensures
        r == spec_relevant(*fmt, name@),
{
    let mut matched = false;
    let n = fmt.match_path.len();
    let mut i: usize = 0;
    while i < n
        invariant
            i <= n,
            n == fmt.match_path@.len(),
            matched == exists|j: int|
                0 <= j < i && (#[trigger] fmt.match_path.deep_view()[j]).is_prefix_of(name@),
        decreases n - i,
    {
        if str_starts_with(name, fmt.match_path[i]) {
            proof {
                assert(fmt.match_path.deep_view()[i as int].is_prefix_of(name@));
            }
            matched = true;
        }
        i += 1;
    }
    if !matched {
        return false;
    }
    let bn = basename_of(name);
    let m = fmt.ignore.len();
    let mut j: usize = 0;
    while j < m
        invariant
            j <= m,
            m == fmt.ignore@.len(),
            bn@ == spec_basename(name@),
            forall|l: int| 0 <= l < j ==> spec_basename(name@) != #[trigger] fmt.ignore.deep_view()[l],
        decreases m - j,
    {
        if str_eq(bn.as_str(), fmt.ignore[j]) {
            proof {
                assert(spec_basename(name@) == fmt.ignore.deep_view()[j as int]);
            }
            return false;
        }
        j += 1;
    }
    true
}

/// Walks every archive entry and keeps the relevant ones under their
/// full paths.
fn generic_extractor(fmt: &Format, archive: &mut zip::ZipArchive<std::io::Cursor<Vec<u8>>>) -> (r:
    Result<Files, Error>)
    ensures
        archive_entries(*final(archive)) == archive_entries(*old(archive)),
        r is Ok <==> all_entries_readable(*old(archive)),
        r matches Ok(files) ==> files@ == spec_extraction(archive_entries(*old(archive)), *fmt),
        r matches Err(e) ==> e == Error::ArchiveRead,
{
    let ghost entries = archive_entries(*archive);
    let n = archive_len(archive);
    let mut files = Files::new();
    let mut i: usize = 0;
    while i < n
        invariant
            i <= n,
            n == entries.len(),
            archive_entries(*archive) == entries,
            entries == archive_entries(*old(archive)),
            forall|j: int| #[trigger] entry_readable(*archive, j) == entry_readable(
                *old(archive),
                j,
            ),
            forall|j: int| 0 <= j < i ==> #[trigger] entry_readable(*old(archive), j),
            files@ == spec_extraction(entries.take(i as int), *fmt),
        decreases n - i,
    {
        let e = match read_entry(archive, i) {
            Ok(e) => e,
            Err(err) => {
                proof {
                    assert(!entry_readable(*old(archive), i as int));
                }
                return Err(err);
            },
        };
        let (name, bytes) = e;
        proof {
            assert(entries.take(i as int + 1).drop_last() =~= entries.take(i as int));
            assert(entries.take(i as int + 1).last() == entries[i as int]);
        }
        if is_relevant(fmt, name.as_str()) {
            files.insert(name, bytes);
        }
        i += 1;
    }
    proof {
        assert(entries.take(n as int) =~= entries);
    }
    Ok(files)
}

/// KiCad archives bundle several independently named library
/// fragments; keeping every relevant entry under its full path
/// preserves the fragment identity the processor groups by.
fn kicad_extractor(fmt: &Format, archive: &mut zip::ZipArchive<std::io::Cursor<Vec<u8>>>) -> (r:
    Result<Files, Error>)
    ensures
        archive_entries(*final(archive)) == archive_entries(*old(archive)),
        r is Ok <==> all_entries_readable(*old(archive)),
        r matches Ok(files) ==> files@ == spec_extraction(archive_entries(*old(archive)), *fmt),
        r matches Err(e) ==> e == Error::ArchiveRead,
{
    generic_extractor(fmt, archive)
}

impl Format {
    /// Builds the configuration for one ECAD identifier; every policy
    /// field comes from the fixed per-variant table.
    pub fn from_ecad(name: &String, ecad: ECAD, output_path: String) -> (f: Format)
        ensures
            f.output_path@ == output_path@,
            f.name@ == name@,
            f.ecad == ecad,
            f.create_folder == (ecad is D3),
            f.match_path.deep_view() == spec_match_paths(ecad),
            f.ignore.deep_view() == spec_ignores(ecad),
            f.output@ == spec_outputs(ecad),
    {
        let mut fmt = Format {
            output_path,
            name: (*name).clone(),
            ecad,
            create_folder: false,
            match_path: vec![""],
            output: Vec::new(),
            ignore: Vec::new(),
        };

        match fmt.ecad {
            ECAD::D3 => {
                fmt.create_folder = true;
                fmt.match_path = vec!["3D"];
            },
            ECAD::DesignSpark => {
                fmt.match_path = vec!["DesignSpark PCB"];
            },
            ECAD::Eagle => {
                fmt.match_path = vec!["EAGLE"];
                fmt.ignore = vec!["Readme.html"];
            },
            ECAD::EasyEDA => {
                fmt.match_path = vec!["EasyEDA"];
                fmt.ignore = vec!["Readme.html"];
            },
            ECAD::KiCad => {
                fmt.match_path = vec!["KiCad"];
                fmt.output = vec![
                    Output::File("LibraryLoader.lib"),
                    Output::File("LibraryLoader.dcm"),
                    Output::Folder("LibraryLoader.pretty"),
                ];
            },
            ECAD::Zip => {
                // the default empty prefix stays
            },
        }
        proof {
            assert(fmt.match_path.deep_view() =~= spec_match_paths(ecad));
            assert(fmt.ignore.deep_view() =~= spec_ignores(ecad));
            assert(fmt.output@ =~= spec_outputs(ecad));
        }
        fmt
    }

    /// Selects the archive entries relevant to this format.  Every
    /// variant is named here on purpose: a new variant without an
    /// extraction policy must fail to compile, not fall through.
    pub fn extract(&self, archive: &mut zip::ZipArchive<std::io::Cursor<Vec<u8>>>) -> (r: Result<
        Files,
        Error,
    >)
        ensures
            archive_entries(*final(archive)) == archive_entries(*old(archive)),
            self.ecad is Zip ==> r == Err::<Files, Error>(Error::UnsupportedOperation(ECAD::Zip)),
            !(self.ecad is Zip) ==> (r is Ok <==> all_entries_readable(*old(archive))),
            r matches Ok(files) ==> !(self.ecad is Zip) && files@ == spec_extraction(
                archive_entries(*old(archive)),
                *self,
            ),
            r matches Err(e) ==> (self.ecad is Zip && e == Error::UnsupportedOperation(ECAD::Zip)) || (!(
            self.ecad is Zip) && e == Error::ArchiveRead),
    {
        match self.ecad {
            ECAD::D3 | ECAD::DesignSpark | ECAD::Eagle | ECAD::EasyEDA => generic_extractor(
                self,
                archive,
            ),
            ECAD::KiCad => kicad_extractor(self, archive),
            ECAD::Zip => Err(Error::UnsupportedOperation(ECAD::Zip)),
        }
    }

    /// Folds one extracted entry into the output mapping, under the
    /// processor the ECAD identifier selects.  As with extraction,
    /// every variant is named explicitly.
    pub fn process(
        &self,
        output_path: String,
        output_files: &mut Files,
        file_path: String,
        item: &mut Vec<u8>,
    ) -> (r: Result<(), Error>)
        ensures
            final(item)@ == old(item)@,
            self.ecad is Zip ==> r == Err::<(), Error>(Error::UnsupportedOperation(ECAD::Zip))
                && final(output_files)@ == old(output_files)@,
            !(self.ecad is Zip) ==> r is Ok,
            self.ecad is D3 ==> final(output_files)@ == old(output_files)@.insert(
                spec_d3_key(self.name@, file_path@),
                old(item)@,
            ),
            (self.ecad is DesignSpark || self.ecad is Eagle || self.ecad is EasyEDA)
                ==> final(output_files)@ == old(output_files)@.insert(file_path@, old(item)@),
            self.ecad is KiCad ==> final(output_files)@ == spec_kicad_step(
                old(output_files)@,
                file_path@,
                old(item)@,
            ),
            self.ecad is KiCad && kicad_keys_grouped(old(output_files)@)
                ==> kicad_shape(final(output_files)@),
    {
        match self.ecad {
            ECAD::D3 => d3_process(self, output_path, output_files, file_path, item),
            ECAD::DesignSpark => eagle_process(self, output_path, output_files, file_path, item),
            ECAD::Eagle => eagle_process(self, output_path, output_files, file_path, item),
            ECAD::EasyEDA => easyeda_process(self, output_path, output_files, file_path, item),
            ECAD::KiCad => kicad_process(self, output_path, output_files, file_path, item),
            ECAD::Zip => Err(Error::UnsupportedOperation(ECAD::Zip)),
        }
    }
}

} // verus!
