//! The processing step: per-format placement of extracted bytes into
//! the output mapping.

use vstd::prelude::*;
use vstd::string::StringExecFns;

use crate::error::Error;
use crate::files::Files;
use crate::format::Format;
use crate::strutil::{basename_of, spec_basename, str_ends_with};

verus! {

/// The output key of the single merged KiCad library file.
pub open spec fn spec_lib_key() -> Seq<char> {
    "LibraryLoader.lib"@
}

/// The output key of the single merged KiCad document file.
pub open spec fn spec_dcm_key() -> Seq<char> {
    "LibraryLoader.dcm"@
}

/// The folder marker every KiCad footprint entry lives under.
pub open spec fn spec_pretty_prefix() -> Seq<char> {
    "LibraryLoader.pretty/"@
}

/// The output key the d3 processor uses: the library name as a
/// folder, then the entry's own path.
pub open spec fn spec_d3_key(name: Seq<char>, path: Seq<char>) -> Seq<char> {
    name + "/"@ + path
}

/// Does `k` carry a folder marker somewhere?
pub open spec fn spec_nested(k: Seq<char>) -> bool {
    exists|i: int| 0 <= i < k.len() && k[i] == '/'
}

/// Every key of `m` belongs to one of the three KiCad artifact
/// groups: the library file, the document file, or the footprint
/// folder namespace.
pub open spec fn kicad_keys_grouped(m: Map<Seq<char>, Seq<u8>>) -> bool {
    forall|k: Seq<char>|
        m.contains_key(k) ==> k == spec_lib_key() || k == spec_dcm_key()
            || spec_pretty_prefix().is_prefix_of(k)
}

/// The key set a finished KiCad job must show: both single-file
/// artifacts present, and nothing outside the three groups.
pub open spec fn kicad_shape(m: Map<Seq<char>, Seq<u8>>) -> bool {
    m.contains_key(spec_lib_key()) && m.contains_key(spec_dcm_key()) && kicad_keys_grouped(m)
}

/// What one KiCad processing call does to the output mapping: both
/// single-file artifacts are created if missing, then the fragment is
/// folded into the group its extension selects, appending for the
/// merged files and keying footprints by base filename.
pub open spec fn spec_kicad_step(
    m: Map<Seq<char>, Seq<u8>>,
    path: Seq<char>,
    bytes: Seq<u8>,
) -> Map<Seq<char>, Seq<u8>> {
    let m1 = if m.contains_key(spec_lib_key()) {
        m
    } else {
        m.insert(spec_lib_key(), Seq::empty())
    };
    let m2 = if m1.contains_key(spec_dcm_key()) {
        m1
    } else {
        m1.insert(spec_dcm_key(), Seq::empty())
    };
    if ".lib"@.is_suffix_of(path) {
        m2.insert(spec_lib_key(), m2[spec_lib_key()] + bytes)
    } else if ".dcm"@.is_suffix_of(path) {
        m2.insert(spec_dcm_key(), m2[spec_dcm_key()] + bytes)
    } else {
        m2.insert(spec_pretty_prefix() + spec_basename(path), bytes)
    }
}

/// Folding a whole fragment sequence, first fragment first.
pub open spec fn spec_kicad_run(
    m0: Map<Seq<char>, Seq<u8>>,
    frags: Seq<(Seq<char>, Seq<u8>)>,
) -> Map<Seq<char>, Seq<u8>>
    decreases frags.len(),
{
    if frags.len() == 0 {
        m0
    } else {
        spec_kicad_step(
            spec_kicad_run(m0, frags.drop_last()),
            frags.last().0,
            frags.last().1,
        )
    }
}

/// One KiCad step keeps every key in the three artifact groups, and
/// leaves both single-file artifacts present.
pub proof fn lemma_kicad_step_shape(m: Map<Seq<char>, Seq<u8>>, path: Seq<char>, bytes: Seq<u8>)
    requires
        kicad_keys_grouped(m),
    ensures
        kicad_shape(spec_kicad_step(m, path, bytes)),
{
    reveal_strlit("LibraryLoader.pretty/");
    let out = spec_kicad_step(m, path, bytes);
    if !(".lib"@.is_suffix_of(path)) && !(".dcm"@.is_suffix_of(path)) {
        assert(spec_pretty_prefix().is_prefix_of(spec_pretty_prefix() + spec_basename(path))) by {
            assert((spec_pretty_prefix() + spec_basename(path)).subrange(
                0,
                spec_pretty_prefix().len() as int,
            ) =~= spec_pretty_prefix());
        }
    }
}

/// Processing any fragment sequence of length one or more, starting
/// from an empty output mapping, ends with the key set a KiCad job
/// owes: exactly the two single-file artifacts plus entries under the
/// footprint folder.
pub proof fn lemma_kicad_artifact_groups(frags: Seq<(Seq<char>, Seq<u8>)>)
    requires
        frags.len() >= 1,
    ensures
        kicad_shape(spec_kicad_run(Map::empty(), frags)),
    decreases frags.len(),
{
    if frags.len() == 1 {
        assert(spec_kicad_run(Map::empty(), frags.drop_last()) == Map::<Seq<char>, Seq<u8>>::empty());
        lemma_kicad_step_shape(Map::empty(), frags.last().0, frags.last().1);
    } else {
        lemma_kicad_artifact_groups(frags.drop_last());
        lemma_kicad_step_shape(
            spec_kicad_run(Map::empty(), frags.drop_last()),
            frags.last().0,
            frags.last().1,
        );
    }
}

/// The d3 processor only ever adds keys nested under a folder
/// marker: when every key of the mapping is nested, that stays true
/// after one d3 step.
pub proof fn lemma_d3_keys_nested(
    m: Map<Seq<char>, Seq<u8>>,
    name: Seq<char>,
    path: Seq<char>,
    bytes: Seq<u8>,
)
    requires
        forall|k: Seq<char>| m.contains_key(k) ==> spec_nested(k),
    ensures
        forall|k: Seq<char>|
            m.insert(spec_d3_key(name, path), bytes).contains_key(k) ==> spec_nested(k),
{
    reveal_strlit("/");
    assert("/"@.len() == 1);
    assert(spec_d3_key(name, path)[name.len() as int] == '/');
    assert(spec_nested(spec_d3_key(name, path)));
}

/// A fresh copy of a byte vector.
fn clone_bytes(v: &Vec<u8>) -> (r: Vec<u8>)
    ensures
        r@ == v@,
{
    let r = v.clone();
    proof {
        assert forall|i: int| 0 <= i < v@.len() implies r@[i] == v@[i] by {
            assert(cloned::<u8>(v@[i], r@[i]));
        }
        assert(r@ =~= v@);
    }
    r
}

/// Appends `src`'s bytes to `dst`.
fn push_all(dst: &mut Vec<u8>, src: &Vec<u8>)
    ensures
        final(dst)@ == old(dst)@ + src@,
{
    let n = src.len();
    let mut i: usize = 0;
    while i < n
        invariant
            i <= n,
            n == src@.len(),
            dst@ == old(dst)@ + src@.take(i as int),
        decreases n - i,
    {
        dst.push(src[i]);
        proof {
            assert(old(dst)@ + src@.take(i as int + 1) =~= (old(dst)@ + src@.take(i as int)).push(
                src@[i as int],
            ));
        }
        i += 1;
    }
    proof {
        assert(src@.take(n as int) =~= src@);
    }
}

/// The pass-through building block: stores the bytes under the given
/// path, a later write at the same path winning.
pub fn generic_processor(
    format: &Format,
    output_path: String,
    output_files: &mut Files,
    file_path: String,
    item: &mut Vec<u8>,
) -> (r: Result<(), Error>)
    ensures
        r is Ok,
        final(item)@ == old(item)@,
        final(output_files)@ == old(output_files)@.insert(file_path@, old(item)@),
{
    let bytes = clone_bytes(item);
    output_files.insert(file_path, bytes);
    Ok(())
}

/// The d3 processor: nests every entry under a folder named after the
/// library, reflecting `create_folder`.
pub fn d3_process(
    format: &Format,
    output_path: String,
    output_files: &mut Files,
    file_path: String,
    item: &mut Vec<u8>,
) -> (r: Result<(), Error>)
    ensures
        r is Ok,
        final(item)@ == old(item)@,
        final(output_files)@ == old(output_files)@.insert(
            spec_d3_key(format.name@, file_path@),
            old(item)@,
        ),
{
    let mut key = format.name.clone();
    key.append("/");
    key.append(file_path.as_str());
    let bytes = clone_bytes(item);
    output_files.insert(key, bytes);
    Ok(())
}

/// The processor Eagle and DesignSpark share: plain pass-through, no
/// nesting added.
pub fn eagle_process(
    format: &Format,
    output_path: String,
    output_files: &mut Files,
    file_path: String,
    item: &mut Vec<u8>,
) -> (r: Result<(), Error>)
    ensures
        r is Ok,
        final(item)@ == old(item)@,
        final(output_files)@ == old(output_files)@.insert(file_path@, old(item)@),
{
    generic_processor(format, output_path, output_files, file_path, item)
}

/// The EasyEDA processor: plain pass-through, no nesting added.
pub fn easyeda_process(
    format: &Format,
    output_path: String,
    output_files: &mut Files,
    file_path: String,
    item: &mut Vec<u8>,
) -> (r: Result<(), Error>)
    ensures
        r is Ok,
        final(item)@ == old(item)@,
        final(output_files)@ == old(output_files)@.insert(file_path@, old(item)@),
{
    generic_processor(format, output_path, output_files, file_path, item)
}

/// The KiCad processor: accumulates fragments across repeated calls,
/// merging library and document fragments into the two single-file
/// artifacts and keying footprint fragments under the footprint
/// folder.
pub fn kicad_process(
    format: &Format,
    output_path: String,
    output_files: &mut Files,
    file_path: String,
    item: &mut Vec<u8>,
) -> (r: Result<(), Error>)
    ensures
        r is Ok,
        final(item)@ == old(item)@,
        final(output_files)@ == spec_kicad_step(old(output_files)@, file_path@, old(item)@),
        kicad_keys_grouped(old(output_files)@) ==> kicad_shape(final(output_files)@),
{
    if !output_files.contains_key("LibraryLoader.lib") {
        output_files.insert("LibraryLoader.lib".to_owned(), Vec::new());
    }
    if !output_files.contains_key("LibraryLoader.dcm") {
        output_files.insert("LibraryLoader.dcm".to_owned(), Vec::new());
    }
    if str_ends_with(file_path.as_str(), ".lib") {
        let mut merged = clone_bytes(output_files.get("LibraryLoader.lib").unwrap());
        push_all(&mut merged, item);
        output_files.insert("LibraryLoader.lib".to_owned(), merged);
    } else if str_ends_with(file_path.as_str(), ".dcm") {
        let mut merged = clone_bytes(output_files.get("LibraryLoader.dcm").unwrap());
        push_all(&mut merged, item);
        output_files.insert("LibraryLoader.dcm".to_owned(), merged);
    } else {
        let mut key = "LibraryLoader.pretty/".to_owned();
        let bn = basename_of(file_path.as_str());
        key.append(bn.as_str());
        let bytes = clone_bytes(item);
        output_files.insert(key, bytes);
    }
    proof {
        if kicad_keys_grouped(old(output_files)@) {
            lemma_kicad_step_shape(old(output_files)@, file_path@, old(item)@);
        }
    }
    Ok(())
}

} // verus!
