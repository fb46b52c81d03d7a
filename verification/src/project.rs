//! A composition together with where it came from: sample paths resolved
//! against the `.bm1` file's folder, and the paths as written kept beside.

use vstd::prelude::*;
use vstd::string::*;

use std::path::Path;

use crate::composition::{defaults_applied, parse_composition, FormatError};
use crate::model::{Composition, KeyValue, Sample};
use crate::validate::{sample_defaults_spec, validate_spec, ValidationFault};

verus! {

/// Whether the path written `path` is absolute (`Path::is_absolute`).
pub uninterp spec fn path_absolute(path: Seq<char>) -> bool;

/// The path `file` taken relative to `base` (`Path::join`, written back
/// with `to_string_lossy`).
pub uninterp spec fn path_joined(base: Seq<char>, file: Seq<char>) -> Seq<char>;

/// The last component of the path `path` (`Path::file_name`, written back
/// with `to_string_lossy`).
pub uninterp spec fn path_last_component(path: Seq<char>) -> Option<Seq<char>>;

/// Whether `path` is absolute (`Path::is_absolute`: on Unix, starting at
/// the root; on Windows, with a prefix and a root). Claimed: the answer is
/// a function of the text of `path` alone, named `path_absolute`; what that
/// function is, `std`'s rules for the target say, and nothing more is
/// stated of it.
#[verifier::external_body]
fn path_is_absolute(path: &str) -> (r: bool)
    ensures
        r == path_absolute(path@),
{
    Path::new(path).is_absolute()
}

/// `base` joined with `file` (`Path::join`, written back with
/// `to_string_lossy`). Claimed: the result is a function of the two texts
/// alone, named `path_joined`; its separator and the handling of prefixes
/// follow `std`'s rules for the target and are not stated.
#[verifier::external_body]
fn path_join(base: &str, file: &str) -> (r: String)
    ensures
        r@ == path_joined(base@, file@),
{
    Path::new(base).join(file).to_string_lossy().into_owned()
}

/// The folder part of the path `path` (`Path::parent`, written back with
/// `to_string_lossy`).
pub uninterp spec fn path_folder(path: Seq<char>) -> Option<Seq<char>>;

/// The folder part of `path` (`Path::parent`), `None` for a root or an
/// empty path. Claimed: the result is a function of the text of `path`
/// alone, named `path_folder`; its form follows `std`'s rules for the
/// target and is not stated.
#[verifier::external_body]
fn path_parent(path: &str) -> (r: Option<String>)
    ensures
        match r {
            Some(d) => path_folder(path@) == Some(d@),
            None => path_folder(path@) is None,
        },
{
    Path::new(path).parent().map(|p| p.to_string_lossy().into_owned())
}

/// The last component of `path` (`Path::file_name`, written back with
/// `to_string_lossy`); `None` when the path ends in `..` or is a root.
/// Claimed: the result is a function of the text of `path` alone, named
/// `path_last_component`; what counts as a component follows `std`'s rules
/// for the target (its separators) and is not stated.
#[verifier::external_body]
fn path_file_name(path: &str) -> (r: Option<String>)
    ensures
        match r {
            Some(n) => path_last_component(path@) == Some(n@),
            None => path_last_component(path@) is None,
        },
{
    Path::new(path).file_name().map(|n| n.to_string_lossy().into_owned())
}

/// The file name of the path `path` without its extension
/// (`Path::file_stem`, written back with `to_string_lossy`).
pub uninterp spec fn path_stem(path: Seq<char>) -> Option<Seq<char>>;

/// The file name of `path` without its extension (`Path::file_stem`);
/// `None` when it has no file name. Claimed: the result is a function of
/// the text of `path` alone, named `path_stem`; what counts as the name and
/// the extension follows `std`'s rules for the target and is not stated.
#[verifier::external_body]
fn path_file_stem(path: &str) -> (r: Option<String>)
    ensures
        match r {
            Some(n) => path_stem(path@) == Some(n@),
            None => path_stem(path@) is None,
        },
{
    Path::new(path).file_stem().map(|n| n.to_string_lossy().into_owned())
}

/// The name an export of the composition at `path` starts with: its own
/// name with a `.wav` extension (`export.wav` when it has none).
pub fn export_file_name(path: &str) -> (r: String)
    ensures
        r@ == match path_stem(path@) {
            Some(n) => n,
            None => "export"@,
        } + ".wav"@,
{
    let mut out = match path_file_stem(path) {
        Some(n) => n,
        None => String::from_str("export"),
    };
    out.append(".wav");
    out
}

/// The name to show for a file: its last component `name`, else the whole
/// path.
pub fn name_or_path(path: &str, name: Option<String>) -> (r: String)
    ensures
        r@ == match name {
            Some(n) => n@,
            None => path@,
        },
{
    match name {
        Some(n) => n,
        None => String::from_str(path),
    }
}

/// The file name of `path`, for titles and the status bar (the whole path
/// when it has no last component).
pub fn file_name(path: &str) -> (r: String)
    ensures
        r@ == match path_last_component(path@) {
            Some(n) => n,
            None => path@,
        },
{
    let name = path_file_name(path);
    name_or_path(path, name)
}

/// The path a sample is read from: `file` itself when it is absolute,
/// else `joined` (the file taken relative to the composition's folder).
pub fn choose_sample_path(file: &str, absolute: bool, joined: String) -> (r: String)
    ensures
        r@ == if absolute {
            file@
        } else {
            joined@
        },
{
    if absolute {
        String::from_str(file)
    } else {
        joined
    }
}

/// Resolves a sample's path: absolute as it is, relative against
/// `base_dir` (the folder of the `.bm1`).
pub fn resolve_sample_path(base_dir: &str, file: &str) -> (r: String)
    ensures
        r@ == if path_absolute(file@) {
            file@
        } else {
            path_joined(base_dir@, file@)
        },
{
    let absolute = path_is_absolute(file);
    let joined = path_join(base_dir, file);
    choose_sample_path(file, absolute, joined)
}

/// A loaded, validated composition and where it came from.
#[derive(Debug, Clone)]
pub struct Project {
    /// Path of the `.bm1` file.
    pub path: String,
    /// The composition, every `sample.file` resolved to a usable path.
    pub composition: Composition,
    /// Each sample's `file` as written in the `.bm1`, by sample id, in the
    /// order of the samples.
    pub declared_files: Vec<KeyValue>,
}

#[derive(Debug)]
pub enum ProjectError {
    /// The file could not be read (the reader's message).
    Io { path: String, message: String },
    Format(FormatError),
}

/// The folder a composition read from `path` resolves its samples
/// against: the path's folder, else `.`.
pub open spec fn base_folder(path: Seq<char>) -> Seq<char> {
    match path_folder(path) {
        Some(d) => d,
        None => "."@,
    }
}

/// Where a sample written `file` in a composition read from `path` is
/// read from: `file` itself when it is absolute, else `file` taken
/// relative to the composition's folder.
pub open spec fn resolved_file(path: Seq<char>, file: Seq<char>) -> Seq<char> {
    if path_absolute(file) {
        file
    } else {
        path_joined(base_folder(path), file)
    }
}

/// `p` is `c` read from `path` with its sample files resolved: the same
/// composition but for the sample paths, each resolved against the file's
/// folder, and the paths as written kept by sample id.
pub open spec fn project_of(path: Seq<char>, c: Composition, p: Project) -> bool {
    &&& p.path@ == path
    &&& p.composition.metadata == c.metadata
    &&& p.composition.patterns == c.patterns
    &&& p.composition.arrangement == c.arrangement
    &&& p.composition.samples@.len() == c.samples@.len()
    &&& p.declared_files@.len() == c.samples@.len()
    &&& forall|i: int|
        0 <= i < c.samples@.len() ==> {
            &&& (#[trigger] p.composition.samples@[i]).id == c.samples@[i].id
            &&& p.composition.samples@[i].root_note == c.samples@[i].root_note
            &&& p.composition.samples@[i].root_octave == c.samples@[i].root_octave
            &&& p.composition.samples@[i].file@ == resolved_file(path, c.samples@[i].file@)
            &&& p.declared_files@[i].key == c.samples@[i].id
            &&& p.declared_files@[i].value == c.samples@[i].file
        }
}

impl Project {
    /// Builds the project of `composition`, read from `path`: records each
    /// sample's file as written, then resolves it against the folder of
    /// `path` (`.` when the path has none).
    pub fn from_composition(path: &str, composition: Composition) -> (p: Project)
        ensures
            project_of(path@, composition, p),
    {
        let mut composition = composition;
        let ghost given = composition;
        proof {
            reveal_strlit(".");
        }
        let base_dir = match path_parent(path) {
            Some(dir) => dir,
            None => String::from_str("."),
        };
        assert(base_dir@ == base_folder(path@));
        let n = composition.samples.len();
        let mut declared: Vec<KeyValue> = Vec::new();
        let mut i: usize = 0;
        while i < n
            invariant
                n == given.samples@.len(),
                base_dir@ == base_folder(path@),
                i <= n,
                composition.metadata == given.metadata,
                composition.patterns == given.patterns,
                composition.arrangement == given.arrangement,
                composition.samples@.len() == n,
                declared@.len() == i,
                forall|k: int|
                    0 <= k < i ==> {
                        &&& (#[trigger] composition.samples@[k]).id == given.samples@[k].id
                        &&& composition.samples@[k].root_note == given.samples@[k].root_note
                        &&& composition.samples@[k].root_octave == given.samples@[k].root_octave
                        &&& composition.samples@[k].file@ == resolved_file(path@, given.samples@[k].file@)
                        &&& declared@[k].key == given.samples@[k].id
                        &&& declared@[k].value == given.samples@[k].file
                    },
                forall|k: int| i <= k < n ==> #[trigger] composition.samples@[k] == given.samples@[k],
            decreases n - i,
        {
            let id = composition.samples[i].id.clone();
            let file = composition.samples[i].file.clone();
            let resolved = resolve_sample_path(base_dir.as_str(), file.as_str());
            declared.push(KeyValue { key: id, value: file });
            composition.samples[i].file = resolved;
            i = i + 1;
        }
        Project { path: String::from_str(path), composition, declared_files: declared }
    }
}

/// Loads a composition read from `path`, given the outcome of reading the
/// file and its JSON shape: applies the sample defaults, validates it, and
/// resolves its sample paths against the file's folder.
pub fn load(path: &str, shape: Result<Composition, ProjectError>) -> (r: Result<Project, ProjectError>)
    ensures
        match shape {
            Err(e) => r matches Err(e2) && e2 == e,
            Ok(c) => match sample_defaults_spec(c.metadata) {
                Err(f) => r matches Err(ProjectError::Format(FormatError::Validation(e))) && e@ == f,
                Ok((note, octave)) => match r {
                    Ok(p) => exists|out: Composition|
                        defaults_applied(c, out, note, octave) && validate_spec(out) is Ok
                            && project_of(path@, out, p),
                    Err(ProjectError::Format(FormatError::Validation(e))) => exists|out: Composition|
                        defaults_applied(c, out, note, octave) && validate_spec(out) == Err::<
                            (),
                            ValidationFault,
                        >(e@),
                    Err(_) => false,
                },
            },
        },
{
    let composition = match shape {
        Err(ProjectError::Io { path, message }) => {
            return Err(ProjectError::Io { path, message });
        },
        Err(ProjectError::Format(e)) => {
            return Err(ProjectError::Format(e));
        },
        Ok(c) => c,
    };
    let ghost c0 = composition;
    match parse_composition(Ok(composition)) {
        Ok(c) => {
            let p = Project::from_composition(path, c);
            assert(exists|out: Composition|
                defaults_applied(c0, out, sample_defaults_spec(c0.metadata)->Ok_0.0, sample_defaults_spec(c0.metadata)->Ok_0.1) && validate_spec(out) is Ok
                    && project_of(path@, out, p)) by {
                assert(project_of(path@, c, p));
            }
            Ok(p)
        },
        Err(e) => Err(ProjectError::Format(e)),
    }
}

} // verus!
