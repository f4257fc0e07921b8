//! The shared contract of the content processors, and their errors.

use crate::sem_ver::SemVer;
use crate::text::{chars_of, eq_ignore_ascii_case, range_eq_ignore_ascii_case};
use crate::xml_util::XmlError;
use std::path::PathBuf;
use vstd::prelude::*;

verus! {

/// An I/O error of std.
#[verifier::external_type_specification]
#[verifier::external_body]
pub struct ExIoError(std::io::Error);

/// A file system path of std.
#[verifier::external_type_specification]
#[verifier::external_body]
pub struct ExPathBuf(std::path::PathBuf);

/// Modifies the given text contents so that they indicate the given
/// semantic version.
pub trait ContentProcessor {
    type Err;

    /// The text that processing `old` for version `v` gives, or `None`
    /// where processing fails.
    spec fn output(&self, old: Seq<char>, v: SemVer) -> Option<Seq<char>>;

    /// Modifies the given text contents so that they indicate the given
    /// semantic version.
    fn process(&self, old_contents: &str, new_version: SemVer) -> (r: Result<String, Self::Err>)
        ensures
            r is Ok <==> self.output(old_contents@, new_version) is Some,
            r matches Ok(s) ==> self.output(old_contents@, new_version) == Some(s@),
    ;
}

/// `new_contents` when it differs from `old_contents`; `None` when the two
/// texts are equal, character for character.
pub fn keep_if_changed(old_contents: &str, new_contents: String) -> (r: Option<String>)
    ensures
        r is None <==> new_contents@ == old_contents@,
        r matches Some(s) ==> s@ == new_contents@,
{
    let a = chars_of(old_contents);
    let b = chars_of(new_contents.as_str());
    if crate::text::chars_equal(&a, &b) {
        None
    } else {
        Some(new_contents)
    }
}

/// The new contents of a file whose text was `old_contents`, when
/// `processor` changes it; `None` when the text comes back the same.
pub fn changed_contents<P: ContentProcessor>(
    processor: &P,
    old_contents: &str,
    new_version: SemVer,
) -> (r: Result<Option<String>, P::Err>)
    ensures
        r is Ok <==> processor.output(old_contents@, new_version) is Some,
        r matches Ok(x) ==> (x is None <==> processor.output(old_contents@, new_version) == Some(
            old_contents@,
        )),
        r matches Ok(x) ==> (x matches Some(s) ==> processor.output(old_contents@, new_version)
            == Some(s@)),
{
    match processor.process(old_contents, new_version) {
        Err(e) => Err(e),
        Ok(new_contents) => Ok(keep_if_changed(old_contents, new_contents)),
    }
}

/// Relies on `Path::extension` and `OsStr::to_string_lossy`: the extension
/// of the file name, if it has one.
#[verifier::external_body]
fn extension_of(path_buf: &PathBuf) -> Option<String> {
    path_buf.extension().map(|e| e.to_string_lossy().into_owned())
}

/// Whether the extension `found` is `extension`, without ASCII case
/// sensitivity.
pub fn extension_equals(found: &str, extension: &str) -> (r: bool)
    ensures
        r == eq_ignore_ascii_case(found@, extension@),
{
    let a = chars_of(found);
    let b = chars_of(extension);
    assert(a@.subrange(0, a@.len() as int) =~= a@);
    range_eq_ignore_ascii_case(&a, 0, a.len(), &b)
}

/// Whether a file whose extension is `found` (`None`: it has none) has the
/// extension `extension`, without ASCII case sensitivity.
pub fn extension_matches(found: Option<&str>, extension: &str) -> (r: bool)
    ensures
        r == match found {
            Some(e) => eq_ignore_ascii_case(e@, extension@),
            None => false,
        },
{
    match found {
        Some(e) => extension_equals(e, extension),
        None => false,
    }
}

/// Checks if the given path has the specified file extension, without
/// ASCII case sensitivity: `extension_matches` of what `Path::extension`
/// gives.
pub fn has_extension(path_buf: &PathBuf, extension: &str) -> bool {
    let found = extension_of(path_buf);
    match found {
        Some(e) => extension_matches(Some(e.as_str()), extension),
        None => extension_matches(None, extension),
    }
}

/// Finds files in a folder that match a given file extension. Does not
/// search sub-folders, only the root folder.
pub struct RootFileFinderByExt {
    extension: String,
}

impl RootFileFinderByExt {
    /// The extension that this finder looks for.
    pub closed spec fn extension(&self) -> Seq<char> {
        self.extension@
    }

    pub fn new(extension: &str) -> (r: Self)
        ensures
            r.extension() == extension@,
    {
        Self { extension: extension.to_owned() }
    }

    /// Whether the file at `path` is one that this finder looks for.
    pub fn accepts(&self, path: &PathBuf) -> bool {
        has_extension(path, self.extension.as_str())
    }
}

/// Why updating the files of a directory failed.
#[derive(Debug)]
pub enum UpdateError {
    /// A file or directory could not be read.
    IOError(std::io::Error),
    /// A structured-markup file could not be processed.
    Other(XmlError),
}

impl UpdateError {
    /// The update error for a structured-markup failure.
    pub fn new_boxing_other(other: XmlError) -> (r: Self)
        ensures
            r == UpdateError::Other(other),
    {
        UpdateError::Other(other)
    }
}

} // verus!
