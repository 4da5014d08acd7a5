//! Choosing the configuration file format from the file's extension.

use vstd::prelude::*;
use crate::text::{append_chars, append_str, ascii_lower_text, chars_eq, chars_of, string_from_chars, to_ascii_lower};

verus! {

/// `ext` can be what `std::path::Path::extension` reports for `path` on
/// any platform: a run of characters that stands in `path` right after a
/// `.` and holds neither `.` nor `/`.
pub open spec fn extension_within(path: Seq<char>, ext: Seq<char>) -> bool {
    &&& !ext.contains('.')
    &&& !ext.contains('/')
    &&& exists|i: int|
        1 <= i && i + ext.len() <= path.len() && path[i - 1] == '.' && #[trigger] path.subrange(i, i + ext.len()) == ext
}

/// `ext` fits `path` as its extension: one found within it, or none at
/// all, and none whenever the path holds no `.`.
pub open spec fn extension_fits(path: Seq<char>, ext: Option<Seq<char>>) -> bool {
    &&& (!path.contains('.') ==> ext is None)
    &&& (ext matches Some(e) ==> extension_within(path, e))
}

/// The text after the last `c` in `t`, or all of `t` when it holds no `c`.
pub open spec fn after_last(t: Seq<char>, c: char) -> Seq<char> {
    if t.contains(c) {
        let i = choose|i: int| 0 <= i < t.len() && t[i] == c && forall|j: int| i < j < t.len() ==> t[j] != c;
        t.subrange(i + 1, t.len() as int)
    } else {
        t
    }
}

/// `p` with trailing separators and trailing `/.` components taken off,
/// which `std::path::Path` normalises away.
pub open spec fn trimmed_end(p: Seq<char>) -> Seq<char>
    decreases p.len(),
{
    if p.len() > 0 && p.last() == '/' {
        trimmed_end(p.drop_last())
    } else if p.len() >= 2 && p.last() == '.' && p[p.len() - 2] == '/' {
        trimmed_end(p.drop_last())
    } else {
        p
    }
}

/// A path on which every platform's `std::path::Path` reads the same
/// components: no `\`, no `:` and no leading `//`, so no Windows prefix.
pub open spec fn portable_path(p: Seq<char>) -> bool {
    &&& !p.contains('\\')
    &&& !p.contains(':')
    &&& !(p.len() >= 2 && p[0] == '/' && p[1] == '/')
}

/// The documented `Path::file_name` of a portable path: its final
/// component, none when that is empty (the root or nothing), `.` or `..`.
pub open spec fn path_file_name(p: Seq<char>) -> Option<Seq<char>> {
    let n = after_last(trimmed_end(p), '/');
    if n.len() == 0 || n == seq!['.'] || n == seq!['.', '.'] {
        None
    } else {
        Some(n)
    }
}

/// The documented `Path::extension` of a portable path: the part of the
/// file name after its last `.`; none without a file name, without a `.`,
/// or when the only `.` starts the name.
pub open spec fn path_extension_text(p: Seq<char>) -> Option<Seq<char>> {
    match path_file_name(p) {
        None => None,
        Some(n) => {
            let e = after_last(n, '.');
            if !n.contains('.') || n.len() == e.len() + 1 {
                None
            } else {
                Some(e)
            }
        },
    }
}

/// `Path::new(path).extension()`, converted to text (losslessly: the path
/// is valid UTF-8 and the extension is cut at a `.`). On a portable path
/// it is the documented extension [`path_extension_text`]. On any path,
/// whatever the platform's separators make of it, the extension stands in
/// the path right after a `.` and holds no `.` or `/`, and a path without
/// `.` has none.
#[verifier::external_body]
pub(crate) fn path_extension(path: &str) -> (r: Option<String>)
    ensures
        extension_fits(path@, match r { Some(e) => Some(e@), None => None }),
        portable_path(path@) ==> match r { Some(e) => Some(e@), None => None } == path_extension_text(path@),
{
    std::path::Path::new(path).extension().map(|e| e.to_string_lossy().into_owned())
}

/// A supported configuration file format.
pub enum FileHandler {
    Json,
    Toml,
}

/// Why no format could be chosen.
pub enum FileFormatError {
    /// The path has no extension.
    MissingExtension,
    /// The extension (lower-cased) is neither `json` nor `toml`.
    Unhandled(String),
}

/// The format an extension selects, compared case-insensitively.
pub open spec fn format_for(ext: Option<Seq<char>>) -> Result<FileHandler, Option<Seq<char>>> {
    match ext {
        None => Err(None),
        Some(e) => {
            let l = ascii_lower_text(e);
            if l == "json"@ {
                Ok(FileHandler::Json)
            } else if l == "toml"@ {
                Ok(FileHandler::Toml)
            } else {
                Err(Some(l))
            }
        },
    }
}

/// `r` is the outcome that `f`, a verdict of [`format_for`], calls for.
pub open spec fn format_outcome(r: Result<FileHandler, FileFormatError>, f: Result<FileHandler, Option<Seq<char>>>) -> bool {
    match f {
        Ok(FileHandler::Json) => r matches Ok(FileHandler::Json),
        Ok(FileHandler::Toml) => r matches Ok(FileHandler::Toml),
        Err(None) => r matches Err(FileFormatError::MissingExtension),
        Err(Some(l)) => r matches Err(FileFormatError::Unhandled(s)) && s@ == l,
    }
}

impl FileFormatError {
    /// The message shown for this error.
    pub fn message(&self) -> (m: String)
        ensures
            m@ == match *self {
                FileFormatError::MissingExtension => "Missing file extension"@,
                FileFormatError::Unhandled(e) => "Unhandled file extension: "@ + e@,
            },
    {
        let mut out: Vec<char> = Vec::new();
        match self {
            FileFormatError::MissingExtension => append_str(&mut out, "Missing file extension"),
            FileFormatError::Unhandled(e) => {
                append_str(&mut out, "Unhandled file extension: ");
                append_str(&mut out, e.as_str());
            },
        }
        string_from_chars(&out)
    }
}

impl FileHandler {
    /// Chooses the format from an extension (case-insensitive).
    pub fn from_extension(ext: Option<&str>) -> (r: Result<FileHandler, FileFormatError>)
        ensures
            format_outcome(r, format_for(match ext { Some(e) => Some(e@), None => None })),
    {
        match ext {
            None => Err(FileFormatError::MissingExtension),
            Some(e) => {
                let raw = chars_of(e);
                let lower = to_ascii_lower(&raw);
                let json = chars_of("json");
                let toml = chars_of("toml");
                if chars_eq(&lower, &json) {
                    Ok(FileHandler::Json)
                } else if chars_eq(&lower, &toml) {
                    Ok(FileHandler::Toml)
                } else {
                    Err(FileFormatError::Unhandled(string_from_chars(&lower)))
                }
            },
        }
    }

    /// Chooses the format from a path's extension (case-insensitive), the
    /// extension being the one `std::path::Path` finds.
    pub fn from_path(path: &str) -> (r: Result<FileHandler, FileFormatError>)
        ensures
            exists|ext: Option<Seq<char>>| extension_fits(path@, ext) && format_outcome(r, #[trigger] format_for(ext)),
            !path@.contains('.') ==> r matches Err(FileFormatError::MissingExtension),
            portable_path(path@) ==> format_outcome(r, format_for(path_extension_text(path@))),
    {
        let ext = path_extension(path);
        let ghost found: Option<Seq<char>> = match &ext { Some(e) => Some(e@), None => None };
        let r = match &ext {
            Some(e) => Self::from_extension(Some(e.as_str())),
            None => Self::from_extension(None),
        };
        assert(extension_fits(path@, found) && format_outcome(r, format_for(found)));
        r
    }
}

} // verus!
