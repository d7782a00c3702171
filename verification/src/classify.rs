//! File-type classification: the hidden (dotfile) flag and the
//! extension-based icon category.
//!
//! The extension table is fixed configuration data: any entry's category is
//! found by a case-insensitive match on the text after the final dot of the
//! base name. A directory is always `Folder`, whatever its name.

use vstd::prelude::*;
use crate::paths::{component_name, named_component, opt_view};
use crate::text::{
    before_last,
    ci_eq,
    last_index_of,
    lemma_no_sep,
    lemma_split_at_last_sep,
    lower_seq,
};

verus! {

/// Semantic file-type category, used purely for presentation.
#[derive(Clone, Copy, Debug, PartialEq, Eq, Structural)]
pub enum IconClass {
    Folder,
    Document,
    Spreadsheet,
    Presentation,
    Image,
    Audio,
    Video,
    Archive,
    SourceCode,
    Executable,
    Generic,
}

/// Whether a base name marks a hidden (dot) file.
pub open spec fn is_hidden_name(n: Seq<char>) -> bool {
    n.len() > 0 && n[0] == '.'
}

/// Whether the path's nameable final component begins with a dot.
/// Trailing separators are ignored; the root, and a path ending in a dot
/// alias (`.` or `..`), name no component and are never hidden.
pub open spec fn is_hidden_path(p: Seq<char>) -> bool {
    match named_component(p) {
        Some(n) => is_hidden_name(n),
        None => false,
    }
}

/// The extension of a path's nameable final component: the text after its
/// last dot, unless the component has no dot or only a leading one.
pub open spec fn ext_of(p: Seq<char>) -> Option<Seq<char>> {
    match named_component(p) {
        None => None,
        Some(name) => if !name.contains('.') || before_last(name, '.').len() == 0 {
            None
        } else {
            Some(crate::text::after_last(name, '.'))
        },
    }
}

/// The fixed extension table, keyed by lowercase extension.
pub open spec fn category_of(e: Seq<char>) -> IconClass {
    if e == "txt"@ || e == "pdf"@ || e == "doc"@ || e == "docx"@ || e == "odt"@ {
        IconClass::Document
    } else if e == "xls"@ || e == "xlsx"@ || e == "ods"@ {
        IconClass::Spreadsheet
    } else if e == "ppt"@ || e == "pptx"@ || e == "odp"@ {
        IconClass::Presentation
    } else if e == "jpg"@ || e == "jpeg"@ || e == "png"@ || e == "gif"@ || e == "svg"@ || e
        == "webp"@ {
        IconClass::Image
    } else if e == "mp3"@ || e == "ogg"@ || e == "wav"@ || e == "flac"@ {
        IconClass::Audio
    } else if e == "mp4"@ || e == "webm"@ || e == "mkv"@ || e == "avi"@ {
        IconClass::Video
    } else if e == "zip"@ || e == "tar"@ || e == "rar"@ || e == "gz"@ || e == "7z"@ {
        IconClass::Archive
    } else if e == "c"@ || e == "cpp"@ || e == "h"@ || e == "rs"@ || e == "py"@ || e == "js"@ || e
        == "html"@ || e == "css"@ || e == "json"@ || e == "xml"@ {
        IconClass::SourceCode
    } else if e == "exe"@ || e == "sh"@ || e == "appimage"@ {
        IconClass::Executable
    } else {
        IconClass::Generic
    }
}

/// The category of a path: `Folder` for a directory, else the table entry
/// for its lowercased extension, else `Generic`.
pub open spec fn classify_spec(p: Seq<char>, is_dir: bool) -> IconClass {
    if is_dir {
        IconClass::Folder
    } else {
        match ext_of(p) {
            Some(e) => category_of(lower_seq(e)),
            None => IconClass::Generic,
        }
    }
}

/// Executable [`is_hidden_path`].
pub fn is_hidden(p: &str) -> (r: bool)
    ensures
        r == is_hidden_path(p@),
{
    match component_name(p) {
        None => false,
        Some(name) => {
            let n = name.as_str().unicode_len();
            n > 0 && name.as_str().get_char(0) == '.'
        },
    }
}

/// Executable [`ext_of`].
pub fn extension(p: &str) -> (r: Option<String>)
    ensures
        opt_view(r) == ext_of(p@),
{
    let name = match component_name(p) {
        None => {
            return None;
        },
        Some(name) => name,
    };
    let n = name.as_str().unicode_len();
    match last_index_of(name.as_str(), '.') {
        Some(i) => {
            proof {
                lemma_split_at_last_sep(name@, '.', i as int);
                assert(name@.contains('.')) by {
                    assert(name@[i as int] == '.');
                }
            }
            if i == 0 {
                None
            } else {
                Some(name.as_str().substring_char(i + 1, n).to_owned())
            }
        },
        None => {
            proof {
                lemma_no_sep(name@, '.');
                assert(!name@.contains('.'));
            }
            None
        },
    }
}

/// Executable [`classify_spec`].
pub fn classify(p: &str, is_dir: bool) -> (r: IconClass)
    ensures
        r == classify_spec(p@, is_dir),
{
    if is_dir {
        return IconClass::Folder;
    }
    match extension(p) {
        None => IconClass::Generic,
        Some(ext) => {
            let e = ext.as_str();
            if ci_eq(e, "txt") || ci_eq(e, "pdf") || ci_eq(e, "doc") || ci_eq(e, "docx") || ci_eq(
                e,
                "odt",
            ) {
                IconClass::Document
            } else if ci_eq(e, "xls") || ci_eq(e, "xlsx") || ci_eq(e, "ods") {
                IconClass::Spreadsheet
            } else if ci_eq(e, "ppt") || ci_eq(e, "pptx") || ci_eq(e, "odp") {
                IconClass::Presentation
            } else if ci_eq(e, "jpg") || ci_eq(e, "jpeg") || ci_eq(e, "png") || ci_eq(e, "gif")
                || ci_eq(e, "svg") || ci_eq(e, "webp") {
                IconClass::Image
            } else if ci_eq(e, "mp3") || ci_eq(e, "ogg") || ci_eq(e, "wav") || ci_eq(e, "flac") {
                IconClass::Audio
            } else if ci_eq(e, "mp4") || ci_eq(e, "webm") || ci_eq(e, "mkv") || ci_eq(e, "avi") {
                IconClass::Video
            } else if ci_eq(e, "zip") || ci_eq(e, "tar") || ci_eq(e, "rar") || ci_eq(e, "gz")
                || ci_eq(e, "7z") {
                IconClass::Archive
            } else if ci_eq(e, "c") || ci_eq(e, "cpp") || ci_eq(e, "h") || ci_eq(e, "rs") || ci_eq(
                e,
                "py",
            ) || ci_eq(e, "js") || ci_eq(e, "html") || ci_eq(e, "css") || ci_eq(e, "json") || ci_eq(
                e,
                "xml",
            ) {
                IconClass::SourceCode
            } else if ci_eq(e, "exe") || ci_eq(e, "sh") || ci_eq(e, "appimage") {
                IconClass::Executable
            } else {
                IconClass::Generic
            }
        },
    }
}

/// The icon name a display layer would use for each category.
pub open spec fn icon_name_spec(c: IconClass) -> Seq<char> {
    match c {
        IconClass::Folder => "folder"@,
        IconClass::Document => "x-office-document"@,
        IconClass::Spreadsheet => "x-office-spreadsheet"@,
        IconClass::Presentation => "x-office-presentation"@,
        IconClass::Image => "image-x-generic"@,
        IconClass::Audio => "audio-x-generic"@,
        IconClass::Video => "video-x-generic"@,
        IconClass::Archive => "package-x-generic"@,
        IconClass::SourceCode => "text-x-script"@,
        IconClass::Executable => "application-x-executable"@,
        IconClass::Generic => "text-x-generic"@,
    }
}

impl IconClass {
    /// Executable [`icon_name_spec`].
    pub fn icon_name(&self) -> (r: &'static str)
        ensures
            r@ == icon_name_spec(*self),
    {
        match self {
            IconClass::Folder => "folder",
            IconClass::Document => "x-office-document",
            IconClass::Spreadsheet => "x-office-spreadsheet",
            IconClass::Presentation => "x-office-presentation",
            IconClass::Image => "image-x-generic",
            IconClass::Audio => "audio-x-generic",
            IconClass::Video => "video-x-generic",
            IconClass::Archive => "package-x-generic",
            IconClass::SourceCode => "text-x-script",
            IconClass::Executable => "application-x-executable",
            IconClass::Generic => "text-x-generic",
        }
    }
}

} // verus!
