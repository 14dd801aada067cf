use vstd::prelude::*;
use crate::language::error::{Error, ErrorKind};
use crate::language::vm::{RDLTypes, RdlV, rdl_text};
use crate::language::interpreter::run::{json_of_strings, strings_view};
use crate::language::interpreter::semantics::json_array;

verus! {

/// The file functions scripts can call. What they find on disk is read by
/// the program around the library; here stand the values they give back.
pub struct FileSystem {}

impl FileSystem {
    /// The value `list_files` gives for the names found in a directory:
    /// their JSON array, as text.
    pub fn listing(names: &Vec<String>) -> (r: RDLTypes)
        ensures
            r@ == RdlV::Str(json_array(strings_view(names@))),
    {
        RDLTypes::String(json_of_strings(names))
    }

    /// The runtime error a file function reports: `what`, the path as
    /// text, `": "` and what the system said.
    pub fn failure(what: &str, path: &RDLTypes, detail: &str) -> (e: Error)
        ensures
            e.kind == ErrorKind::Runtime,
            e.message@ == what@ + rdl_text(path@) + ": "@ + detail@,
            e.line is None,
            e.column is None,
    {
        let mut m = String::new();
        m.append(what);
        let p = path.to_display_string();
        m.append(p.as_str());
        m.append(": ");
        m.append(detail);
        Error { kind: ErrorKind::Runtime, message: m, line: None, column: None }
    }

    /// The error `list_files` reports for a path that is not a directory.
    pub fn not_a_directory(path: &RDLTypes) -> (e: Error)
        ensures
            e.kind == ErrorKind::Runtime,
            e.message@ == "Путь не является директорией: "@ + rdl_text(path@),
            e.line is None,
            e.column is None,
    {
        let mut m = String::new();
        m.append("Путь не является директорией: ");
        let p = path.to_display_string();
        m.append(p.as_str());
        Error { kind: ErrorKind::Runtime, message: m, line: None, column: None }
    }
}

} // verus!
