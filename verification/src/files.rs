//! Project-file listing: the entry types the caller-facing listing is
//! made of, and the rule that decides which directory entries a scan
//! skips. Walking the filesystem is outside work; the skip rule and the
//! argument handling are decisions and live here.

use vstd::prelude::*;
use crate::text::str_eq;

verus! {

/// One file or directory of the listing.
#[derive(Debug, Clone)]
pub struct FileEntry {
    pub path: String,
    pub name: String,
    pub is_directory: bool,
}

/// A listing together with the root it was taken from.
#[derive(Debug)]
pub struct ProjectFilesResult {
    pub root: String,
    pub files: Vec<FileEntry>,
}

/// Entries a project scan leaves out: hidden names and the usual
/// build and dependency directories.
pub open spec fn spec_ignored_entry_name(name: Seq<char>) -> bool {
    (name.len() > 0 && name[0] == '.') || name == "node_modules"@ || name == "target"@ || name
        == "dist"@ || name == "build"@
}

/// Should a project scan skip the entry with this name?
pub fn is_ignored_entry_name(name: &String) -> (r: bool)
    ensures
        r == spec_ignored_entry_name(name@),
{
    let hidden = if name.as_str().unicode_len() > 0 {
        name.as_str().get_char(0) == '.'
    } else {
        false
    };
    hidden || str_eq(name, "node_modules") || str_eq(name, "target") || str_eq(name, "dist")
        || str_eq(name, "build")
}

/// The artifact path named on the command line: present exactly when
/// the arguments are `<program> --mcp-request <path> ...`.
pub open spec fn spec_cli_request_path(args: Seq<Seq<char>>) -> Option<Seq<char>> {
    if args.len() >= 3 && args[1] == "--mcp-request"@ {
        Some(args[2])
    } else {
        None
    }
}

/// Reads the artifact path out of the program's arguments, handed in as
/// plain values.
pub fn cli_request_path(args: &Vec<String>) -> (r: Option<String>)
    ensures
        (match r {
            Some(ref p) => spec_cli_request_path(args@.map_values(|a: String| a@)) == Some::<
                Seq<char>,
            >(p@),
            None => spec_cli_request_path(args@.map_values(|a: String| a@)) is None,
        }),
{
    if args.len() >= 3 && str_eq(&args[1], "--mcp-request") {
        proof {
            assert(args@.map_values(|a: String| a@)[1] == args@[1]@);
            assert(args@.map_values(|a: String| a@)[2] == args@[2]@);
        }
        Some(args[2].clone())
    } else {
        proof {
            if args@.len() >= 3 {
                assert(args@.map_values(|a: String| a@)[1] == args@[1]@);
            }
        }
        None
    }
}

} // verus!
