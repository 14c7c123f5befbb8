//! Where the output of a task is logged.

use vstd::prelude::*;
use crate::text::{chars_of, concat, string_of};

verus! {

/// The two streams of a task that are logged.
#[derive(Clone, Copy, Debug, PartialEq, Eq, Structural)]
pub enum StdioFile {
    Stdout,
    Stderr,
}

/// The ending of the log file of a stream.
pub open spec fn stdio_suffix(file_type: StdioFile) -> Seq<char> {
    match file_type {
        StdioFile::Stdout => ".stdout"@,
        StdioFile::Stderr => ".stderr"@,
    }
}

/// The name of the log file of a stream of the task `task_name`.
pub open spec fn stdio_filename_of(task_name: Seq<char>, file_type: StdioFile) -> Seq<char> {
    task_name + stdio_suffix(file_type)
}

/// The path of `name` under the directory `dir`, joined as paths are
/// where `/` separates their parts: a name that starts at the root stands
/// for itself; a directory that is empty or ends in a separator takes the
/// name as it is; any other directory takes a separator first.
pub open spec fn in_dir(dir: Seq<char>, name: Seq<char>) -> Seq<char> {
    if name.len() > 0 && name[0] == '/' {
        name
    } else if dir.len() == 0 || dir.last() == '/' {
        dir + name
    } else {
        dir + "/"@ + name
    }
}

/// The path of `name` under the directory `dir`.
pub fn path_in_dir(dir: &str, name: &str) -> (r: String)
    ensures
        r@ == in_dir(dir@, name@),
{
    let d = chars_of(dir);
    let n = chars_of(name);
    if n.len() > 0 && n[0] == '/' {
        string_of(&n)
    } else if d.len() == 0 || d[d.len() - 1] == '/' {
        concat(dir, name)
    } else {
        let with_sep = concat(dir, "/");
        concat(with_sep.as_str(), name)
    }
}

/// The name of the log file of a stream of a task: the task's name, then
/// `.stdout` or `.stderr`.
pub fn stdio_filename(task_name: &str, file_type: StdioFile) -> (r: String)
    ensures
        r@ == stdio_filename_of(task_name@, file_type),
{
    match file_type {
        StdioFile::Stdout => concat(task_name, ".stdout"),
        StdioFile::Stderr => concat(task_name, ".stderr"),
    }
}

/// The paths of the two log files of a task in the directory `path`: that
/// of its standard output, then that of its standard error.
pub fn get_log_paths(task_name: &str, path: &str) -> (r: (String, String))
    ensures
        r.0@ == in_dir(path@, stdio_filename_of(task_name@, StdioFile::Stdout)),
        r.1@ == in_dir(path@, stdio_filename_of(task_name@, StdioFile::Stderr)),
{
    let out = stdio_filename(task_name, StdioFile::Stdout);
    let err = stdio_filename(task_name, StdioFile::Stderr);
    (path_in_dir(path, out.as_str()), path_in_dir(path, err.as_str()))
}

} // verus!
