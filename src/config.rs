//! The options of a run, the packages queued next, and the paths read.
use vstd::prelude::*;

use crate::text::{chars_of, push_char, push_range};

verus! {

/// What the output shows besides the running builds.
pub struct Format {
    /// Append the total time left for the queued packages to each line.
    pub full: bool,
    /// Also list every queued package, then the total time.
    pub all: bool,
}

/// The options of a run.
pub struct Arguments {
    /// The log files to read, relative to each root.
    pub files: Vec<String>,
    /// The folders that act as root.
    pub fakeroots: Vec<String>,
    /// What the output shows besides the running builds.
    pub format: Format,
    /// Show the progress read from each build's own log.
    pub read_ninja: bool,
    /// Start each line with the name of its root.
    pub show_root: bool,
    /// Do not report a file that could not be read.
    pub skip_file: bool,
}

/// A package queued to be merged next.
pub struct EmergeResume {
    /// Whether it is installed from a binary package.
    pub binary: bool,
    /// Its full name, with the version.
    pub name: String,
}

/// `file` placed under `root`: a file that starts with `.` stays as it is;
/// otherwise exactly one `/` joins the two.
pub open spec fn path_spec(root: Seq<char>, file: Seq<char>) -> Seq<char> {
    let head = if file.len() > 0 && file[0] == '.' {
        Seq::empty()
    } else if root.len() > 0 && root.last() == '/' {
        root
    } else {
        root.push('/')
    };
    let tail = if file.len() > 0 && file[0] == '/' {
        file.subrange(1, file.len() as int)
    } else {
        file
    };
    head + tail
}

/// Appends `file` placed under `root` (see [`path_spec`]) to `path`.
pub fn correct_path(root: &str, file: &str, path: &mut String)
    ensures
        final(path)@ == old(path)@ + path_spec(root@, file@),
{
    let r = chars_of(root);
    let f = chars_of(file);
    let ghost head: Seq<char> = Seq::empty();
    if !(f.len() > 0 && f[0] == '.') {
        path.append(root);
        proof {
            head = root@;
        }
        if !(r.len() > 0 && r[r.len() - 1] == '/') {
            push_char(path, '/');
            proof {
                head = root@.push('/');
            }
        }
    }
    assert(path@ == old(path)@ + head);
    let start: usize = if f.len() > 0 && f[0] == '/' {
        1
    } else {
        0
    };
    push_range(path, &f, start, f.len());
    assert(f@.subrange(0, f@.len() as int) == f@);
}

/// Where the queue of the next packages is kept under `root`.
pub fn get_path_mtimedb(root: &str) -> (r: String)
    ensures
        r@ == path_spec(root@, "/var/cache/edb/mtimedb"@),
{
    let mut path = String::new();
    correct_path(root, "/var/cache/edb/mtimedb", &mut path);
    path
}

} // verus!
