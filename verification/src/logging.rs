//! Where the log goes.

use vstd::prelude::*;

use crate::constants::PRODUCT_NAME;

verus! {

/// The separator of path components.
pub const SEPARATOR: char = '\\';

/// Whether a path is the letter of a drive and nothing more.
pub open spec fn is_bare_drive(path: Seq<char>) -> bool {
    path.len() == 2 && path[1] == ':' && ('a' <= path[0] <= 'z' || 'A' <= path[0] <= 'Z')
}

/// A path with one more component. Behind a bare drive there is no separator: it stands for the
/// drive's current folder.
pub open spec fn path_joined(base: Seq<char>, name: Seq<char>) -> Seq<char> {
    if base.len() == 0 || base.last() == SEPARATOR || base.last() == '/' || is_bare_drive(base) {
        base + name
    } else {
        base.push(SEPARATOR) + name
    }
}

/// A path with one more component.
pub fn join_path(base: &str, name: &str) -> (path: String)
    ensures
        path@ == path_joined(base@, name@),
{
    let mut path: String = String::from_str(base);
    let n: usize = base.unicode_len();
    if n > 0 && base.get_char(n - 1) != SEPARATOR && base.get_char(n - 1) != '/' {
        let drive: bool = n == 2 && base.get_char(1) == ':' && {
            let c: char = base.get_char(0);
            ('a' <= c && c <= 'z') || ('A' <= c && c <= 'Z')
        };
        if !drive {
            path.push(SEPARATOR);
        }
    }
    path.append(name);
    path
}

/// The folder that the product keeps its data in, under the user's local data folder.
pub open spec fn data_dir(local: Seq<char>) -> Seq<char> {
    path_joined(local, PRODUCT_NAME@)
}

/// The folder of the logs: in the product's folder under the user's local data folder, or in the
/// working directory where there is none.
pub fn log_dir(local_app_data: Option<&str>) -> (path: String)
    ensures
        local_app_data matches Some(local) ==> path@ == path_joined(data_dir(local@), "logs"@),
        local_app_data is None ==> path@ == "logs"@,
{
    match local_app_data {
        Some(local) => {
            let dir: String = join_path(local, PRODUCT_NAME);
            join_path(dir.as_str(), "logs")
        },
        None => String::from_str("logs"),
    }
}

/// The stem of the log files' names.
pub fn log_file_prefix() -> (s: String)
    ensures
        s@ == PRODUCT_NAME@ + ".log"@,
{
    let mut s: String = String::from_str(PRODUCT_NAME);
    s.append(".log");
    s
}

/// Law: a path with one more component begins with the path and ends with the component; between them
/// there is at most one separator, and none where there is one already.
pub proof fn lemma_components_stay_apart(base: Seq<char>, name: Seq<char>)
    ensures
        base.len() > 0 && base.last() != '\\' && base.last() != '/' && !(base.len() == 2 && base[1]
            == ':') ==> path_joined(base, name) == base + seq!['\\'] + name,
        base.len() == 0 || base.last() == '\\' || base.last() == '/' ==> path_joined(base, name)
            == base + name,
        data_dir(base) == path_joined(base, "clipd"@),
{
    assert(base.push('\\') + name =~= base + seq!['\\'] + name);
}

} // verus!
