//! Where the entries of a zip archive go when it is unpacked.
use vstd::prelude::*;

verus! {

/// The path that an archive entry is written to: the output folder, `/`,
/// and the entry's own path inside the archive.
pub fn entry_output_path(output_folder: &str, entry_path: &str) -> (path: String)
    ensures
        path@ == output_folder@ + "/"@ + entry_path@,
{
    let mut path = String::from_str(output_folder);
    path.append("/");
    path.append(entry_path);
    path
}

/// Whether an archive entry with this name is a directory: its name ends
/// with `/`.
pub fn is_directory_entry(name: &str) -> (is_dir: bool)
    ensures
        is_dir == (name@.len() > 0 && name@.last() == '/'),
{
    let n = name.unicode_len();
    n > 0 && name.get_char(n - 1) == '/'
}

} // verus!
