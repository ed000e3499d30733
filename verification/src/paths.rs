//! Where the scanner keeps its files. A path is held as the list of its components, in
//! the form in which `std::path::Path::components` yields them; joining a plain name and
//! completing a file extension are decided on that list.
use vstd::prelude::*;
use crate::text::chars_of;

verus! {

/// One component of a path.
#[derive(Clone, Debug, PartialEq, Eq)]
pub enum PathComponent {
    /// A Windows prefix such as `C:` or `\\server\share`.
    Prefix(String),
    /// The root separator.
    RootDir,
    /// A leading `.`.
    CurDir,
    /// `..`.
    ParentDir,
    /// A plain name.
    Normal(String),
}

/// The folder, under the per-user data folder, that holds the scanner's files.
pub const APP_DIR_NAME: &'static str = "IPScanner";

/// The file that holds the settings.
pub const SETTINGS_FILE_NAME: &'static str = "settings.json";

/// The file that holds the vendor list.
pub const VENDOR_FILE_NAME: &'static str = "oui.json";

/// The name of the last component, when that component is a plain name.
pub open spec fn file_name(path: Seq<PathComponent>) -> Option<Seq<char>> {
    if path.len() > 0 {
        match path.last() {
            PathComponent::Normal(name) => Some(name@),
            _ => None,
        }
    } else {
        None
    }
}

/// A file name has an extension when a `.` stands in it after its first character.
pub open spec fn has_extension(name: Seq<char>) -> bool {
    exists|i: int| 0 < i < name.len() && name[i] == '.'
}

/// Which file names already have an extension: one with a `.` after its first character
/// has one; one without any `.`, or whose only `.` opens it (a hidden file such as
/// `.scan`), has none.
pub proof fn dotted_names_have_extensions(name: Seq<char>)
    ensures
        forall|i: int| 0 < i < name.len() && name[i] == '.' ==> has_extension(name),
        !name.contains('.') ==> !has_extension(name),
        name.len() > 0 && name[0] == '.' && !name.drop_first().contains('.') ==> !has_extension(name),
{
    if name.len() > 0 && name[0] == '.' && !name.drop_first().contains('.') {
        assert forall|i: int| 0 < i < name.len() implies name[i] != '.' by {
            assert(name.drop_first()[i - 1] == name[i]);
        }
    }
}

/// Whether completing `path` with `extension` changes it: the path ends in a file name
/// without an extension, and the extension is not empty.
pub open spec fn needs_extension(path: Seq<PathComponent>, extension: Seq<char>) -> bool {
    match file_name(path) {
        Some(name) => !has_extension(name) && extension.len() > 0,
        None => false,
    }
}

fn name_has_extension(name: &String) -> (r: bool)
    ensures
        r == has_extension(name@),
{
    let chars = chars_of(name.as_str());
    let mut i: usize = 1;
    while i < chars.len()
        invariant
            chars@ == name@,
            1 <= i,
            forall|k: int| 0 < k < i && k < chars@.len() ==> chars@[k] != '.',
        decreases chars.len() - i,
    {
        if chars[i] == '.' {
            return true;
        }
        i = i + 1;
    }
    false
}

/// A path that ends in a file name without an extension gets `extension` after a `.`;
/// any other path is returned as it is.
pub fn ensure_extension(path: Vec<PathComponent>, extension: &str) -> (r: Vec<PathComponent>)
    requires
        !extension@.contains('/'),
        !extension@.contains('\\'),
    ensures
        !needs_extension(path@, extension@) ==> r@ == path@,
        needs_extension(path@, extension@) ==> {
            &&& r@.len() == path@.len()
            &&& r@.drop_last() == path@.drop_last()
            &&& r@.last() matches PathComponent::Normal(name)
            &&& name@ == file_name(path@)->0 + seq!['.'] + extension@
        },
{
    let mut path = path;
    let n = path.len();
    if n == 0 || extension.unicode_len() == 0 {
        return path;
    }
    let renamed: Option<String> = match &path[n - 1] {
        PathComponent::Normal(name) => {
            if name_has_extension(name) {
                None
            } else {
                let mut renamed = name.clone();
                proof {
                    reveal_strlit(".");
                }
                renamed.append(".");
                renamed.append(extension);
                Some(renamed)
            }
        },
        _ => None,
    };
    match renamed {
        Some(renamed) => {
            let ghost before = path@;
            path.set(n - 1, PathComponent::Normal(renamed));
            assert(path@.drop_last() =~= before.drop_last());
            assert(path@.last() == PathComponent::Normal(renamed));
            path
        },
        None => path,
    }
}

/// The settings file: `IPScanner/settings.json` under the per-user data folder `base`.
pub fn app_settings_path(base: Vec<PathComponent>) -> (r: Vec<PathComponent>)
    ensures
        r@.len() == base@.len() + 2,
        r@.take(base@.len() as int) == base@,
        r@[base@.len() as int] matches PathComponent::Normal(dir) && dir@ == APP_DIR_NAME@,
        r@[base@.len() + 1int] matches PathComponent::Normal(file) && file@ == SETTINGS_FILE_NAME@,
{
    let mut r = base;
    let ghost b = r@;
    r.push(PathComponent::Normal(String::from_str(APP_DIR_NAME)));
    r.push(PathComponent::Normal(String::from_str(SETTINGS_FILE_NAME)));
    assert(r@.take(b.len() as int) =~= b);
    r
}

/// The places where a vendor list is looked for, in order: `oui.json` beside the program
/// when its folder `exe_dir` is known, then `IPScanner/oui.json` under the per-user data
/// folder `base`. The working folder is never among them.
pub fn vendor_db_paths(exe_dir: Option<Vec<PathComponent>>, base: Vec<PathComponent>) -> (r: Vec<
    Vec<PathComponent>,
>)
    ensures
        r@.len() == if exe_dir is Some { 2int } else { 1int },
        exe_dir matches Some(dir) ==> {
            &&& r@[0]@.len() == dir@.len() + 1
            &&& r@[0]@.drop_last() == dir@
            &&& r@[0]@.last() matches PathComponent::Normal(file) && file@ == VENDOR_FILE_NAME@
        },
        ({
            let p = r@.last()@;
            &&& p.len() == base@.len() + 2
            &&& p.take(base@.len() as int) == base@
            &&& p[base@.len() as int] matches PathComponent::Normal(dir) && dir@ == APP_DIR_NAME@
            &&& p[base@.len() + 1int] matches PathComponent::Normal(file) && file@ == VENDOR_FILE_NAME@
        }),
{
    let mut r: Vec<Vec<PathComponent>> = Vec::new();
    match exe_dir {
        Some(dir) => {
            let mut p = dir;
            let ghost d = p@;
            p.push(PathComponent::Normal(String::from_str(VENDOR_FILE_NAME)));
            assert(p@.drop_last() =~= d);
            r.push(p);
        },
        None => {},
    }
    let mut p = base;
    let ghost b = p@;
    p.push(PathComponent::Normal(String::from_str(APP_DIR_NAME)));
    p.push(PathComponent::Normal(String::from_str(VENDOR_FILE_NAME)));
    assert(p@.take(b.len() as int) =~= b);
    r.push(p);
    r
}

} // verus!
