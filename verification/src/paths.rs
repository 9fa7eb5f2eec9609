//! Where the file of a preset is looked for.

use vstd::prelude::*;
use vstd::string::*;

verus! {

/// Whether a name holds a path separator.
pub open spec fn has_separator(name: Seq<char>) -> bool {
    name.contains('/') || name.contains('\\')
}

/// The file of a plain preset name in the user's preset directory.
pub open spec fn user_preset(home: Seq<char>, name: Seq<char>) -> Seq<char> {
    home + "/.config/linewise/presets/"@ + name + ".lwpreset"@
}

/// The file of a plain preset name in the local preset directory.
pub open spec fn local_preset(home: Seq<char>, name: Seq<char>) -> Seq<char> {
    home + "/.local/etc/linewise/presets/"@ + name + ".lwpreset"@
}

/// The file of a plain preset name in the working directory.
pub open spec fn working_preset(name: Seq<char>) -> Seq<char> {
    name + ".lwpreset"@
}

/// The user's preset directory.
pub open spec fn preset_dir(home: Seq<char>) -> Seq<char> {
    home + "/.config/linewise/presets"@
}

/// The user's configuration directory.
pub open spec fn config_dir(home: Seq<char>) -> Seq<char> {
    home + "/.config/linewise"@
}

/// The settings file.
pub open spec fn settings_file(home: Seq<char>) -> Seq<char> {
    home + "/.config/linewise/settings.json"@
}

/// How the file of a preset name is found.
#[derive(Debug)]
pub enum PresetLocation {
    /// The name is the path.
    AsGiven,
    /// The name is a path relative to the base directory, where there is
    /// one, and is the path else.
    Relative,
    /// The name is plain: these files are tried in order, and the first
    /// that exists is taken; where none exists, the first.
    Candidates(Vec<String>),
}

/// Whether a name holds a path separator.
pub fn contains_separator(name: &[char]) -> (r: bool)
    ensures
        r == has_separator(name@),
{
    let mut i: usize = 0;
    while i < name.len()
        invariant
            i <= name@.len(),
            forall|k: int| 0 <= k < i ==> name@[k] != '/' && name@[k] != '\\',
        decreases name@.len() - i,
    {
        if name[i] == '/' || name[i] == '\\' {
            assert(name@.contains(name@[i as int]));
            return true;
        }
        i = i + 1;
    }
    false
}

/// The file of a preset in the user's preset directory.
pub fn user_preset_path(home: &str, name: &str) -> (path: String)
    ensures
        path@ == user_preset(home@, name@),
{
    let mut path = String::from_str(home);
    path.append("/.config/linewise/presets/");
    path.append(name);
    path.append(".lwpreset");
    path
}

/// The user's preset directory.
pub fn preset_dir_path(home: &str) -> (path: String)
    ensures
        path@ == preset_dir(home@),
{
    let mut path = String::from_str(home);
    path.append("/.config/linewise/presets");
    path
}

/// The user's configuration directory.
pub fn config_dir_path(home: &str) -> (path: String)
    ensures
        path@ == config_dir(home@),
{
    let mut path = String::from_str(home);
    path.append("/.config/linewise");
    path
}

/// The settings file.
pub fn settings_path(home: &str) -> (path: String)
    ensures
        path@ == settings_file(home@),
{
    let mut path = String::from_str(home);
    path.append("/.config/linewise/settings.json");
    path
}

/// How the file of a preset name is found: an absolute path is taken as
/// it is, a name with a path separator is relative to the base directory,
/// and a plain name is looked for in the user's preset directory, in the
/// local preset directory, and in the working directory.
pub fn locate_preset(name: &str, is_absolute: bool, home: &str) -> (location: PresetLocation)
    ensures
        match location {
            PresetLocation::AsGiven => is_absolute,
            PresetLocation::Relative => !is_absolute && has_separator(name@),
            PresetLocation::Candidates(files) => {
                &&& !is_absolute
                &&& !has_separator(name@)
                &&& files@.len() == 3
                &&& files@[0]@ == user_preset(home@, name@)
                &&& files@[1]@ == local_preset(home@, name@)
                &&& files@[2]@ == working_preset(name@)
            },
        },
{
    if is_absolute {
        return PresetLocation::AsGiven;
    }
    let chars = crate::text::str_chars(name);
    if contains_separator(chars.as_slice()) {
        return PresetLocation::Relative;
    }
    let mut local = String::from_str(home);
    local.append("/.local/etc/linewise/presets/");
    local.append(name);
    local.append(".lwpreset");
    let mut working = String::from_str(name);
    working.append(".lwpreset");
    let mut files: Vec<String> = Vec::new();
    files.push(user_preset_path(home, name));
    files.push(local);
    files.push(working);
    PresetLocation::Candidates(files)
}

/// The place of the first file that exists, or zero where none does.
pub open spec fn first_existing(exists: Seq<bool>, i: int) -> int
    decreases exists.len() - i,
{
    if i < 0 || i >= exists.len() {
        0
    } else if exists[i] {
        i
    } else {
        first_existing(exists, i + 1)
    }
}

/// Chooses among candidate files: the first that exists, or the first
/// where none does.
pub fn choose_existing(exists: &[bool]) -> (place: usize)
    ensures
        place == first_existing(exists@, 0),
        place < exists@.len() || place == 0,
{
    let mut i: usize = 0;
    while i < exists.len()
        invariant
            i <= exists@.len(),
            first_existing(exists@, 0) == first_existing(exists@, i as int),
        decreases exists@.len() - i,
    {
        if exists[i] {
            return i;
        }
        i = i + 1;
    }
    0
}

} // verus!
