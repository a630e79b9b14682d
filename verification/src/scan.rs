//! Directory scans: every file directly inside a caller-supplied
//! directory whose name ends in a given suffix, found by evaluating a
//! glob pattern against the filesystem.
//!
//! The pattern is built here and proved to be exactly
//! `<directory>/*.<suffix>`; glob metacharacters in the directory are
//! passed through unescaped, a known limitation kept on purpose. Only
//! the filesystem walk itself stands behind a trusted wrapper: which
//! paths come back depends on the directory contents, so the operations
//! promise only the shape every returned path must have — it ends with
//! the pattern's literal tail, `.list` or `.table` for the fixed scans.
//! No scan ever fails: a missing directory and a malformed pattern both
//! degrade to an empty list.

use vstd::prelude::*;

verus! {

/// `t` is a suffix of `s`.
pub open spec fn ends_with(s: Seq<char>, t: Seq<char>) -> bool {
    t.len() <= s.len() && s.subrange(s.len() - t.len(), s.len() as int) == t
}

/// A non-empty suffix of the pattern `p` holding no glob metacharacter
/// and no separator: the glob engine can match such a tail only
/// literally, character for character.
pub open spec fn literal_tail(p: Seq<char>, t: Seq<char>) -> bool {
    &&& t.len() > 0
    &&& ends_with(p, t)
    &&& forall|i: int|
        0 <= i < t.len() ==> t[i] != '*' && t[i] != '?' && t[i] != '[' && t[i] != ']' && t[i]
            != '/'
}

/// The glob pattern selecting the files of `suffix` directly inside
/// `dir`: the characters of `dir`, then `/*.`, then the suffix.
pub open spec fn scan_pattern(dir: Seq<char>, suffix: Seq<char>) -> Seq<char> {
    dir + seq!['/', '*', '.'] + suffix
}

/// Builds the pattern `<dir>/*.<suffix>`.
pub fn suffix_pattern(dir: &str, suffix: &str) -> (r: String)
    ensures
        r@ == scan_pattern(dir@, suffix@),
{
    let mut r = String::from_str(dir);
    r.append("/*.");
    proof {
        reveal_strlit("/*.");
        assert("/*."@ =~= seq!['/', '*', '.']);
    }
    r.append(suffix);
    r
}

/// Relies on glob::glob: walks the filesystem and yields every path
/// matching the pattern, in alphabetical order. A pattern that does not
/// parse yields no paths, an entry whose directory cannot be read is
/// dropped, and a name that is not valid text is skipped, as the crate
/// documents. Which paths come back depends on the directory contents,
/// so of every outcome only the pattern's shape is promised: a trailing
/// run of the pattern free of metacharacters and separators either is
/// matched literally against the end of each name (an unclosed bracket
/// before it makes the pattern invalid instead), or names a file the
/// engine checks on disk and yields as written — so every yielded path
/// ends with that run.
#[verifier::external_body]
fn glob_matches(pattern: &str) -> (r: Vec<String>)
    ensures
        forall|i: int, t: Seq<char>|
            0 <= i < r@.len() && literal_tail(pattern@, t) ==> #[trigger] ends_with(r@[i]@, t),
{
    match glob::glob(pattern) {
        Ok(entries) => entries
            .filter_map(|entry| entry.ok())
            .map(|path| path.to_string_lossy().into_owned())
            .collect(),
        Err(_) => Vec::new(),
    }
}

/// Every path the filesystem reports under the pattern
/// `<dir>/*.<suffix>`: each ends with the pattern's literal tail, and
/// the rest — order and contents — is whatever the walk yields. A
/// missing directory or a malformed pattern gives the empty list, never
/// an error.
pub fn list_by_suffix(dir: &str, suffix: &str) -> (r: Vec<String>)
    ensures
        forall|i: int, t: Seq<char>|
            0 <= i < r@.len() && literal_tail(scan_pattern(dir@, suffix@), t)
                ==> #[trigger] ends_with(r@[i]@, t),
{
    let pattern = suffix_pattern(dir, suffix);
    glob_matches(pattern.as_str())
}

/// The scan fixed to the `.list` category: every returned path ends in
/// `.list`.
pub fn get_list_file_names(setting_dir_path: &str) -> (r: Vec<String>)
    ensures
        forall|i: int| 0 <= i < r@.len() ==> #[trigger] ends_with(r@[i]@, ".list"@),
{
    let r = list_by_suffix(setting_dir_path, "list");
    proof {
        reveal_strlit("list");
        reveal_strlit(".list");
        let p = scan_pattern(setting_dir_path@, "list"@);
        assert(p.subrange(p.len() - 5, p.len() as int) =~= ".list"@);
        assert(literal_tail(p, ".list"@));
    }
    r
}

/// The scan fixed to the `.table` category: every returned path ends in
/// `.table`.
pub fn get_table_file_names(setting_dir_path: &str) -> (r: Vec<String>)
    ensures
        forall|i: int| 0 <= i < r@.len() ==> #[trigger] ends_with(r@[i]@, ".table"@),
{
    let r = list_by_suffix(setting_dir_path, "table");
    proof {
        reveal_strlit("table");
        reveal_strlit(".table");
        let p = scan_pattern(setting_dir_path@, "table"@);
        assert(p.subrange(p.len() - 6, p.len() as int) =~= ".table"@);
        assert(literal_tail(p, ".table"@));
    }
    r
}

} // verus!
