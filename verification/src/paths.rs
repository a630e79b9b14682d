//! The path model: what a parent directory, a basename and a join mean,
//! stated over character sequences, together with the laws that hold of
//! them and the executable operations proved against the model.
//!
//! A path is an arbitrary string; `/` separates its components. The model
//! never touches the filesystem: every operation here is a pure function
//! of its argument strings.

use vstd::prelude::*;

verus! {

/// `s` with every trailing separator removed.
pub open spec fn trim_trailing_seps(s: Seq<char>) -> Seq<char>
    decreases s.len(),
{
    if s.len() > 0 && s.last() == '/' {
        trim_trailing_seps(s.drop_last())
    } else {
        s
    }
}

/// The index at which the final component of `s` begins: one past the
/// last separator, or `0` when `s` holds no separator.
pub open spec fn component_start(s: Seq<char>) -> nat
    decreases s.len(),
{
    if s.len() == 0 {
        0
    } else if s.last() == '/' {
        s.len()
    } else {
        component_start(s.drop_last())
    }
}

/// `s` with its trailing separators and trailing `.` components
/// removed, as many of them as stand at its end: `.` names the
/// directory itself, so it never counts as a component of its own.
/// What remains is empty or ends in a real component or in `..`.
pub open spec fn strip_trailing_dots(s: Seq<char>) -> Seq<char>
    decreases s.len(),
    via strip_trailing_dots_decreases
{
    let t = trim_trailing_seps(s);
    let b = component_start(t);
    if t.len() > 0 && t.subrange(b as int, t.len() as int) == seq!['.'] {
        strip_trailing_dots(t.subrange(0, b as int))
    } else {
        t
    }
}

#[via_fn]
proof fn strip_trailing_dots_decreases(s: Seq<char>) {
    lemma_trim_len(s);
    lemma_trim_no_trailing_sep(s);
    let t = trim_trailing_seps(s);
    if t.len() > 0 {
        lemma_component_start_le(t);
    }
}

/// The parent of a path: the path with its final component removed,
/// where trailing separators and `.` components do not count as a
/// component. A path without a component, or with a single component
/// and nothing before it, has no parent and yields the empty sequence;
/// a component directly under a root yields that root.
pub open spec fn parent_of(s: Seq<char>) -> Seq<char> {
    let t = strip_trailing_dots(s);
    if t.len() == 0 {
        Seq::<char>::empty()
    } else {
        let b = component_start(t);
        if b == 0 {
            Seq::<char>::empty()
        } else {
            let pre = t.subrange(0, b as int);
            let u = trim_trailing_seps(pre);
            if u.len() == 0 {
                pre
            } else {
                u
            }
        }
    }
}

/// The final component of a path, where trailing separators and `.`
/// components do not count. A path without a component, and the
/// special component `..`, have no name and yield the empty sequence.
pub open spec fn basename_of(s: Seq<char>) -> Seq<char> {
    let t = strip_trailing_dots(s);
    let name = t.subrange(component_start(t) as int, t.len() as int);
    if name == seq!['.', '.'] {
        Seq::<char>::empty()
    } else {
        name
    }
}

/// `base` and `leaf` joined with a separator inserted as needed; an
/// absolute `leaf` replaces `base`.
pub open spec fn joined(base: Seq<char>, leaf: Seq<char>) -> Seq<char> {
    if leaf.len() > 0 && leaf[0] == '/' {
        leaf
    } else if base.len() == 0 {
        leaf
    } else if base.last() == '/' {
        base + leaf
    } else {
        base + seq!['/'] + leaf
    }
}

/// `parent_of` applied `n` times to `s`.
pub open spec fn parent_iter(s: Seq<char>, n: nat) -> Seq<char>
    decreases n,
{
    if n == 0 {
        s
    } else {
        parent_iter(parent_of(s), (n - 1) as nat)
    }
}

/// Scans left from `end` past the trailing separators of
/// `path[..end]`: the prefix of that length is its trimmed form.
fn scan_past_seps(path: &str, end: usize) -> (r: usize)
    requires
        end <= path@.len(),
    ensures
        r <= end,
        trim_trailing_seps(path@.subrange(0, end as int)) == path@.subrange(0, r as int),
{
    let ghost s = path@;
    let mut e: usize = end;
    while e > 0 && path.get_char(e - 1) == '/'
        invariant
            e <= end,
            end <= s.len(),
            s == path@,
            trim_trailing_seps(s.subrange(0, e as int)) == trim_trailing_seps(
                s.subrange(0, end as int),
            ),
        decreases e,
    {
        proof {
            assert(s.subrange(0, e as int).drop_last() =~= s.subrange(0, (e - 1) as int));
        }
        e = e - 1;
    }
    e
}

/// Scans left from `end` over the final component of `path[..end]`:
/// the returned index is where that component starts.
fn scan_component_start(path: &str, end: usize) -> (r: usize)
    requires
        end <= path@.len(),
    ensures
        r <= end,
        component_start(path@.subrange(0, end as int)) == r,
{
    let ghost s = path@;
    let mut b: usize = end;
    while b > 0 && path.get_char(b - 1) != '/'
        invariant
            b <= end,
            end <= s.len(),
            s == path@,
            component_start(s.subrange(0, end as int)) == component_start(
                s.subrange(0, b as int),
            ),
        decreases b,
    {
        proof {
            assert(s.subrange(0, b as int).drop_last() =~= s.subrange(0, (b - 1) as int));
        }
        b = b - 1;
    }
    b
}

/// Scans left from `end` past the trailing separators and trailing `.`
/// components of `path[..end]`: the prefix of that length is its
/// stripped form.
fn scan_strip_dots(path: &str, end: usize) -> (r: usize)
    requires
        end <= path@.len(),
    ensures
        r <= end,
        strip_trailing_dots(path@.subrange(0, end as int)) == path@.subrange(0, r as int),
{
    let ghost s = path@;
    let mut e: usize = end;
    loop
        invariant
            e <= end,
            end <= s.len(),
            s == path@,
            strip_trailing_dots(s.subrange(0, e as int)) == strip_trailing_dots(
                s.subrange(0, end as int),
            ),
        decreases e,
    {
        let e1 = scan_past_seps(path, e);
        let b = scan_component_start(path, e1);
        let ghost t = trim_trailing_seps(s.subrange(0, e as int));
        proof {
            assert(t == s.subrange(0, e1 as int));
            assert(component_start(t) == b);
        }
        if e1 > 0 && e1 - b == 1 && path.get_char(b) == '.' {
            proof {
                assert(t.subrange(b as int, t.len() as int) =~= seq!['.']);
                assert(t.subrange(0, b as int) =~= s.subrange(0, b as int));
            }
            e = b;
        } else {
            proof {
                if e1 > 0 {
                    let name = t.subrange(b as int, t.len() as int);
                    if name == seq!['.'] {
                        assert(name.len() == 1);
                        assert(name[0] == s[b as int]);
                        assert(false);
                    }
                }
            }
            return e1;
        }
    }
}

/// The parent directory of `path`, or the empty string when `path` has
/// none. Never fails: a root, an empty path and a lone component all
/// degrade to an empty result.
pub fn get_dir(path: &str) -> (r: String)
    ensures
        r@ == parent_of(path@),
{
    let ghost s = path@;
    let n: usize = path.unicode_len();
    proof {
        assert(s.subrange(0, n as int) =~= s);
    }
    let e: usize = scan_strip_dots(path, n);
    let ghost t = strip_trailing_dots(s);
    proof {
        assert(t == s.subrange(0, e as int));
    }
    if e == 0 {
        return String::new();
    }
    let b: usize = scan_component_start(path, e);
    proof {
        assert(component_start(t) == b);
    }
    if b == 0 {
        return String::new();
    }
    let e2: usize = scan_past_seps(path, b);
    proof {
        assert(t.subrange(0, b as int) =~= s.subrange(0, b as int));
        assert(trim_trailing_seps(t.subrange(0, b as int)) == s.subrange(0, e2 as int));
    }
    if e2 == 0 {
        String::from_str(path.substring_char(0, b))
    } else {
        String::from_str(path.substring_char(0, e2))
    }
}

/// `dir_path` and `file_name` joined with a separator inserted as
/// needed; an absolute `file_name` replaces `dir_path`. Never fails.
pub fn join_path(dir_path: &str, file_name: &str) -> (r: String)
    ensures
        r@ == joined(dir_path@, file_name@),
{
    let leaf_len: usize = file_name.unicode_len();
    if leaf_len > 0 && file_name.get_char(0) == '/' {
        return String::from_str(file_name);
    }
    let base_len: usize = dir_path.unicode_len();
    if base_len == 0 {
        return String::from_str(file_name);
    }
    let mut r = String::from_str(dir_path);
    if dir_path.get_char(base_len - 1) != '/' {
        r.append("/");
        proof {
            reveal_strlit("/");
            assert("/"@ =~= seq!['/']);
        }
    }
    r.append(file_name);
    r
}

/// The final component of `path`, or the empty string when there is
/// none: an empty path, a root, a `..` component, or only `.`
/// components, which name no file of their own. Never fails.
pub fn get_file_name_from_path(path: &str) -> (r: String)
    ensures
        r@ == basename_of(path@),
{
    let ghost s = path@;
    let n: usize = path.unicode_len();
    proof {
        assert(s.subrange(0, n as int) =~= s);
    }
    let e: usize = scan_strip_dots(path, n);
    let ghost t = strip_trailing_dots(s);
    proof {
        assert(t == s.subrange(0, e as int));
    }
    let b: usize = scan_component_start(path, e);
    let ghost name = t.subrange(component_start(t) as int, t.len() as int);
    proof {
        assert(component_start(t) == b);
        assert(name =~= s.subrange(b as int, e as int));
    }
    let len: usize = e - b;
    if len == 2 && path.get_char(b) == '.' && path.get_char(b + 1) == '.' {
        proof {
            assert(name =~= seq!['.', '.']);
        }
        String::new()
    } else {
        proof {
            if name == seq!['.', '.'] {
                assert(s.subrange(b as int, e as int)[0] == '.');
                assert(s.subrange(b as int, e as int)[1] == '.');
                assert(false);
            }
        }
        String::from_str(path.substring_char(b, e))
    }
}

proof fn lemma_trim_len(s: Seq<char>)
    ensures
        trim_trailing_seps(s).len() <= s.len(),
    decreases s.len(),
{
    if s.len() > 0 && s.last() == '/' {
        lemma_trim_len(s.drop_last());
    }
}

proof fn lemma_trim_no_trailing_sep(s: Seq<char>)
    ensures
        trim_trailing_seps(s).len() > 0 ==> trim_trailing_seps(s).last() != '/',
    decreases s.len(),
{
    if s.len() > 0 && s.last() == '/' {
        lemma_trim_no_trailing_sep(s.drop_last());
    }
}

proof fn lemma_component_start_le(s: Seq<char>)
    ensures
        component_start(s) <= s.len(),
        s.len() > 0 && s.last() != '/' ==> component_start(s) < s.len(),
    decreases s.len(),
{
    if s.len() > 0 && s.last() != '/' {
        lemma_component_start_le(s.drop_last());
    }
}

proof fn lemma_component_start_sep(s: Seq<char>)
    ensures
        component_start(s) >= 1 ==> s[component_start(s) - 1] == '/',
    decreases s.len(),
{
    if s.len() > 0 && s.last() != '/' {
        lemma_component_start_sep(s.drop_last());
        lemma_component_start_le(s.drop_last());
    }
}

proof fn lemma_component_start_append(a: Seq<char>, f: Seq<char>)
    requires
        forall|i: int| 0 <= i < f.len() ==> f[i] != '/',
    ensures
        component_start(a + f) == component_start(a),
    decreases f.len(),
{
    if f.len() == 0 {
        assert(a + f =~= a);
    } else {
        assert((a + f).last() == f.last());
        assert((a + f).drop_last() =~= a + f.drop_last());
        lemma_component_start_append(a, f.drop_last());
    }
}

proof fn lemma_strip_len(s: Seq<char>)
    ensures
        strip_trailing_dots(s).len() <= s.len(),
    decreases s.len(),
{
    lemma_trim_len(s);
    lemma_trim_no_trailing_sep(s);
    let t = trim_trailing_seps(s);
    let b = component_start(t);
    if t.len() > 0 && t.subrange(b as int, t.len() as int) == seq!['.'] {
        lemma_component_start_le(t);
        lemma_strip_len(t.subrange(0, b as int));
    }
}

proof fn lemma_strip_no_trailing_sep(s: Seq<char>)
    ensures
        strip_trailing_dots(s).len() > 0 ==> strip_trailing_dots(s).last() != '/',
    decreases s.len(),
{
    lemma_trim_len(s);
    lemma_trim_no_trailing_sep(s);
    let t = trim_trailing_seps(s);
    let b = component_start(t);
    if t.len() > 0 && t.subrange(b as int, t.len() as int) == seq!['.'] {
        lemma_component_start_le(t);
        lemma_strip_no_trailing_sep(t.subrange(0, b as int));
    }
}

/// Taking the parent of a non-empty path strictly shortens it; the empty
/// path is its own parent. Together these bound every parent chain.
pub proof fn lemma_parent_shrinks(s: Seq<char>)
    ensures
        s.len() > 0 ==> parent_of(s).len() < s.len(),
        s.len() == 0 ==> parent_of(s) == Seq::<char>::empty(),
{
    let t = strip_trailing_dots(s);
    lemma_strip_len(s);
    lemma_strip_no_trailing_sep(s);
    if t.len() > 0 {
        let b = component_start(t);
        lemma_component_start_le(t);
        if b > 0 {
            let pre = t.subrange(0, b as int);
            lemma_trim_len(pre);
        }
    }
}

/// Parent chains terminate: applying `parent_of` to any path at least
/// as many times as the path has characters yields the empty path.
pub proof fn lemma_parent_chain_terminates(s: Seq<char>, n: nat)
    requires
        n >= s.len(),
    ensures
        parent_iter(s, n) == Seq::<char>::empty(),
    decreases s.len(), n,
{
    if n == 0 {
        assert(s =~= Seq::<char>::empty());
    } else {
        lemma_parent_shrinks(s);
        lemma_parent_chain_terminates(parent_of(s), (n - 1) as nat);
    }
}

/// Joining a single plain component onto any base and taking the
/// basename of the result gives the component back. The component must
/// be non-empty, hold no separator, and not be one of the special
/// components `.` and `..`, which have no basename.
pub proof fn lemma_basename_of_joined(base: Seq<char>, leaf: Seq<char>)
    requires
        leaf.len() > 0,
        forall|i: int| 0 <= i < leaf.len() ==> leaf[i] != '/',
        leaf != seq!['.'],
        leaf != seq!['.', '.'],
    ensures
        basename_of(joined(base, leaf)) == leaf,
{
    let j = joined(base, leaf);
    assert(leaf[0] != '/');
    assert(leaf.last() != '/');
    if base.len() == 0 {
        assert(j == leaf);
        assert(trim_trailing_seps(j) == j);
        assert(Seq::<char>::empty() + leaf =~= leaf);
        lemma_component_start_append(Seq::<char>::empty(), leaf);
        assert(component_start(j) == 0);
        assert(j.subrange(0, j.len() as int) =~= leaf);
    } else if base.last() == '/' {
        assert(j == base + leaf);
        assert(j.last() == leaf.last());
        assert(trim_trailing_seps(j) == j);
        lemma_component_start_append(base, leaf);
        assert(component_start(base) == base.len());
        assert(j.subrange(base.len() as int, j.len() as int) =~= leaf);
    } else {
        let a = base + seq!['/'];
        assert(j == a + leaf);
        assert(j.last() == leaf.last());
        assert(trim_trailing_seps(j) == j);
        lemma_component_start_append(a, leaf);
        assert(a.last() == '/');
        assert(component_start(a) == a.len());
        assert(j.subrange(a.len() as int, j.len() as int) =~= leaf);
    }
    assert(j.subrange(component_start(j) as int, j.len() as int) == leaf);
    assert(strip_trailing_dots(j) == j);
}

} // verus!
