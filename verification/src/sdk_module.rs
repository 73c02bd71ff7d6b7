//! How a plugin names the SDK packages it uses from Lua: `require` of an
//! `sdk:` module, the files of a package and the commands it runs.
use vstd::prelude::*;
use crate::paths::{path_join, push_path};
use crate::strs::{
    chars_of, find_char_in, split_char, split_first, split_text, starts_with, string_from,
    trim_end_char, trim_start_char,
};

verus! {

/// `s` without the `.` at either end (`str::trim_matches('.')`).
pub open spec fn trim_dots(s: Seq<char>) -> Seq<char> {
    trim_end_char(trim_start_char(s, '.'), '.')
}

/// The module name after the `sdk:` prefix, or the whole name where it has
/// none.
pub open spec fn without_prefix(m: Seq<char>) -> Seq<char> {
    if starts_with(m, "sdk:"@) {
        m.subrange(4, m.len() as int)
    } else {
        m
    }
}

/// The SDK entry that a `require` of `m` asks for: the name after `sdk:`
/// up to the first `/`; nothing for a module without the `sdk:` prefix.
pub open spec fn module_entry(m: Seq<char>) -> Option<Seq<char>> {
    if starts_with(m, "sdk:"@) {
        Some(split_first(without_prefix(m), '/').0)
    } else {
        None
    }
}

/// The directories of a module under its package's directory: the parts of
/// the name after the first `/`, each without dots at its ends.
pub open spec fn module_segments(m: Seq<char>) -> Seq<Seq<char>> {
    split_char(without_prefix(m), '/').drop_first().map_values(|p: Seq<char>| trim_dots(p))
}

/// `base` with each of `parts` pushed onto it in turn.
pub open spec fn join_all(base: Seq<char>, parts: Seq<Seq<char>>) -> Seq<char>
    decreases parts.len(),
{
    if parts.len() == 0 {
        base
    } else {
        path_join(join_all(base, parts.drop_last()), parts.last())
    }
}

/// A name that may stand for a file or a command of a package: it holds no
/// `/` and no `\`.
pub open spec fn plain_name(n: Seq<char>) -> bool {
    !n.contains('/') && !n.contains('\\')
}

fn trim_dots_text(s: &str) -> (r: String)
    ensures
        r@ == trim_dots(s@),
{
    let v = chars_of(s);
    let mut lo: usize = 0;
    assert(v@.subrange(0, v.len() as int) == v@);
    while lo < v.len() && v[lo] == '.'
        invariant
            lo <= v.len(),
            v@ == s@,
            trim_start_char(s@, '.') == trim_start_char(v@.subrange(lo as int, v.len() as int), '.'),
        decreases v.len() - lo,
    {
        assert(v@.subrange(lo + 1, v.len() as int) == v@.subrange(lo as int, v.len() as int).drop_first());
        lo += 1;
    }
    let ghost t = v@.subrange(lo as int, v.len() as int);
    assert(trim_start_char(t, '.') == t);
    let mut hi: usize = v.len();
    while hi > lo && v[hi - 1] == '.'
        invariant
            lo <= hi <= v.len(),
            v@ == s@,
            trim_end_char(t, '.') == trim_end_char(v@.subrange(lo as int, hi as int), '.'),
        decreases hi,
    {
        assert(v@.subrange(lo as int, hi - 1) == v@.subrange(lo as int, hi as int).drop_last());
        hi -= 1;
    }
    assert(trim_end_char(v@.subrange(lo as int, hi as int), '.') == v@.subrange(lo as int, hi as int));
    string_from(&v, lo, hi)
}

fn has_prefix(s: &str) -> (r: bool)
    ensures
        r == starts_with(s@, "sdk:"@),
{
    proof {
        reveal_strlit("sdk:");
    }
    let v = chars_of(s);
    if v.len() < 4 {
        return false;
    }
    let r = v[0] == 's' && v[1] == 'd' && v[2] == 'k' && v[3] == ':';
    proof {
        if r {
            assert(v@.subrange(0, 4) =~= "sdk:"@);
        } else {
            assert(v@.subrange(0, 4)[0] != 's' || v@.subrange(0, 4)[1] != 'd' || v@.subrange(0, 4)[2] != 'k'
                || v@.subrange(0, 4)[3] != ':');
        }
    }
    r
}

fn unprefixed(s: &str) -> (r: Vec<char>)
    ensures
        r@ == without_prefix(s@),
{
    let v = chars_of(s);
    proof {
        reveal_strlit("sdk:");
    }
    if has_prefix(s) {
        let mut out: Vec<char> = Vec::new();
        let mut i: usize = 4;
        assert(v@.subrange(4, 4) =~= Seq::<char>::empty());
        while i < v.len()
            invariant
                4 <= i <= v.len(),
                v@ == s@,
                out@ == v@.subrange(4, i as int),
            decreases v.len() - i,
        {
            out.push(v[i]);
            assert(v@.subrange(4, i + 1) == v@.subrange(4, i as int).push(v@[i as int]));
            i += 1;
        }
        out
    } else {
        v
    }
}

/// The SDK entry that a `require` of `module` asks for, or `None` where the
/// module is not an `sdk:` module.
pub fn sdk_module_entry(module: &str) -> (r: Option<String>)
    ensures
        match module_entry(module@) {
            Some(n) => r matches Some(s) && s@ == n,
            None => r is None,
        },
{
    if !has_prefix(module) {
        return None;
    }
    let rest = unprefixed(module);
    let len = rest.len();
    assert(rest@.subrange(0, len as int) == rest@);
    proof {
        crate::strs::lemma_find_char(rest@, '/');
    }
    match find_char_in(&rest, 0, len, '/') {
        Some(i) => Some(string_from(&rest, 0, i)),
        None => Some(string_from(&rest, 0, len)),
    }
}

/// The directory that the module `module` stands for inside the directory
/// `package_dir` of its package.
pub fn sdk_module_dir(package_dir: &str, module: &str) -> (r: String)
    ensures
        r@ == join_all(package_dir@, module_segments(module@)),
{
    let rest = string_from(&unprefixed(module), 0, unprefixed(module).len());
    proof {
        let u = without_prefix(module@);
        assert(u.subrange(0, u.len() as int) == u);
    }
    let parts = split_text(rest.as_str(), '/');
    let ghost all = parts@.map_values(|t: String| t@);
    proof {
        crate::strs::lemma_split_char_len(rest@, '/');
    }
    let ghost segs = module_segments(module@);
    let mut dir = crate::strs::str_to_string(package_dir);
    let mut i: usize = 1;
    assert(segs.take(0) =~= Seq::<Seq<char>>::empty());
    while i < parts.len()
        invariant
            1 <= i <= parts.len(),
            all == parts@.map_values(|t: String| t@),
            all == split_char(rest@, '/'),
            rest@ == without_prefix(module@),
            segs == all.drop_first().map_values(|p: Seq<char>| trim_dots(p)),
            dir@ == join_all(package_dir@, segs.take(i - 1)),
        decreases parts.len() - i,
    {
        let seg = trim_dots_text(parts[i].as_str());
        proof {
            assert(all[i as int] == parts@[i as int]@);
            assert(segs[i - 1] == trim_dots(all[i as int]));
            assert(segs.take(i as int).drop_last() =~= segs.take(i - 1));
        }
        push_path(&mut dir, seg.as_str());
        i += 1;
    }
    proof {
        assert(segs.len() == parts.len() - 1);
        assert(segs.take(parts.len() - 1) =~= segs);
    }
    dir
}

/// Whether `name` may stand for a file or a command: it holds no `/` and
/// no `\`.
pub fn is_plain_name(name: &str) -> (r: bool)
    ensures
        r == plain_name(name@),
{
    let v = chars_of(name);
    let mut i: usize = 0;
    while i < v.len()
        invariant
            i <= v.len(),
            v@ == name@,
            forall|j: int| 0 <= j < i ==> v@[j] != '/' && v@[j] != '\\',
        decreases v.len() - i,
    {
        if v[i] == '/' || v[i] == '\\' {
            proof {
                assert(name@.contains(v@[i as int]));
            }
            return false;
        }
        i += 1;
    }
    proof {
        assert(!name@.contains('/')) by {
            if name@.contains('/') {
                let j = choose|j: int| 0 <= j < name@.len() && name@[j] == '/';
                assert(v@[j] != '/');
            }
        }
        assert(!name@.contains('\\')) by {
            if name@.contains('\\') {
                let j = choose|j: int| 0 <= j < name@.len() && name@[j] == '\\';
                assert(v@[j] != '\\');
            }
        }
    }
    true
}

/// The path of the file `name` of a module whose directory is `dir`: the
/// name without dots at its ends, pushed onto the directory; `None` where
/// the name is not plain.
pub fn sdk_file_path(dir: &str, name: &str) -> (r: Option<String>)
    ensures
        plain_name(name@) ==> (r matches Some(p) && p@ == path_join(dir@, trim_dots(name@))),
        !plain_name(name@) ==> r is None,
{
    if !is_plain_name(name) {
        return None;
    }
    let n = trim_dots_text(name);
    let mut p = crate::strs::str_to_string(dir);
    push_path(&mut p, n.as_str());
    Some(p)
}

/// The command that the key `key` of a module runs, and whether its
/// caller wants its output (`get_command`); `None` where the key is not
/// plain.
pub fn sdk_command(key: &str) -> (r: Option<(String, bool)>)
    ensures
        plain_name(key@) ==> (r matches Some((c, out)) && out == starts_with(key@, "get_"@) && c@ == (if out {
            key@.subrange(4, key@.len() as int)
        } else {
            key@
        })),
        !plain_name(key@) ==> r is None,
{
    proof {
        reveal_strlit("get_");
    }
    if !is_plain_name(key) {
        return None;
    }
    let v = chars_of(key);
    let out = v.len() >= 4 && v[0] == 'g' && v[1] == 'e' && v[2] == 't' && v[3] == '_';
    proof {
        if v.len() >= 4 {
            if out {
                assert(v@.subrange(0, 4) =~= "get_"@);
            } else {
                assert(v@.subrange(0, 4)[0] != 'g' || v@.subrange(0, 4)[1] != 'e' || v@.subrange(0, 4)[2] != 't'
                    || v@.subrange(0, 4)[3] != '_');
            }
        }
    }
    if out {
        Some((string_from(&v, 4, v.len()), true))
    } else {
        Some((string_from(&v, 0, v.len()), false))
    }
}

} // verus!
