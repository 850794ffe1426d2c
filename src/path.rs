//! Lexical path handling with `/` as the separator: joining, and resolving
//! `.` and `..` components without looking at the filesystem.

use vstd::prelude::*;
use crate::text::{split_on, split_str, views};

verus! {

pub open spec fn is_dot(s: Seq<char>) -> bool {
    s == seq!['.']
}

pub open spec fn is_dot_dot(s: Seq<char>) -> bool {
    s == seq!['.', '.']
}

/// A path that does not depend on the current directory: it starts with a
/// separator, or with a drive letter, `:` and a separator.
pub open spec fn is_absolute_path(p: Seq<char>) -> bool {
    (p.len() > 0 && (p[0] == '/' || p[0] == '\\')) || (p.len() >= 3 && p[1] == ':' && (p[2] == '/'
        || p[2] == '\\'))
}

/// The components left from `segs` once empty and `.` components are
/// dropped and each `..` cancels the component before it. A `..` with
/// nothing to cancel stays, except at the root of an absolute path.
pub open spec fn normalize_components(segs: Seq<Seq<char>>, rooted: bool) -> Seq<Seq<char>>
    decreases segs.len(),
{
    if segs.len() == 0 {
        Seq::<Seq<char>>::empty()
    } else {
        let acc = normalize_components(segs.drop_last(), rooted);
        let s = segs.last();
        if s.len() == 0 || is_dot(s) {
            acc
        } else if is_dot_dot(s) {
            if acc.len() > 0 && !is_dot_dot(acc.last()) {
                acc.drop_last()
            } else if rooted {
                acc
            } else {
                acc.push(s)
            }
        } else {
            acc.push(s)
        }
    }
}

/// Components joined by `/`.
pub open spec fn join_components(cs: Seq<Seq<char>>) -> Seq<char>
    decreases cs.len(),
{
    if cs.len() == 0 {
        Seq::<char>::empty()
    } else if cs.len() == 1 {
        cs[0]
    } else {
        join_components(cs.drop_last()) + seq!['/'] + cs.last()
    }
}

pub open spec fn is_rooted(p: Seq<char>) -> bool {
    p.len() > 0 && p[0] == '/'
}

/// `p` with `.` and `..` resolved and repeated or trailing separators removed.
pub open spec fn normalize_path_spec(p: Seq<char>) -> Seq<char> {
    (if is_rooted(p) {
        seq!['/']
    } else {
        Seq::<char>::empty()
    }) + join_components(normalize_components(split_on(p, '/'), is_rooted(p)))
}

/// `rel` under `base`: `base`, a separator, then `rel`; just `rel` when
/// `base` is empty.
pub open spec fn join_path(base: Seq<char>, rel: Seq<char>) -> Seq<char> {
    if base.len() == 0 {
        rel
    } else {
        base + seq!['/'] + rel
    }
}

/// `name` inside directory `dir`: joined by `/`, unless `dir` is empty or
/// already ends in a separator.
pub open spec fn join_dir(dir: Seq<char>, name: Seq<char>) -> Seq<char> {
    if dir.len() == 0 {
        name
    } else if dir.last() == '/' || dir.last() == '\\' {
        dir + name
    } else {
        dir + seq!['/'] + name
    }
}

/// Returns `name` inside directory `dir`.
pub fn join_dir_str(dir: &str, name: &str) -> (r: String)
    ensures
        r@ == join_dir(dir@, name@),
{
    let n = dir.unicode_len();
    let mut out = String::from_str(dir);
    if n > 0 {
        let last = dir.get_char(n - 1);
        if last != '/' && last != '\\' {
            out.append("/");
            proof {
                reveal_strlit("/");
            }
        }
    }
    out.append(name);
    assert(out@ =~= join_dir(dir@, name@));
    out
}

fn is_dot_str(s: &str) -> (r: bool)
    ensures
        r == is_dot(s@),
{
    let n = s.unicode_len();
    let r = n == 1 && s.get_char(0) == '.';
    proof {
        if r {
            assert(s@ =~= seq!['.']);
        } else if s@ == seq!['.'] {
            assert(s@.len() == 1 && s@[0] == '.');
        }
    }
    r
}

fn is_dot_dot_str(s: &str) -> (r: bool)
    ensures
        r == is_dot_dot(s@),
{
    let n = s.unicode_len();
    let r = n == 2 && s.get_char(0) == '.' && s.get_char(1) == '.';
    proof {
        if r {
            assert(s@ =~= seq!['.', '.']);
        } else if s@ == seq!['.', '.'] {
            assert(s@.len() == 2 && s@[0] == '.' && s@[1] == '.');
        }
    }
    r
}

pub fn is_absolute(p: &str) -> (r: bool)
    ensures
        r == is_absolute_path(p@),
{
    let n = p.unicode_len();
    if n > 0 {
        let c = p.get_char(0);
        if c == '/' || c == '\\' {
            return true;
        }
    }
    n >= 3 && p.get_char(1) == ':' && (p.get_char(2) == '/' || p.get_char(2) == '\\')
}

/// Resolves `.` and `..` in `p` and drops repeated and trailing separators.
pub fn normalize_path(p: &str) -> (r: String)
    ensures
        r@ == normalize_path_spec(p@),
{
    let parts = split_str(p, '/');
    let ghost segs = views(parts@);
    let rooted = p.unicode_len() > 0 && p.get_char(0) == '/';
    let mut stack: Vec<String> = Vec::new();
    let mut i: usize = 0;
    assert(segs.subrange(0, 0) =~= Seq::<Seq<char>>::empty());
    assert(views(stack@) =~= Seq::<Seq<char>>::empty());
    while i < parts.len()
        invariant
            i <= parts@.len(),
            segs == views(parts@),
            rooted == is_rooted(p@),
            views(stack@) == normalize_components(segs.subrange(0, i as int), rooted),
        decreases parts@.len() - i,
    {
        let ghost prefix = segs.subrange(0, (i + 1) as int);
        assert(prefix.drop_last() =~= segs.subrange(0, i as int));
        assert(prefix.last() == parts@[i as int]@);
        let ghost before = views(stack@);
        let part = parts[i].as_str();
        if part.unicode_len() == 0 || is_dot_str(part) {
        } else if is_dot_dot_str(part) {
            let len = stack.len();
            if len > 0 && !is_dot_dot_str(stack[len - 1].as_str()) {
                stack.pop();
                assert(views(stack@) =~= before.drop_last());
            } else if rooted {
            } else {
                stack.push(parts[i].clone());
                assert(views(stack@) =~= before.push(parts@[i as int]@));
            }
        } else {
            stack.push(parts[i].clone());
            assert(views(stack@) =~= before.push(parts@[i as int]@));
        }
        i = i + 1;
    }
    assert(segs.subrange(0, parts@.len() as int) =~= segs);
    let ghost cs = views(stack@);
    let mut out = if rooted {
        String::from_str("/")
    } else {
        String::new()
    };
    proof {
        reveal_strlit("/");
    }
    let ghost head = out@;
    assert(head == (if is_rooted(p@) {
        seq!['/']
    } else {
        Seq::<char>::empty()
    }));
    let mut k: usize = 0;
    assert(cs.subrange(0, 0) =~= Seq::<Seq<char>>::empty());
    assert(out@ =~= head + join_components(cs.subrange(0, 0)));
    while k < stack.len()
        invariant
            k <= stack@.len(),
            cs == views(stack@),
            out@ == head + join_components(cs.subrange(0, k as int)),
        decreases stack@.len() - k,
    {
        let ghost next = cs.subrange(0, (k + 1) as int);
        assert(next.drop_last() =~= cs.subrange(0, k as int));
        assert(next.last() == stack@[k as int]@);
        if k > 0 {
            out.append("/");
            proof {
                reveal_strlit("/");
            }
        }
        out.append(stack[k].as_str());
        assert(out@ =~= head + join_components(next));
        k = k + 1;
    }
    assert(cs.subrange(0, stack@.len() as int) =~= cs);
    out
}

/// Index of the last `c` in `s`, or -1.
pub open spec fn last_index_of(s: Seq<char>, c: char) -> int
    decreases s.len(),
{
    if s.len() == 0 {
        -1
    } else if s.last() == c {
        s.len() - 1
    } else {
        last_index_of(s.drop_last(), c)
    }
}

proof fn lemma_last_index_bounds(s: Seq<char>, c: char)
    ensures
        -1 <= last_index_of(s, c) < s.len(),
    decreases s.len(),
{
    if s.len() > 0 {
        lemma_last_index_bounds(s.drop_last(), c);
    }
}

/// What follows the last separator of `p`.
pub open spec fn file_name(p: Seq<char>) -> Seq<char> {
    p.subrange(last_index_of(p, '/') + 1, p.len() as int)
}

/// What follows the last `.` of `name`; empty when there is no `.` or the
/// only one starts the name.
pub open spec fn extension(name: Seq<char>) -> Seq<char> {
    let i = last_index_of(name, '.');
    if i <= 0 {
        Seq::<char>::empty()
    } else {
        name.subrange(i + 1, name.len() as int)
    }
}

/// `s` spells lower-case `t`, letters of `s` in either ASCII case.
pub open spec fn equals_ignoring_ascii_case(s: Seq<char>, t: Seq<char>) -> bool {
    s.len() == t.len() && forall|i: int|
        0 <= i < s.len() ==> (#[trigger] s[i] == t[i] || (65 <= s[i] as u32 <= 90 && s[i] as u32
            + 32 == t[i] as u32))
}

/// The extensions that Windows runs directly.
pub open spec fn has_executable_extension_spec(p: Seq<char>) -> bool {
    let e = extension(file_name(p));
    equals_ignoring_ascii_case(e, seq!['e', 'x', 'e']) || equals_ignoring_ascii_case(
        e,
        seq!['b', 'a', 't'],
    ) || equals_ignoring_ascii_case(e, seq!['c', 'm', 'd']) || equals_ignoring_ascii_case(
        e,
        seq!['c', 'o', 'm'],
    )
}

fn find_last(s: &str, c: char) -> (r: usize)
    ensures
        r as int == last_index_of(s@, c) + 1,
        r <= s@.len(),
{
    proof {
        lemma_last_index_bounds(s@, c);
    }
    let n = s.unicode_len();
    let mut i: usize = n;
    assert(s@.subrange(0, n as int) =~= s@);
    while i > 0
        invariant
            i <= n,
            n == s@.len(),
            last_index_of(s@, c) == last_index_of(s@.subrange(0, i as int), c),
        decreases i,
    {
        let ghost prefix = s@.subrange(0, i as int);
        assert(prefix.drop_last() =~= s@.subrange(0, i - 1));
        if s.get_char(i - 1) == c {
            return i;
        }
        i = i - 1;
    }
    i
}

fn letters_match(s: &str, t: &str) -> (r: bool)
    requires
        t@.len() == 3,
    ensures
        r == equals_ignoring_ascii_case(s@, t@),
{
    if s.unicode_len() != 3 {
        return false;
    }
    let mut i: usize = 0;
    while i < 3
        invariant
            s@.len() == 3,
            t@.len() == 3,
            i <= 3,
            forall|j: int|
                0 <= j < i ==> (#[trigger] s@[j] == t@[j] || (65 <= s@[j] as u32 <= 90 && s@[j] as u32
                    + 32 == t@[j] as u32)),
        decreases 3 - i,
    {
        let a = s.get_char(i);
        let b = t.get_char(i);
        let code = a as u32;
        if !(a == b || (65 <= code && code <= 90 && code + 32 == b as u32)) {
            return false;
        }
        i = i + 1;
    }
    true
}

/// Whether the file that `p` names ends in `.exe`, `.bat`, `.cmd` or `.com`,
/// in any ASCII case.
pub fn has_executable_extension(p: &str) -> (r: bool)
    ensures
        r == has_executable_extension_spec(p@),
{
    let n = p.unicode_len();
    let start = find_last(p, '/');
    let name = p.substring_char(start, n);
    assert(name@ == file_name(p@));
    let m = name.unicode_len();
    let dot = find_last(name, '.');
    let ext = if dot <= 1 {
        ""
    } else {
        name.substring_char(dot, m)
    };
    proof {
        reveal_strlit("");
    }
    assert(ext@ =~= extension(name@));
    proof {
        reveal_strlit("exe");
        reveal_strlit("bat");
        reveal_strlit("cmd");
        reveal_strlit("com");
    }
    assert("exe"@ =~= seq!['e', 'x', 'e']);
    assert("bat"@ =~= seq!['b', 'a', 't']);
    assert("cmd"@ =~= seq!['c', 'm', 'd']);
    assert("com"@ =~= seq!['c', 'o', 'm']);
    letters_match(ext, "exe") || letters_match(ext, "bat") || letters_match(ext, "cmd")
        || letters_match(ext, "com")
}

} // verus!
