//! Which files do not belong in the engine's repository.

use crate::text;
use vstd::prelude::*;

verus! {

/// A pattern and a name agree: `*` stands for any run of characters.
pub open spec fn glob(p: Seq<char>, n: Seq<char>) -> bool
    decreases p.len() + n.len(),
{
    if p.len() == 0 {
        n.len() == 0
    } else if p[0] == '*' {
        glob(p.drop_first(), n) || (n.len() > 0 && glob(p, n.drop_first()))
    } else {
        n.len() > 0 && p[0] == n[0] && glob(p.drop_first(), n.drop_first())
    }
}

/// A pattern without `*` asks only how the name begins.
pub open spec fn glob_pattern(p: Seq<char>) -> Seq<char> {
    if p.contains('*') {
        p
    } else {
        p.push('*')
    }
}

/// Characters of a text.
pub fn chars_of(t: &str) -> (v: Vec<char>)
    ensures
        v@ == t@,
{
    let n: usize = t.unicode_len();
    let mut v: Vec<char> = Vec::new();
    let mut i: usize = 0;
    while i < n
        invariant
            i <= n,
            n == t@.len(),
            v@ == t@.take(i as int),
        decreases n - i,
    {
        v.push(t.get_char(i));
        i += 1;
        assert(v@ =~= t@.take(i as int));
    }
    assert(t@.take(n as int) =~= t@);
    v
}

fn glob_from(p: &Vec<char>, i: usize, n: &Vec<char>, j: usize) -> (yes: bool)
    requires
        i <= p@.len(),
        j <= n@.len(),
    ensures
        yes == glob(p@.skip(i as int), n@.skip(j as int)),
    decreases p@.len() - i + n@.len() - j,
{
    let ghost ps = p@.skip(i as int);
    let ghost ns = n@.skip(j as int);
    if i == p.len() {
        return j == n.len();
    }
    assert(ps[0] == p@[i as int]);
    assert(ps.drop_first() =~= p@.skip(i + 1));
    if j < n.len() {
        assert(ns[0] == n@[j as int]);
        assert(ns.drop_first() =~= n@.skip(j + 1));
    }
    if p[i] == '*' {
        glob_from(p, i + 1, n, j) || (j < n.len() && glob_from(p, i, n, j + 1))
    } else {
        j < n.len() && p[i] == n[j] && glob_from(p, i + 1, n, j + 1)
    }
}

fn glob_chars(pattern: &str, name: &Vec<char>) -> (yes: bool)
    ensures
        yes == glob(glob_pattern(pattern@), name@),
{
    let mut p = chars_of(pattern);
    let mut star: bool = false;
    let mut i: usize = 0;
    while i < p.len()
        invariant
            i <= p@.len(),
            star == p@.take(i as int).contains('*'),
        decreases p@.len() - i,
    {
        let ghost taken = p@.take(i as int);
        if p[i] == '*' {
            star = true;
        }
        proof {
            let more = p@.take(i + 1);
            assert(more =~= taken.push(p@[i as int]));
            if taken.contains('*') {
                let k = choose|k: int| 0 <= k < taken.len() && taken[k] == '*';
                assert(more[k] == '*');
            }
            if p@[i as int] == '*' {
                assert(more[i as int] == '*');
            }
            if more.contains('*') {
                let k = choose|k: int| 0 <= k < more.len() && more[k] == '*';
                if k < i {
                    assert(taken[k] == '*');
                }
            }
        }
        i += 1;
    }
    assert(p@.take(p@.len() as int) =~= p@);
    if !star {
        p.push('*');
    }
    assert(p@.skip(0) =~= p@);
    assert(name@.skip(0) =~= name@);
    glob_from(&p, 0, name, 0)
}

/// Does the name fit the pattern?
pub fn glob_match(pattern: &str, name: &str) -> (yes: bool)
    ensures
        yes == glob(glob_pattern(pattern@), name@),
{
    let n = chars_of(name);
    glob_chars(pattern, &n)
}

/// Lower case of an ASCII capital; any other character as it is.
pub open spec fn lower(c: char) -> char {
    if 'A' <= c && c <= 'Z' {
        ((c as u8) + 32) as char
    } else {
        c
    }
}

/// A text in lower case.
pub open spec fn lowered(t: Seq<char>) -> Seq<char> {
    Seq::new(t.len(), |i: int| lower(t[i]))
}

fn lower_chars(t: &str) -> (v: Vec<char>)
    ensures
        v@ == lowered(t@),
{
    let n: usize = t.unicode_len();
    let mut v: Vec<char> = Vec::new();
    let mut i: usize = 0;
    while i < n
        invariant
            i <= n,
            n == t@.len(),
            v@ == lowered(t@).take(i as int),
        decreases n - i,
    {
        let c: char = t.get_char(i);
        if c >= 'A' && c <= 'Z' {
            v.push(((c as u8) + 32) as char);
        } else {
            v.push(c);
        }
        i += 1;
        assert(v@ =~= lowered(t@).take(i as int));
    }
    assert(lowered(t@).take(n as int) =~= lowered(t@));
    v
}

fn begins(v: &Vec<char>, prefix: &str) -> (yes: bool)
    ensures
        yes == text::has_prefix(v@, prefix@),
{
    let n: usize = prefix.unicode_len();
    if v.len() < n {
        return false;
    }
    let mut i: usize = 0;
    while i < n
        invariant
            i <= n <= v@.len(),
            n == prefix@.len(),
            forall|k: int| 0 <= k < i ==> v@[k] == prefix@[k],
        decreases n - i,
    {
        if v[i] != prefix.get_char(i) {
            assert(v@.take(n as int)[i as int] != prefix@[i as int]);
            return false;
        }
        i += 1;
    }
    assert(v@.take(n as int) =~= prefix@);
    true
}

/// What follows the last slash.
pub open spec fn file_name(t: Seq<char>) -> Seq<char>
    decreases t.len(),
{
    if t.len() == 0 || t.last() == '/' {
        Seq::empty()
    } else {
        file_name(t.drop_last()).push(t.last())
    }
}

fn name_of(v: &Vec<char>) -> (out: Vec<char>)
    ensures
        out@ == file_name(v@),
{
    let n: usize = v.len();
    let mut start: usize = n;
    assert(v@.take(n as int) =~= v@);
    while start > 0 && v[start - 1] != '/'
        invariant
            start <= n,
            n == v@.len(),
            file_name(v@) == file_name(v@.take(start as int)) + v@.subrange(
                start as int,
                n as int,
            ),
        decreases start,
    {
        proof {
            let t = v@.take(start as int);
            assert(t.drop_last() =~= v@.take(start - 1));
            assert(file_name(v@.take(start - 1)).push(t.last()) + v@.subrange(
                start as int,
                n as int,
            ) =~= file_name(v@.take(start - 1)) + v@.subrange(start - 1, n as int));
        }
        start -= 1;
    }
    proof {
        let t = v@.take(start as int);
        assert(file_name(t) =~= Seq::empty());
    }
    let mut out: Vec<char> = Vec::new();
    let mut i: usize = start;
    while i < n
        invariant
            start <= i <= n,
            n == v@.len(),
            out@ == v@.subrange(start as int, i as int),
        decreases n - i,
    {
        out.push(v[i]);
        i += 1;
        assert(out@ =~= v@.subrange(start as int, i as int));
    }
    assert(out@ =~= file_name(v@));
    out
}

/// Directories that do not belong.
pub open spec fn forbidden_dir(l: Seq<char>) -> Option<Seq<char>> {
    if text::has_prefix(l, "training/"@) {
        Some("training/"@)
    } else if text::has_prefix(l, "runs/"@) {
        Some("runs/"@)
    } else if text::has_prefix(l, "gates/"@) {
        Some("gates/"@)
    } else if text::has_prefix(l, "data/"@) {
        Some("data/"@)
    } else if text::has_prefix(l, "weights/"@) {
        Some("weights/"@)
    } else {
        None
    }
}

fn find_dir(l: &Vec<char>) -> (d: Option<&'static str>)
    ensures
        match d {
            Some(t) => forbidden_dir(l@) == Some(t@),
            None => forbidden_dir(l@) is None,
        },
{
    if begins(l, "training/") {
        Some("training/")
    } else if begins(l, "runs/") {
        Some("runs/")
    } else if begins(l, "gates/") {
        Some("gates/")
    } else if begins(l, "data/") {
        Some("data/")
    } else if begins(l, "weights/") {
        Some("weights/")
    } else {
        None
    }
}

/// Patterns of files that do not belong; the first one that fits.
pub open spec fn forbidden_file(name: Seq<char>) -> Option<Seq<char>> {
    if glob(glob_pattern("*handoff*"@), name) {
        Some("*handoff*"@)
    } else if glob(glob_pattern("morning_brief*"@), name) {
        Some("morning_brief*"@)
    } else if glob(glob_pattern("session_*"@), name) {
        Some("session_*"@)
    } else if glob(glob_pattern("brief_*"@), name) {
        Some("brief_*"@)
    } else if glob(glob_pattern("progress.txt"@), name) {
        Some("progress.txt"@)
    } else if glob(glob_pattern("baseline_v*.txt"@), name) {
        Some("baseline_v*.txt"@)
    } else if glob(glob_pattern("*.log"@), name) {
        Some("*.log"@)
    } else if glob(glob_pattern("*.jsonl"@), name) {
        Some("*.jsonl"@)
    } else if glob(glob_pattern("*.db"@), name) {
        Some("*.db"@)
    } else if glob(glob_pattern("*.exe"@), name) {
        Some("*.exe"@)
    } else if glob(glob_pattern("*.dll"@), name) {
        Some("*.dll"@)
    } else if glob(glob_pattern("*.pt"@), name) {
        Some("*.pt"@)
    } else if glob(glob_pattern("*.pth"@), name) {
        Some("*.pth"@)
    } else if glob(glob_pattern("*.onnx"@), name) {
        Some("*.onnx"@)
    } else if glob(glob_pattern("*.npz"@), name) {
        Some("*.npz"@)
    } else if glob(glob_pattern("*.patch"@), name) {
        Some("*.patch"@)
    } else {
        None
    }
}

fn find_file(name: &Vec<char>) -> (p: Option<&'static str>)
    ensures
        match p {
            Some(t) => forbidden_file(name@) == Some(t@),
            None => forbidden_file(name@) is None,
        },
{
    if glob_chars("*handoff*", name) {
        Some("*handoff*")
    } else if glob_chars("morning_brief*", name) {
        Some("morning_brief*")
    } else if glob_chars("session_*", name) {
        Some("session_*")
    } else if glob_chars("brief_*", name) {
        Some("brief_*")
    } else if glob_chars("progress.txt", name) {
        Some("progress.txt")
    } else if glob_chars("baseline_v*.txt", name) {
        Some("baseline_v*.txt")
    } else if glob_chars("*.log", name) {
        Some("*.log")
    } else if glob_chars("*.jsonl", name) {
        Some("*.jsonl")
    } else if glob_chars("*.db", name) {
        Some("*.db")
    } else if glob_chars("*.exe", name) {
        Some("*.exe")
    } else if glob_chars("*.dll", name) {
        Some("*.dll")
    } else if glob_chars("*.pt", name) {
        Some("*.pt")
    } else if glob_chars("*.pth", name) {
        Some("*.pth")
    } else if glob_chars("*.onnx", name) {
        Some("*.onnx")
    } else if glob_chars("*.npz", name) {
        Some("*.npz")
    } else if glob_chars("*.patch", name) {
        Some("*.patch")
    } else {
        None
    }
}

/// Why a path does not belong, if it does not.
pub open spec fn path_reason(path: Seq<char>) -> Option<Seq<char>> {
    let l = lowered(path);
    if text::has_prefix(l, "src/weights/"@) {
        None
    } else {
        match forbidden_dir(l) {
            Some(d) => Some("lives under `"@ + d + "`"@),
            None => match forbidden_file(file_name(l)) {
                Some(p) => Some("matches `"@ + p + "`"@),
                None => None,
            },
        }
    }
}

fn quoted(before: &str, what: &str) -> (t: String)
    ensures
        t@ == before@ + what@ + "`"@,
{
    let mut t: String = String::new();
    t.append(before);
    assert(t@ =~= before@);
    t.append(what);
    t.append("`");
    t
}

/// Why a path does not belong, if it does not.
pub fn reason(path: &str) -> (r: Option<String>)
    ensures
        match r {
            Some(t) => path_reason(path@) == Some(t@),
            None => path_reason(path@) is None,
        },
{
    let l = lower_chars(path);
    if begins(&l, "src/weights/") {
        return None;
    }
    if let Some(d) = find_dir(&l) {
        return Some(quoted("lives under `", d));
    }
    let name = name_of(&l);
    match find_file(&name) {
        Some(p) => Some(quoted("matches `", p)),
        None => None,
    }
}

} // verus!
