//! Naming rules: the extension a path selects its grammar by, and the output
//! stem derived from a repository URL or a directory name.
use vstd::prelude::*;

verus! {

/// Index of the last occurrence of `c` in `s`, or -1 when `c` does not occur.
pub open spec fn last_index_of(s: Seq<char>, c: char) -> int
    decreases s.len(),
{
    if s.len() == 0 {
        -1
    } else if s.last() == c {
        s.len() - 1
    } else {
        last_index_of(s.drop_last(), c)
    }
}

pub proof fn lemma_last_index_of(s: Seq<char>, c: char)
    ensures
        -1 <= last_index_of(s, c) < s.len(),
        last_index_of(s, c) >= 0 ==> s[last_index_of(s, c)] == c,
    decreases s.len(),
{
    if s.len() > 0 && s.last() != c {
        lemma_last_index_of(s.drop_last(), c);
    }
}

fn find_last(s: &str, c: char) -> (r: Option<usize>)
    ensures
        r matches Some(i) ==> i as int == last_index_of(s@, c) && i < s@.len(),
        r is None ==> last_index_of(s@, c) == -1,
{
    let n = s.unicode_len();
    let mut r: Option<usize> = None;
    let mut i: usize = 0;
    while i < n
        invariant
            n == s@.len(),
            i <= n,
            r matches Some(v) ==> v as int == last_index_of(s@.take(i as int), c) && v < i,
            r is None ==> last_index_of(s@.take(i as int), c) == -1,
        decreases n - i,
    {
        proof {
            assert(s@.take(i as int + 1).drop_last() =~= s@.take(i as int));
            assert(s@.take(i as int + 1).last() == s@[i as int]);
        }
        if s.get_char(i) == c {
            r = Some(i);
        }
        i = i + 1;
    }
    proof {
        assert(s@.take(n as int) =~= s@);
    }
    r
}

/// The part of the path after its last separator.
pub open spec fn base_name_of(path: Seq<char>) -> Seq<char> {
    path.subrange(last_index_of(path, '/') + 1, path.len() as int)
}

/// The extension used to pick a grammar: what follows the last dot of the
/// base name, or the `txt` sentinel when the base name has no dot past its
/// first character.
pub open spec fn extension_text(path: Seq<char>) -> Seq<char> {
    let name = base_name_of(path);
    let d = last_index_of(name, '.');
    if d <= 0 {
        "txt"@
    } else {
        name.subrange(d + 1, name.len() as int)
    }
}

/// Computes the grammar-selecting extension of a relative path.
pub fn extension_of(path: &str) -> (r: String)
    ensures
        r@ == extension_text(path@),
{
    let n = path.unicode_len();
    let slash = find_last(path, '/');
    proof {
        lemma_last_index_of(path@, '/');
    }
    let start: usize = match slash {
        Some(i) => i + 1,
        None => 0,
    };
    let name = path.substring_char(start, n);
    proof {
        assert(name@ == base_name_of(path@));
        lemma_last_index_of(name@, '.');
    }
    let m = name.unicode_len();
    let dot = find_last(name, '.');
    match dot {
        Some(d) => {
            if d > 0 {
                let e = name.substring_char(d + 1, m);
                e.to_owned()
            } else {
                let r = String::from_str("txt");
                r
            }
        },
        None => {
            let r = String::from_str("txt");
            r
        },
    }
}

/// The path ends in the four characters `.git`.
pub open spec fn has_git_suffix(s: Seq<char>) -> bool {
    s.len() >= 4 && s.subrange(s.len() - 4, s.len() as int) == ".git"@
}

/// The name with every trailing `.git` removed.
pub open spec fn strip_git_suffix(s: Seq<char>) -> Seq<char>
    decreases s.len(),
{
    if has_git_suffix(s) {
        strip_git_suffix(s.subrange(0, s.len() - 4))
    } else {
        s
    }
}

fn git_suffix_check(s: &str) -> (r: bool)
    ensures
        r == has_git_suffix(s@),
{
    let n = s.unicode_len();
    proof {
        reveal_strlit(".git");
    }
    if n < 4 {
        return false;
    }
    let r = s.get_char(n - 4) == '.' && s.get_char(n - 3) == 'g' && s.get_char(n - 2) == 'i'
        && s.get_char(n - 1) == 't';
    proof {
        if r {
            assert(s@.subrange(n - 4, n as int) =~= ".git"@);
        } else {
            if s@.subrange(n - 4, n as int) == ".git"@ {
                assert(s@[n - 4] == ".git"@[0]);
                assert(s@[n - 3] == ".git"@[1]);
                assert(s@[n - 2] == ".git"@[2]);
                assert(s@[n - 1] == ".git"@[3]);
            }
        }
    }
    r
}

fn strip_git_ending(name: &str) -> (r: String)
    ensures
        r@ == strip_git_suffix(name@),
{
    let mut cur: String = name.to_owned();
    while git_suffix_check(cur.as_str())
        invariant
            strip_git_suffix(cur@) == strip_git_suffix(name@),
        decreases cur@.len(),
    {
        let n = cur.as_str().unicode_len();
        let next = cur.as_str().substring_char(0, n - 4).to_owned();
        cur = next;
    }
    cur
}

fn has_trimmable_tail(s: &str) -> (r: bool)
    ensures
        r == trimmable_tail(s@),
{
    let n = s.unicode_len();
    if n == 0 {
        false
    } else {
        let c = s.get_char(n - 1);
        if c == '/' {
            true
        } else if c == '.' {
            if n == 1 {
                true
            } else {
                s.get_char(n - 2) == '/'
            }
        } else {
            false
        }
    }
}

/// The name ends in a separator or in a lone `.` path component (which a
/// path's file name skips); `..` is not such a component.
pub open spec fn trimmable_tail(s: Seq<char>) -> bool {
    s.len() > 0 && (s.last() == '/' || (s.last() == '.' && (s.len() == 1 || s[s.len() - 2]
        == '/')))
}

/// The name with every trailing separator and every trailing `.` path
/// component removed.
pub open spec fn trim_name_tail(s: Seq<char>) -> Seq<char>
    decreases s.len(),
{
    if trimmable_tail(s) {
        trim_name_tail(s.drop_last())
    } else {
        s
    }
}

/// The output stem a repository URL derives: the base name of the URL after
/// trailing separators and trailing `.` components are ignored (as a path's
/// file name ignores them), with any trailing `.git` stripped; `repo` when no
/// usable name remains (an empty result, or the `..` component, which carries
/// no base name).
pub open spec fn repo_name_text(url: Seq<char>) -> Seq<char> {
    let t = trim_name_tail(url);
    let b = base_name_of(t);
    if b.len() == 0 || b == "."@ || b == ".."@ {
        "repo"@
    } else {
        strip_git_suffix(b)
    }
}

fn is_dot_name(s: &str) -> (r: bool)
    ensures
        r == (s@ == "."@ || s@ == ".."@),
{
    let n = s.unicode_len();
    proof {
        reveal_strlit(".");
        reveal_strlit("..");
    }
    if n == 1 {
        let r = s.get_char(0) == '.';
        proof {
            if r {
                assert(s@ =~= "."@);
            } else {
                if s@ == "."@ {
                    assert(s@[0] == "."@[0]);
                }
            }
        }
        r
    } else if n == 2 {
        let r = s.get_char(0) == '.' && s.get_char(1) == '.';
        proof {
            if r {
                assert(s@ =~= ".."@);
            } else {
                if s@ == ".."@ {
                    assert(s@[0] == ".."@[0]);
                    assert(s@[1] == ".."@[1]);
                }
            }
        }
        r
    } else {
        false
    }
}

/// Derives the output stem from a repository URL.
pub fn repo_name_of(url: &str) -> (r: String)
    ensures
        r@ == repo_name_text(url@),
{
    let mut t: String = url.to_owned();
    while has_trimmable_tail(t.as_str())
        invariant
            trim_name_tail(t@) == trim_name_tail(url@),
        decreases t@.len(),
    {
        let n = t.as_str().unicode_len();
        let next = t.as_str().substring_char(0, n - 1).to_owned();
        proof {
            assert(next@ =~= t@.drop_last());
        }
        t = next;
    }
    let n = t.as_str().unicode_len();
    let slash = find_last(t.as_str(), '/');
    proof {
        lemma_last_index_of(t@, '/');
    }
    let start: usize = match slash {
        Some(i) => i + 1,
        None => 0,
    };
    let base = t.as_str().substring_char(start, n);
    proof {
        assert(base@ == base_name_of(t@));
    }
    if base.unicode_len() == 0 || is_dot_name(base) {
        let r = String::from_str("repo");
        r
    } else {
        strip_git_ending(base)
    }
}

} // verus!
