//! The path filter: given a directory listing, glob patterns and ignore
//! substrings, it returns the relative paths to process, sorted and without
//! duplicates.
use vstd::prelude::*;
use crate::globs::{glob_match, glob_matches, glob_pattern_ok, pattern_ok};
use crate::text::{
    contains_substring, has_substring, lemma_lex_le_antisym, lemma_lex_le_refl,
    lemma_lex_le_total, lemma_lex_le_trans, lex_le, lex_lt, str_lex_le,
};

verus! {

/// One filesystem entry handed to the path filter: a path relative to the
/// root (with `/` separators) and whether it is a regular file.
pub struct DirEntry {
    pub path: String,
    pub is_file: bool,
}

/// The views of a sequence of strings.
pub open spec fn views_of(v: Seq<String>) -> Seq<Seq<char>> {
    v.map_values(|s: String| s@)
}

/// The path contains some ignore entry as a literal substring.
pub open spec fn ignored(path: Seq<char>, ignores: Seq<Seq<char>>) -> bool {
    exists|k: int| 0 <= k < ignores.len() && has_substring(path, ignores[k])
}

/// Some pattern of the set matches the path.
pub open spec fn matched(path: Seq<char>, patterns: Seq<Seq<char>>) -> bool {
    exists|k: int| 0 <= k < patterns.len() && glob_matches(patterns[k], path)
}

/// The path belongs in the output: the listing carries it as a regular file,
/// some pattern matches it, and no ignore entry occurs in it.
pub open spec fn selected(
    entries: Seq<DirEntry>,
    patterns: Seq<Seq<char>>,
    ignores: Seq<Seq<char>>,
    path: Seq<char>,
) -> bool {
    &&& exists|j: int| 0 <= j < entries.len() && entries[j].path@ == path && entries[j].is_file
    &&& matched(path, patterns)
    &&& !ignored(path, ignores)
}

/// Strictly ascending in lexicographic order: sorted and free of duplicates.
pub open spec fn strictly_sorted(s: Seq<Seq<char>>) -> bool {
    forall|i: int, j: int| 0 <= i < j < s.len() ==> lex_lt(s[i], s[j])
}

/// A pattern the configuration named that `glob` does not accept; fatal
/// before any file is read.
#[derive(Debug)]
pub enum SelectError {
    BadPattern(String),
}

fn matches_any(patterns: &Vec<String>, path: &str) -> (r: bool)
    requires
        forall|k: int| 0 <= k < patterns@.len() ==> pattern_ok(patterns@[k]@),
    ensures
        r == matched(path@, views_of(patterns@)),
{
    let mut k: usize = 0;
    while k < patterns.len()
        invariant
            forall|t: int| 0 <= t < patterns@.len() ==> pattern_ok(patterns@[t]@),
            k <= patterns@.len(),
            forall|t: int| 0 <= t < k ==> !glob_matches(#[trigger] patterns@[t]@, path@),
        decreases patterns@.len() - k,
    {
        if glob_match(patterns[k].as_str(), path) {
            assert(glob_matches(views_of(patterns@)[k as int], path@));
            return true;
        }
        k = k + 1;
    }
    assert forall|t: int| 0 <= t < views_of(patterns@).len()
        implies !glob_matches(#[trigger] views_of(patterns@)[t], path@) by {
        assert(views_of(patterns@)[t] == patterns@[t]@);
    }
    false
}

fn is_ignored(ignores: &Vec<String>, path: &str) -> (r: bool)
    ensures
        r == ignored(path@, views_of(ignores@)),
{
    let mut k: usize = 0;
    while k < ignores.len()
        invariant
            k <= ignores@.len(),
            forall|t: int| 0 <= t < k ==> !has_substring(path@, #[trigger] ignores@[t]@),
        decreases ignores@.len() - k,
    {
        if contains_substring(path, ignores[k].as_str()) {
            assert(has_substring(path@, views_of(ignores@)[k as int]));
            return true;
        }
        k = k + 1;
    }
    assert forall|t: int| 0 <= t < views_of(ignores@).len()
        implies !has_substring(path@, #[trigger] views_of(ignores@)[t]) by {
        assert(views_of(ignores@)[t] == ignores@[t]@);
    }
    false
}

/// Index of the first element not lexicographically below `s`.
fn lower_position(out: &Vec<String>, s: &str) -> (i: usize)
    requires
        strictly_sorted(views_of(out@)),
    ensures
        i <= out@.len(),
        forall|t: int| 0 <= t < i ==> lex_lt(#[trigger] out@[t]@, s@),
        i < out@.len() ==> lex_le(s@, out@[i as int]@),
{
    let mut i: usize = 0;
    while i < out.len()
        invariant
            i <= out@.len(),
            forall|t: int| 0 <= t < i ==> lex_lt(#[trigger] out@[t]@, s@),
        decreases out@.len() - i,
    {
        if str_lex_le(s, out[i].as_str()) {
            return i;
        }
        proof {
            lemma_lex_le_total(s@, out@[i as int]@);
            lemma_lex_le_refl(s@);
            assert(out@[i as int]@ != s@);
            assert(lex_lt(out@[i as int]@, s@));
        }
        i = i + 1;
    }
    i
}

/// Inserts `s` into a strictly sorted vector, keeping it strictly sorted;
/// a duplicate is dropped.
fn insert_sorted_unique(out: &mut Vec<String>, s: String)
    requires
        strictly_sorted(views_of(old(out)@)),
    ensures
        strictly_sorted(views_of(final(out)@)),
        forall|p: Seq<char>| #![auto]
            views_of(final(out)@).contains(p) <==> (views_of(old(out)@).contains(p) || p == s@),
{
    let ghost vo = views_of(out@);
    let i = lower_position(out, s.as_str());
    if i < out.len() && out[i] == s {
        proof {
            assert(vo[i as int] == s@);
            assert(views_of(out@).contains(s@));
        }
        return ;
    }
    out.insert(i, s);
    proof {
        let vn = views_of(out@);
        assert(vn =~= vo.insert(i as int, s@));
        // the new element is strictly between its neighbours
        assert forall|t: int| 0 <= t < vn.len() && t != i implies lex_lt(vn[i as int], vn[t]) || lex_lt(
            vn[t],
            vn[i as int],
        ) by {
            if t < i {
                assert(vn[t] == vo[t]);
                assert(lex_lt(vo[t], s@));
            } else {
                assert(vn[t] == vo[t - 1]);
                if i < vo.len() {
                    // s is at or below vo[i], and differs from it
                    assert(lex_le(s@, vo[i as int]));
                    assert(s@ != vo[i as int]);
                    if t - 1 > i {
                        assert(lex_lt(vo[i as int], vo[t - 1]));
                        lemma_lex_le_trans(s@, vo[i as int], vo[t - 1]);
                        if s@ == vo[t - 1] {
                            lemma_lex_le_antisym(s@, vo[i as int]);
                        }
                    }
                    assert(lex_lt(s@, vo[t - 1]));
                }
            }
        }
        assert forall|p: int, q: int| 0 <= p < q < vn.len() implies lex_lt(vn[p], vn[q]) by {
            if p != i && q != i {
                let p0: int = if p < i { p } else { p - 1 };
                let q0: int = if q < i { q } else { q - 1 };
                assert(vn[p] == vo[p0]);
                assert(vn[q] == vo[q0]);
                assert(lex_lt(vo[p0], vo[q0]));
            } else if p == i {
                assert(lex_lt(vn[i as int], vn[q]) || lex_lt(vn[q], vn[i as int]));
                if lex_lt(vn[q], vn[i as int]) {
                    // impossible: vn[q] == vo[q-1] with q-1 >= i, yet below s
                    assert(vn[q] == vo[q - 1]);
                    if i < vo.len() {
                        if q - 1 == i {
                            lemma_lex_le_antisym(vo[q - 1], s@);
                        } else {
                            assert(lex_lt(vo[i as int], vo[q - 1]));
                            lemma_lex_le_trans(vo[q - 1], s@, vo[i as int]);
                            lemma_lex_le_antisym(vo[q - 1], vo[i as int]);
                        }
                    }
                }
            } else {
                // q == i
                assert(lex_lt(vn[p], vn[i as int]) || lex_lt(vn[i as int], vn[p]));
                if lex_lt(vn[i as int], vn[p]) {
                    // impossible: vn[p] == vo[p] with p < i, yet above s
                    assert(vn[p] == vo[p]);
                    assert(lex_lt(vo[p], s@));
                    lemma_lex_le_trans(s@, vo[p], s@);
                    lemma_lex_le_antisym(vo[p], s@);
                }
            }
        }
        assert forall|p: Seq<char>| #![auto] vn.contains(p) implies (vo.contains(p) || p == s@) by {
            let j = choose|j: int| 0 <= j < vn.len() && vn[j] == p;
            if j < i {
                assert(vo[j] == p);
            } else if j > i {
                assert(vo[j - 1] == p);
            }
        }
        assert forall|p: Seq<char>| #![auto] (vo.contains(p) || p == s@) implies vn.contains(p) by {
            if p == s@ {
                assert(vn[i as int] == p);
            } else {
                let j = choose|j: int| 0 <= j < vo.len() && vo[j] == p;
                if j < i {
                    assert(vn[j] == p);
                } else {
                    assert(vn[j + 1] == p);
                }
            }
        }
    }
}

/// Selects the relative paths to process: regular files matched by at least
/// one pattern and containing no ignore entry, in strictly ascending
/// lexicographic order with duplicates removed. Fails exactly when some
/// pattern is not a well-formed glob.
pub fn select_files(entries: &Vec<DirEntry>, patterns: &Vec<String>, ignores: &Vec<String>) -> (r:
    Result<Vec<String>, SelectError>)
    ensures
        r is Ok <==> (forall|k: int| 0 <= k < patterns@.len() ==> pattern_ok(#[trigger] patterns@[k]@)),
        r matches Ok(files) ==> {
            &&& strictly_sorted(views_of(files@))
            &&& forall|p: Seq<char>| #![auto]
                views_of(files@).contains(p) <==> selected(
                    entries@,
                    views_of(patterns@),
                    views_of(ignores@),
                    p,
                )
        },
        r matches Err(e) ==> (e matches SelectError::BadPattern(pat) && exists|k: int|
            0 <= k < patterns@.len() && #[trigger] patterns@[k]@ == pat@ && !pattern_ok(pat@)),
{
    let mut k: usize = 0;
    while k < patterns.len()
        invariant
            k <= patterns@.len(),
            forall|t: int| 0 <= t < k ==> pattern_ok(#[trigger] patterns@[t]@),
        decreases patterns@.len() - k,
    {
        if !glob_pattern_ok(patterns[k].as_str()) {
            return Err(SelectError::BadPattern(patterns[k].clone()));
        }
        k = k + 1;
    }
    let mut files: Vec<String> = Vec::new();
    let mut j: usize = 0;
    while j < entries.len()
        invariant
            j <= entries@.len(),
            forall|t: int| 0 <= t < patterns@.len() ==> pattern_ok(#[trigger] patterns@[t]@),
            strictly_sorted(views_of(files@)),
            forall|p: Seq<char>| #![auto]
                views_of(files@).contains(p) ==> selected(
                    entries@,
                    views_of(patterns@),
                    views_of(ignores@),
                    p,
                ),
            forall|t: int| #![auto]
                0 <= t < j && entries@[t].is_file && matched(
                    entries@[t].path@,
                    views_of(patterns@),
                ) && !ignored(entries@[t].path@, views_of(ignores@)) ==> views_of(
                    files@,
                ).contains(entries@[t].path@),
        decreases entries@.len() - j,
    {
        let e = &entries[j];
        if e.is_file {
            let m = matches_any(patterns, e.path.as_str());
            let ig = is_ignored(ignores, e.path.as_str());
            if m && !ig {
                proof {
                    // witness for membership in `selected`
                    assert(entries@[j as int].path@ == e.path@ && entries@[j as int].is_file);
                }
                insert_sorted_unique(&mut files, e.path.clone());
            }
        }
        j = j + 1;
    }
    proof {
        assert forall|p: Seq<char>| #![auto]
            selected(entries@, views_of(patterns@), views_of(ignores@), p) implies views_of(
            files@,
        ).contains(p) by {
            let t = choose|t: int|
                0 <= t < entries@.len() && entries@[t].path@ == p && entries@[t].is_file;
            assert(views_of(files@).contains(entries@[t].path@));
        }
    }
    Ok(files)
}

/// Two strictly sorted sequences with the same members are the same sequence.
pub proof fn lemma_strictly_sorted_unique(s1: Seq<Seq<char>>, s2: Seq<Seq<char>>)
    requires
        strictly_sorted(s1),
        strictly_sorted(s2),
        forall|p: Seq<char>| s1.contains(p) <==> s2.contains(p),
    ensures
        s1 == s2,
    decreases s1.len(),
{
    if s1.len() == 0 {
        if s2.len() > 0 {
            assert(s2.contains(s2[0]));
            assert(s1.contains(s2[0]));
        }
        assert(s1 =~= s2);
    } else {
        assert(s1.contains(s1[0]));
        assert(s2.contains(s1[0]));
        assert(s2.len() > 0);
        assert(s2.contains(s2[0]));
        assert(s1.contains(s2[0]));
        // each head is its sequence's least element, so the heads agree
        let k1 = choose|k: int| 0 <= k < s2.len() && s2[k] == s1[0];
        assert(lex_le(s2[0], s1[0])) by {
            if k1 == 0 {
                lemma_lex_le_refl(s2[0]);
            } else {
                assert(lex_lt(s2[0], s2[k1]));
            }
        }
        let k2 = choose|k: int| 0 <= k < s1.len() && s1[k] == s2[0];
        assert(lex_le(s1[0], s2[0])) by {
            if k2 == 0 {
                lemma_lex_le_refl(s1[0]);
            } else {
                assert(lex_lt(s1[0], s1[k2]));
            }
        }
        lemma_lex_le_antisym(s1[0], s2[0]);
        let t1 = s1.drop_first();
        let t2 = s2.drop_first();
        assert forall|p: Seq<char>| t1.contains(p) <==> t2.contains(p) by {
            assert forall|p: Seq<char>| t1.contains(p) implies t2.contains(p) by {
                let j = choose|j: int| 0 <= j < t1.len() && t1[j] == p;
                assert(s1[j + 1] == p);
                assert(s1.contains(p));
                assert(s2.contains(p));
                let k = choose|k: int| 0 <= k < s2.len() && s2[k] == p;
                assert(lex_lt(s1[0], s1[j + 1]));
                if k == 0 {
                    // p would equal both heads, contradicting strictness
                    assert(p == s1[0]);
                } else {
                    assert(t2[k - 1] == p);
                }
            }
            assert forall|p: Seq<char>| t2.contains(p) implies t1.contains(p) by {
                let j = choose|j: int| 0 <= j < t2.len() && t2[j] == p;
                assert(s2[j + 1] == p);
                assert(s2.contains(p));
                assert(s1.contains(p));
                let k = choose|k: int| 0 <= k < s1.len() && s1[k] == p;
                assert(lex_lt(s2[0], s2[j + 1]));
                if k == 0 {
                    assert(p == s2[0]);
                } else {
                    assert(t1[k - 1] == p);
                }
            }
        }
        assert(strictly_sorted(t1)) by {
            assert forall|p: int, q: int| 0 <= p < q < t1.len() implies lex_lt(t1[p], t1[q]) by {
                assert(t1[p] == s1[p + 1]);
                assert(t1[q] == s1[q + 1]);
            }
        }
        assert(strictly_sorted(t2)) by {
            assert forall|p: int, q: int| 0 <= p < q < t2.len() implies lex_lt(t2[p], t2[q]) by {
                assert(t2[p] == s2[p + 1]);
                assert(t2[q] == s2[q + 1]);
            }
        }
        lemma_strictly_sorted_unique(t1, t2);
        assert forall|i: int| 0 <= i < s1.len() implies s1[i] == s2[i] by {
            if i > 0 {
                assert(s1[i] == t1[i - 1]);
                assert(s2[i] == t2[i - 1]);
            }
        }
        assert(s1 =~= s2);
    }
}

/// Determinism of the path filter: any two outputs that satisfy its contract
/// for one listing, pattern set and ignore set are the same list.
pub proof fn lemma_select_deterministic(
    entries: Seq<DirEntry>,
    patterns: Seq<Seq<char>>,
    ignores: Seq<Seq<char>>,
    out1: Seq<Seq<char>>,
    out2: Seq<Seq<char>>,
)
    requires
        strictly_sorted(out1),
        strictly_sorted(out2),
        forall|p: Seq<char>| out1.contains(p) <==> selected(entries, patterns, ignores, p),
        forall|p: Seq<char>| out2.contains(p) <==> selected(entries, patterns, ignores, p),
    ensures
        out1 == out2,
{
    lemma_strictly_sorted_unique(out1, out2);
}

} // verus!
