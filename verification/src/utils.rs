//! String utilities: splitting a path-like string into folder names, and
//! random name generation for tasks created without an explicit name.

use rand::distr::Alphanumeric;
use rand::distr::SampleString;
use vstd::prelude::*;

verus! {

use vstd::string::StrSliceExecFns;
use vstd::string::StringExecFns;

broadcast use vstd::string::group_string_axioms;

/// `sep` occurs in `s` starting at position `i`.
pub open spec fn match_at(s: Seq<char>, sep: Seq<char>, i: int) -> bool {
    &&& 0 <= i
    &&& i + sep.len() <= s.len()
    &&& s.subrange(i, i + sep.len() as int) == sep
}

/// The first position at or after `i` where `sep` occurs in `s`, or -1 if
/// there is none.
pub open spec fn find_from(s: Seq<char>, sep: Seq<char>, i: int) -> int
    decreases s.len() - i,
{
    if i < 0 || i + sep.len() > s.len() || sep.len() == 0 {
        -1
    } else if match_at(s, sep, i) {
        i
    } else {
        find_from(s, sep, i + 1)
    }
}

/// The pieces of `s` around the non-overlapping, leftmost-first occurrences
/// of the separator `sep`. A string without an occurrence is one piece; a
/// separator at the edge or next to another contributes an empty piece.
pub open spec fn split_seq(s: Seq<char>, sep: Seq<char>) -> Seq<Seq<char>>
    decreases s.len(),
{
    let i = find_from(s, sep, 0);
    if 0 <= i && i + sep.len() <= s.len() && sep.len() >= 1 {
        seq![s.subrange(0, i)] + split_seq(s.subrange(i + sep.len() as int, s.len() as int), sep)
    } else {
        seq![s]
    }
}

proof fn lemma_find_from_found(s: Seq<char>, sep: Seq<char>, i: int, k: int)
    requires
        0 <= i <= k,
        sep.len() >= 1,
        match_at(s, sep, k),
        forall|j: int| i <= j < k ==> !match_at(s, sep, j),
    ensures
        find_from(s, sep, i) == k,
    decreases k - i,
{
    if i < k {
        lemma_find_from_found(s, sep, i + 1, k);
    }
}

proof fn lemma_find_from_none(s: Seq<char>, sep: Seq<char>, i: int)
    requires
        0 <= i,
        sep.len() >= 1,
        forall|j: int| i <= j ==> !match_at(s, sep, j),
    ensures
        find_from(s, sep, i) == -1,
    decreases s.len() - i,
{
    if i + sep.len() <= s.len() {
        lemma_find_from_none(s, sep, i + 1);
    }
}

proof fn lemma_find_from_is_match(s: Seq<char>, sep: Seq<char>, i: int, k: int)
    requires
        0 <= i,
        find_from(s, sep, i) == k,
        k >= 0,
    ensures
        k >= i,
        match_at(s, sep, k),
        sep.len() >= 1,
    decreases s.len() - i,
{
    if !(i + sep.len() > s.len() || sep.len() == 0) && !match_at(s, sep, i) {
        lemma_find_from_is_match(s, sep, i + 1, k);
    }
}

/// Does `s` contain the character `c`?
pub fn str_contains_char(s: &str, c: char) -> (res: bool)
    ensures
        res == s@.contains(c),
{
    let n = s.unicode_len();
    let mut i: usize = 0;
    while i < n
        invariant
            n == s@.len(),
            0 <= i <= n,
            forall|j: int| 0 <= j < i ==> s@[j] != c,
        decreases n - i,
    {
        if s.get_char(i) == c {
            assert(s@.contains(c)) by {
                assert(s@[i as int] == c);
            }
            return true;
        }
        i += 1;
    }
    assert(!s@.contains(c));
    false
}

/// Does `sep` occur in `s` at position `i`?
fn match_at_exec(s: &str, sep: &str, i: usize, n: usize, m: usize) -> (res: bool)
    requires
        n == s@.len(),
        m == sep@.len(),
        m >= 1,
        i + m <= n,
    ensures
        res == match_at(s@, sep@, i as int),
{
    let mut t: usize = 0;
    while t < m
        invariant
            n == s@.len(),
            m == sep@.len(),
            i + m <= n,
            0 <= t <= m,
            forall|u: int| 0 <= u < t ==> s@[i + u] == sep@[u],
        decreases m - t,
    {
        if s.get_char(i + t) != sep.get_char(t) {
            assert(!match_at(s@, sep@, i as int)) by {
                assert(s@.subrange(i as int, i + m as int) == sep@ ==> s@.subrange(
                    i as int,
                    i + m as int,
                )[t as int] == sep@[t as int]);
            }
            return false;
        }
        t += 1;
    }
    assert(s@.subrange(i as int, i + m as int) =~= sep@);
    true
}

/// The first position where `sep` occurs in `s`, scanning left to right.
pub fn find_first(s: &str, sep: &str) -> (res: Option<usize>)
    requires
        sep@.len() >= 1,
    ensures
        match res {
            Some(k) => find_from(s@, sep@, 0) == k,
            None => find_from(s@, sep@, 0) == -1,
        },
{
    let n = s.unicode_len();
    let m = sep.unicode_len();
    if m > n {
        proof {
            lemma_find_from_none(s@, sep@, 0);
        }
        return None;
    }
    let mut i: usize = 0;
    while i <= n - m
        invariant
            n == s@.len(),
            m == sep@.len(),
            1 <= m <= n,
            0 <= i <= n - m + 1,
            forall|j: int| 0 <= j < i ==> !match_at(s@, sep@, j),
        decreases n - i,
    {
        if match_at_exec(s, sep, i, n, m) {
            proof {
                lemma_find_from_found(s@, sep@, 0, i as int);
            }
            return Some(i);
        }
        i += 1;
    }
    proof {
        assert(forall|j: int| 0 <= j ==> !match_at(s@, sep@, j));
        lemma_find_from_none(s@, sep@, 0);
    }
    None
}

/// Splits `s` on the separator `sep`, leftmost occurrence first.
pub fn split_on(s: &str, sep: &str) -> (res: Vec<String>)
    requires
        sep@.len() >= 1,
    ensures
        res.deep_view() == split_seq(s@, sep@),
    decreases s@.len(),
{
    match find_first(s, sep) {
        None => {
            let mut v: Vec<String> = Vec::new();
            v.push(s.to_owned());
            proof {
                assert(v.deep_view() =~= split_seq(s@, sep@));
            }
            v
        },
        Some(k) => {
            proof {
                lemma_find_from_is_match(s@, sep@, 0, k as int);
            }
            let n = s.unicode_len();
            let m = sep.unicode_len();
            let piece = s.substring_char(0, k).to_owned();
            let rest = s.substring_char(k + m, n);
            let mut v = split_on(rest, sep);
            v.insert(0, piece);
            proof {
                assert(v.deep_view() =~= split_seq(s@, sep@));
            }
            v
        },
    }
}

/// The separator that `split_path_str_to_folder_names` uses for `s`: a
/// forward slash when one occurs, else a backslash when one occurs, else a
/// run of three tab characters.
pub open spec fn path_separator_spec(s: Seq<char>) -> Seq<char> {
    if s.contains('/') {
        seq!['/']
    } else if s.contains('\\') {
        seq!['\\']
    } else {
        seq!['\t', '\t', '\t']
    }
}

/// The folder names that a path-like string denotes.
pub open spec fn split_path_spec(s: Seq<char>) -> Seq<Seq<char>> {
    split_seq(s, path_separator_spec(s))
}

/// Splits a path-like string into its folder names, accepting either slash
/// style as the separator.
pub fn split_path_str_to_folder_names(s: &str) -> (res: Vec<String>)
    ensures
        res.deep_view() == split_path_spec(s@),
{
    if str_contains_char(s, '/') {
        proof {
            reveal_strlit("/");
            assert("/"@ =~= seq!['/']);
        }
        split_on(s, "/")
    } else if str_contains_char(s, '\\') {
        proof {
            reveal_strlit("\\");
            assert("\\"@ =~= seq!['\\']);
        }
        split_on(s, "\\")
    } else {
        proof {
            reveal_strlit("\t\t\t");
            assert("\t\t\t"@ =~= seq!['\t', '\t', '\t']);
        }
        split_on(s, "\t\t\t")
    }
}

/// `c` is an ASCII letter or digit.
pub open spec fn is_alphanumeric_char(c: char) -> bool {
    ||| 'a' <= c <= 'z'
    ||| 'A' <= c <= 'Z'
    ||| '0' <= c <= '9'
}

/// Relies on rand's `Alphanumeric` distribution through
/// `SampleString::sample_string`: it draws exactly `len` characters, each
/// uniformly from the ASCII letters and digits.
#[verifier::external_body]
pub fn generate_random_name(len: usize) -> (res: String)
    ensures
        res@.len() == len,
        forall|i: int| 0 <= i < res@.len() ==> is_alphanumeric_char(#[trigger] res@[i]),
{
    Alphanumeric.sample_string(&mut rand::rng(), len)
}

/// The base name of a task's artifact with the jpeg extension appended.
pub fn result_file_name(file_name: &str) -> (res: String)
    ensures
        res@ == file_name@ + ".jpg"@,
{
    let base = String::from_str(file_name);
    base.concat(".jpg")
}

} // verus!
