//! File names and their extensions.
//!
//! A path is read as text in which `/` parts the components. Its file name
//! is what follows the last `/`, or the whole path where there is none. The
//! extension is what follows the last `.` of the file name. A file name
//! without a `.`, one whose only `.` stands first (a hidden file), and the
//! name `..` have no extension. An extension can be empty: `a.` has one.
use vstd::prelude::*;

verus! {

/// Where `c` stands last in `s`.
pub open spec fn last_index_of(s: Seq<char>, c: char) -> Option<int>
    decreases s.len(),
{
    if s.len() == 0 {
        None
    } else if s.last() == c {
        Some(s.len() - 1)
    } else {
        last_index_of(s.drop_last(), c)
    }
}

/// `last_index_of` finds an occurrence with none behind it, and finds one
/// wherever there is any.
pub proof fn lemma_last_index_of(s: Seq<char>, c: char)
    ensures
        match last_index_of(s, c) {
            Some(i) => 0 <= i < s.len() && s[i] == c && forall|j: int|
                i < j < s.len() ==> s[j] != c,
            None => forall|j: int| 0 <= j < s.len() ==> s[j] != c,
        },
    decreases s.len(),
{
    if s.len() > 0 && s.last() != c {
        let front = s.drop_last();
        lemma_last_index_of(front, c);
        match last_index_of(front, c) {
            Some(i) => {
                assert forall|j: int| i < j < s.len() implies s[j] != c by {
                    if j < front.len() {
                        assert(front[j] == s[j]);
                    }
                }
            },
            None => {
                assert forall|j: int| 0 <= j < s.len() implies s[j] != c by {
                    if j < front.len() {
                        assert(front[j] == s[j]);
                    }
                }
            },
        }
    }
}

/// The file name of `path`.
pub open spec fn file_name_of(path: Seq<char>) -> Seq<char> {
    match last_index_of(path, '/') {
        Some(i) => path.skip(i + 1),
        None => path,
    }
}

/// The extension of `path`, if its file name has one.
pub open spec fn extension_of(path: Seq<char>) -> Option<Seq<char>> {
    let name = file_name_of(path);
    match last_index_of(name, '.') {
        Some(i) => if i == 0 || name == seq!['.', '.'] {
            None
        } else {
            Some(name.skip(i + 1))
        },
        None => None,
    }
}

/// Whether two texts are the same.
pub fn same_text(a: &str, b: &str) -> (r: bool)
    ensures
        r == (a@ == b@),
{
    a.to_owned() == b.to_owned()
}

/// Finds the last `c` in `s`, counting characters.
fn find_last(s: &str, c: char) -> (r: Option<usize>)
    ensures
        r.is_some() == last_index_of(s@, c).is_some(),
        r matches Some(i) ==> last_index_of(s@, c) == Some(i as int),
{
    let total = s.unicode_len();
    let mut found: Option<usize> = None;
    let mut n: usize = 0;
    for x in iter: s.chars()
        invariant
            total == s@.len(),
            n == iter.index(),
            iter.seq() == s@,
            found.is_some() == last_index_of(s@.take(n as int), c).is_some(),
            found matches Some(i) ==> last_index_of(s@.take(n as int), c) == Some(i as int),
    {
        assert(s@.take(n + 1).drop_last() == s@.take(n as int));
        if x == c {
            found = Some(n);
        }
        n += 1;
    }
    assert(s@.take(n as int) == s@);
    found
}

/// The file name of `path`.
pub fn file_name(path: &str) -> (r: &str)
    ensures
        r@ == file_name_of(path@),
{
    let len = path.unicode_len();
    match find_last(path, '/') {
        Some(i) => {
            proof {
                lemma_last_index_of(path@, '/');
            }
            path.substring_char(i + 1, len)
        },
        None => path,
    }
}

/// The extension of `path`, if its file name has one.
pub fn extension(path: &str) -> (r: Option<String>)
    ensures
        r.is_some() == extension_of(path@).is_some(),
        r matches Some(e) ==> extension_of(path@) == Some(e@),
{
    let name = file_name(path);
    let len = name.unicode_len();
    match find_last(name, '.') {
        Some(i) => {
            proof {
                lemma_last_index_of(name@, '.');
            }
            if i == 0 || same_text(name, "..") {
                proof {
                    reveal_strlit("..");
                    assert(".."@ =~= seq!['.', '.']);
                }
                None
            } else {
                proof {
                    reveal_strlit("..");
                    assert(".."@ =~= seq!['.', '.']);
                }
                Some(name.substring_char(i + 1, len).to_owned())
            }
        },
        None => None,
    }
}

} // verus!
