//! Object identifiers and the derivation of unit keys.
//!
//! An object identifier is an opaque string; the only structure this crate
//! relies on is that a group-discriminating prefix (the "unit key") can be
//! taken from it by splitting on a fixed separator token, and that a plain
//! file name can be taken from it by splitting on the last path separator.

use vstd::prelude::*;

verus! {

/// The separator token occurs in `s` starting at position `i`:
/// three underscores in a row.
pub open spec fn is_sep_at(s: Seq<char>, i: int) -> bool {
    &&& 0 <= i
    &&& i + 3 <= s.len()
    &&& s[i] == '_'
    &&& s[i + 1] == '_'
    &&& s[i + 2] == '_'
}

/// Position of the first separator occurrence at or after `i`, if any.
pub open spec fn first_sep_from(s: Seq<char>, i: int) -> Option<int>
    decreases s.len() - i,
{
    if i + 3 > s.len() {
        None
    } else if is_sep_at(s, i) {
        Some(i)
    } else {
        first_sep_from(s, i + 1)
    }
}

/// Position of the first separator occurrence in `s`, if any.
pub open spec fn first_sep(s: Seq<char>) -> Option<int> {
    first_sep_from(s, 0)
}

/// `s` contains the separator token.
pub open spec fn has_sep(s: Seq<char>) -> bool {
    first_sep(s) is Some
}

/// The unit key of an identifier: the characters before its first separator.
pub open spec fn key_of(s: Seq<char>) -> Seq<char>
    recommends
        has_sep(s),
{
    match first_sep(s) {
        Some(i) => s.subrange(0, i),
        None => s,
    }
}

/// What `first_sep_from` returns is the first occurrence at or after `i`.
pub proof fn lemma_first_sep_from_props(s: Seq<char>, i: int)
    requires
        0 <= i,
    ensures
        match first_sep_from(s, i) {
            Some(j) => i <= j && is_sep_at(s, j) && (forall|k: int|
                i <= k < j ==> !is_sep_at(s, k)),
            None => forall|k: int| i <= k ==> !is_sep_at(s, k),
        },
    decreases s.len() - i,
{
    if i + 3 > s.len() {
    } else if is_sep_at(s, i) {
    } else {
        lemma_first_sep_from_props(s, i + 1);
    }
}

/// The recursive search agrees with the direct existential statement.
pub proof fn lemma_has_sep_iff_exists(s: Seq<char>)
    ensures
        has_sep(s) <==> exists|i: int| is_sep_at(s, i),
{
    lemma_first_sep_from_props(s, 0);
    if has_sep(s) {
        let j = first_sep(s)->Some_0;
        assert(is_sep_at(s, j));
    }
}

/// Finds the position of the first separator token in `id`.
pub fn find_sep(id: &str) -> (r: Option<usize>)
    ensures
        match r {
            Some(j) => first_sep(id@) == Some(j as int),
            None => first_sep(id@) is None,
        },
{
    let len: usize = id.unicode_len();
    let mut i: usize = 0;
    while len >= 3 && i <= len - 3
        invariant
            len == id@.len(),
            i <= len,
            first_sep(id@) == first_sep_from(id@, i as int),
        decreases len - i,
    {
        if id.get_char(i) == '_' && id.get_char(i + 1) == '_' && id.get_char(i + 2) == '_' {
            assert(is_sep_at(id@, i as int));
            return Some(i);
        }
        assert(!is_sep_at(id@, i as int));
        i = i + 1;
    }
    assert((i as int) + 3 > id@.len());
    None
}

/// Position of the last path separator in `s`, if any.
pub open spec fn last_slash(s: Seq<char>) -> Option<int>
    decreases s.len(),
{
    if s.len() == 0 {
        None
    } else if s[s.len() - 1] == '/' {
        Some(s.len() - 1)
    } else {
        last_slash(s.drop_last())
    }
}

/// The plain file name of an identifier: the characters after its last
/// path separator, or all of it when it has none.
pub open spec fn file_name_of(s: Seq<char>) -> Seq<char> {
    match last_slash(s) {
        Some(i) => s.subrange(i + 1, s.len() as int),
        None => s,
    }
}

/// What `last_slash` returns is the last occurrence of the separator.
pub proof fn lemma_last_slash_props(s: Seq<char>)
    ensures
        match last_slash(s) {
            Some(i) => 0 <= i < s.len() && s[i] == '/' && (forall|k: int|
                i < k < s.len() ==> s[k] != '/'),
            None => forall|k: int| 0 <= k < s.len() ==> s[k] != '/',
        },
    decreases s.len(),
{
    if s.len() == 0 {
    } else if s[s.len() - 1] == '/' {
    } else {
        let d = s.drop_last();
        lemma_last_slash_props(d);
        match last_slash(d) {
            Some(i) => {
                assert forall|k: int| i < k < s.len() implies s[k] != '/' by {
                    if k < s.len() - 1 {
                        assert(d[k] == s[k]);
                    }
                }
            },
            None => {
                assert forall|k: int| 0 <= k < s.len() implies s[k] != '/' by {
                    if k < s.len() - 1 {
                        assert(d[k] == s[k]);
                    }
                }
            },
        }
    }
}

/// A position carrying a path separator with none after it is the last one.
pub proof fn lemma_last_slash_unique(s: Seq<char>, p: int)
    requires
        0 <= p < s.len(),
        s[p] == '/',
        forall|k: int| p < k < s.len() ==> s[k] != '/',
    ensures
        last_slash(s) == Some(p),
    decreases s.len(),
{
    if p == s.len() - 1 {
    } else {
        assert(s[s.len() - 1] != '/');
        lemma_last_slash_unique(s.drop_last(), p);
    }
}

/// The plain file name of `id`: the part after its last path separator, or
/// `None` when that part is empty.
pub fn file_name(id: &str) -> (r: Option<String>)
    ensures
        match r {
            Some(n) => n@ == file_name_of(id@) && n@.len() > 0,
            None => file_name_of(id@).len() == 0,
        },
{
    let len: usize = id.unicode_len();
    let mut i: usize = len;
    while i > 0
        invariant
            i <= len,
            len == id@.len(),
            forall|k: int| i <= k < len ==> id@[k] != '/',
        decreases i,
    {
        if id.get_char(i - 1) == '/' {
            proof {
                lemma_last_slash_unique(id@, i - 1);
            }
            if i == len {
                assert(file_name_of(id@).len() == 0);
                return None;
            }
            return Some(String::from_str(id.substring_char(i, len)));
        }
        i = i - 1;
    }
    proof {
        lemma_last_slash_props(id@);
        if last_slash(id@) is Some {
            let p = last_slash(id@)->Some_0;
            assert(id@[p] != '/');
        }
    }
    if len == 0 {
        None
    } else {
        Some(id.to_owned())
    }
}

/// The unit key of `id`: the part before the first separator token, or
/// `None` for an identifier that lacks the separator.
pub fn unit_key(id: &str) -> (r: Option<String>)
    ensures
        match r {
            Some(k) => has_sep(id@) && k@ == key_of(id@),
            None => !has_sep(id@),
        },
{
    match find_sep(id) {
        Some(j) => {
            proof {
                lemma_first_sep_from_props(id@, 0);
            }
            Some(String::from_str(id.substring_char(0, j)))
        },
        None => None,
    }
}

} // verus!
