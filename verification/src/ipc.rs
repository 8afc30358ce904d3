//! Names used to find the daemon: the per-user tag and the local socket's name.
//! The environment and the file system are read by the program around the library.

use vstd::prelude::*;
use crate::text::{chars_of, push_chars, string_of};

verus! {

/// The first candidate that is set and not empty, or `default`.
pub open spec fn user_tag_spec(candidates: Seq<Option<Seq<char>>>) -> Seq<char>
    decreases candidates.len(),
{
    if candidates.len() == 0 {
        seq!['d', 'e', 'f', 'a', 'u', 'l', 't']
    } else {
        match candidates[0] {
            Some(v) => if v.len() > 0 {
                v
            } else {
                user_tag_spec(candidates.drop_first())
            },
            None => user_tag_spec(candidates.drop_first()),
        }
    }
}

/// The candidates as optional character sequences.
pub open spec fn candidate_views(c: Seq<Option<String>>) -> Seq<Option<Seq<char>>> {
    c.map_values(|o: Option<String>| match o {
        Some(s) => Some(s@),
        None => None,
    })
}

/// The tag that tells users' daemons apart: the first of the candidate values
/// (the `USER`, `USERNAME` and `LOGNAME` variables, in that order) that is
/// set and not empty, or `default`.
pub fn user_tag(candidates: &Vec<Option<String>>) -> (r: String)
    ensures
        r@ == user_tag_spec(candidate_views(candidates@)),
{
    let ghost all = candidate_views(candidates@);
    let mut k: usize = 0;
    assert(all.subrange(0, all.len() as int) == all);
    while k < candidates.len()
        invariant
            k <= candidates@.len(),
            all == candidate_views(candidates@),
            user_tag_spec(all) == user_tag_spec(all.subrange(k as int, all.len() as int)),
        decreases candidates.len() - k,
    {
        let ghost rest = all.subrange(k as int, all.len() as int);
        assert(rest.drop_first() == all.subrange(k + 1, all.len() as int));
        assert(rest[0] == all[k as int]);
        match &candidates[k] {
            Some(v) => {
                let c = chars_of(v.as_str());
                if c.len() > 0 {
                    return v.clone();
                }
            },
            None => {},
        }
        k = k + 1;
    }
    string_of(&['d', 'e', 'f', 'a', 'u', 'l', 't'])
}

/// The local socket's name for a user tag: `nux-<tag>.sock`.
pub open spec fn socket_id_spec(tag: Seq<char>) -> Seq<char> {
    seq!['n', 'u', 'x', '-'] + tag + seq!['.', 's', 'o', 'c', 'k']
}

/// The local socket's name for a user tag.
pub fn socket_id(tag: &str) -> (r: String)
    ensures
        r@ == socket_id_spec(tag@),
{
    let mut s = string_of(&['n', 'u', 'x', '-']);
    push_chars(&mut s, &chars_of(tag));
    push_chars(&mut s, &['.', 's', 'o', 'c', 'k']);
    s
}

} // verus!
