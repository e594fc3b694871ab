//! Query strings: their split into pairs, and the list options among them.

use crate::failure::Failure;
use crate::models::ListOptions;
use crate::text::{
    lemma_values_prefix, lemma_values_step, parse_u64, texts, unsigned, values_of, Pairs,
};
use vstd::prelude::*;

verus! {

/// The pairs that a query string in the `application/x-www-form-urlencoded`
/// format holds, in the order in which it gives them, each key and value
/// with its escapes resolved; `None` where the decoder refuses the string.
pub uninterp spec fn urlencoded_pairs(query: Seq<char>) -> Option<Seq<(Seq<char>, Seq<char>)>>;

/// What `pairs` says of an optional numeric field: nothing, where the key
/// does not occur; a number, where it occurs once with a decimal numeral
/// that fits the machine's word; and otherwise an error.
pub open spec fn field(pairs: Pairs, key: Seq<char>) -> Result<Option<usize>, ()> {
    let values = values_of(pairs, key);
    if values.len() == 0 {
        Ok(None)
    } else if values.len() == 1 {
        match unsigned(values[0]) {
            Some(n) => if n <= usize::MAX {
                Ok(Some(n as usize))
            } else {
                Err(())
            },
            None => Err(()),
        }
    } else {
        Err(())
    }
}

/// The list options that `pairs` holds. Keys other than `offset` and
/// `limit` are passed over.
pub open spec fn options_of(pairs: Pairs) -> Result<ListOptions, Failure> {
    match (field(pairs, "offset"@), field(pairs, "limit"@)) {
        (Ok(offset), Ok(limit)) => Ok(ListOptions { offset, limit }),
        _ => Err(Failure::MalformedQuery),
    }
}

/// The list options that a query string holds.
pub open spec fn decoded(query: Seq<char>) -> Result<ListOptions, Failure> {
    match urlencoded_pairs(query) {
        Some(pairs) => options_of(pairs),
        None => Err(Failure::MalformedQuery),
    }
}

/// `serde_urlencoded::from_str`, asked for a vector of pairs of strings. The
/// contract gives its result a name and claims nothing else of it: the same
/// query string always decodes to the same pairs.
#[verifier::external_body]
fn urlencoded(query: &str) -> (r: Option<Vec<(String, String)>>)
    ensures
        urlencoded_pairs(query@) == match r {
            Some(pairs) => Some(texts(pairs@)),
            None => None,
        },
{
    serde_urlencoded::from_str::<Vec<(String, String)>>(query).ok()
}

/// Reads the optional numeric field `key` off `pairs`.
fn read_field(pairs: &Vec<(String, String)>, key: &str) -> (r: Result<Option<usize>, ()>)
    ensures
        r == field(texts(pairs@), key@),
{
    let ghost all = texts(pairs@);
    let wanted: String = key.to_owned();
    let mut found: Option<usize> = None;
    let mut i: usize = 0;
    while i < pairs.len()
        invariant
            i <= pairs.len(),
            all == texts(pairs@),
            wanted@ == key@,
            found is None ==> values_of(all.take(i as int), key@).len() == 0,
            found matches Some(n) ==> {
                &&& values_of(all.take(i as int), key@).len() == 1
                &&& unsigned(values_of(all.take(i as int), key@)[0]) == Some(n as u64)
            },
        decreases pairs.len() - i,
    {
        proof {
            lemma_values_step(all, key@, i as int);
            lemma_values_prefix(all, key@, i + 1);
            assert(all[i as int] == (pairs@[i as int].0@, pairs@[i as int].1@));
            let next = values_of(all.take(i + 1), key@);
            if next.len() > 0 {
                assert(values_of(all, key@)[next.len() - 1] == next[next.len() - 1]);
                assert(values_of(all, key@)[0] == next[0]);
            }
        }
        if pairs[i].0 == wanted {
            if found.is_some() {
                return Err(());
            }
            match parse_u64(pairs[i].1.as_str()) {
                Some(n) => {
                    if n > usize::MAX as u64 {
                        return Err(());
                    }
                    found = Some(n as usize);
                },
                None => {
                    return Err(());
                },
            }
        }
        i += 1;
    }
    assert(all.take(i as int) =~= all);
    Ok(found)
}

impl ListOptions {
    /// Reads the list options off the pairs of a query string.
    pub fn from_pairs(pairs: &Vec<(String, String)>) -> (r: Result<ListOptions, Failure>)
        ensures
            r == options_of(texts(pairs@)),
    {
        let offset = match read_field(pairs, "offset") {
            Ok(v) => v,
            Err(_) => {
                return Err(Failure::MalformedQuery);
            },
        };
        let limit = match read_field(pairs, "limit") {
            Ok(v) => v,
            Err(_) => {
                return Err(Failure::MalformedQuery);
            },
        };
        Ok(ListOptions { offset, limit })
    }

    /// Reads the list options off a query string.
    pub fn decode(query: &str) -> (r: Result<ListOptions, Failure>)
        ensures
            r == decoded(query@),
    {
        match urlencoded(query) {
            Some(pairs) => ListOptions::from_pairs(&pairs),
            None => Err(Failure::MalformedQuery),
        }
    }
}

} // verus!
