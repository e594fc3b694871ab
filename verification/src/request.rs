//! A request as the routing decision sees it: method, path, query string
//! and headers.

use crate::text::{
    chars_of, first_index, lemma_first_index, lemma_values_prefix, lemma_values_step, texts,
    values_of, Pairs,
};
use vstd::prelude::*;
use vstd::string::*;

verus! {

/// The method of a request. `Other` stands for every method that no route takes.
#[derive(Clone, Copy, Debug, PartialEq, Eq, Structural)]
pub enum Method {
    Get,
    Post,
    Put,
    Delete,
    Other,
}

/// A request. Header names are expected in lower case, as they come off the
/// wire in HTTP/2 and out of most HTTP/1 parsers; `query` is the part of the
/// target after the `?`, still encoded.
#[derive(Debug, PartialEq, Eq)]
pub struct Request {
    pub method: Method,
    pub path: String,
    pub query: Option<String>,
    pub headers: Vec<(String, String)>,
}

/// What a request holds.
pub struct RequestView {
    pub method: Method,
    pub path: Seq<char>,
    pub query: Option<Seq<char>>,
    pub headers: Pairs,
}

impl View for Request {
    type V = RequestView;

    open spec fn view(&self) -> RequestView {
        RequestView {
            method: self.method,
            path: self.path@,
            query: match self.query {
                Some(q) => Some(q@),
                None => None,
            },
            headers: texts(self.headers@),
        }
    }
}

impl RequestView {
    /// The value of the first header with the given name.
    pub open spec fn header(self, name: Seq<char>) -> Option<Seq<char>> {
        let values = values_of(self.headers, name);
        if values.len() > 0 {
            Some(values[0])
        } else {
            None
        }
    }

    /// The query string, empty where the request has none.
    pub open spec fn query_text(self) -> Seq<char> {
        match self.query {
            Some(q) => q,
            None => Seq::empty(),
        }
    }
}

/// The pieces that the slashes of `s` cut it into, but for an empty piece
/// after the last slash: `a/b` and `a/b/` both give `a` and `b`, and `a//b`
/// gives `a`, the empty piece and `b`.
pub open spec fn pieces(s: Seq<char>) -> Seq<Seq<char>>
    decreases s.len(),
{
    if s.len() == 0 {
        Seq::empty()
    } else {
        let n = first_index(s, '/');
        let rest = if 0 <= n < s.len() {
            s.skip(n + 1)
        } else {
            Seq::empty()
        };
        seq![s.take(n)] + pieces(rest)
    }
}

/// The segments of a path: its pieces after the slash that it starts with.
pub open spec fn segments(path: Seq<char>) -> Seq<Seq<char>> {
    if path.len() > 0 && path[0] == '/' {
        pieces(path.drop_first())
    } else {
        pieces(path)
    }
}

/// The strings of `items` as sequences of characters.
pub open spec fn strings(items: Seq<String>) -> Seq<Seq<char>> {
    items.map_values(|s: String| s@)
}

impl Request {
    /// The value of the first header with the given name.
    pub fn header(&self, name: &str) -> (r: Option<&String>)
        ensures
            self@.header(name@) == match r {
                Some(value) => Some(value@),
                None => None,
            },
    {
        let ghost all = texts(self.headers@);
        let wanted: String = name.to_owned();
        let mut i: usize = 0;
        while i < self.headers.len()
            invariant
                i <= self.headers.len(),
                all == texts(self.headers@),
                wanted@ == name@,
                values_of(all.take(i as int), name@).len() == 0,
            decreases self.headers.len() - i,
        {
            proof {
                lemma_values_step(all, name@, i as int);
                lemma_values_prefix(all, name@, i + 1);
                assert(all[i as int] == (self.headers@[i as int].0@, self.headers@[i as int].1@));
            }
            if self.headers[i].0 == wanted {
                assert(values_of(all, name@)[0] == values_of(all.take(i + 1), name@)[0]);
                return Some(&self.headers[i].1);
            }
            i += 1;
        }
        assert(all.take(i as int) =~= all);
        None
    }

    /// The segments of the path.
    pub fn segments(&self) -> (out: Vec<String>)
        ensures
            strings(out@) == segments(self@.path),
    {
        let path = self.path.as_str();
        let chars = chars_of(path);
        let n = chars.len();
        let start: usize = if n > 0 && chars[0] == '/' {
            1
        } else {
            0
        };
        let mut out: Vec<String> = Vec::new();
        let mut i: usize = start;
        assert(chars@.skip(start as int) =~= if start == 1 {
            path@.drop_first()
        } else {
            path@
        });
        while i < n
            invariant
                start <= i <= n,
                n == chars.len(),
                chars@ == path@,
                strings(out@) + pieces(chars@.skip(i as int)) == pieces(chars@.skip(start as int)),
            decreases n - i,
        {
            let mut j: usize = i;
            while j < n && chars[j] != '/'
                invariant
                    i <= j <= n,
                    n == chars.len(),
                    forall|k: int| i <= k < j ==> chars@[k] != '/',
                decreases n - j,
            {
                j += 1;
            }
            let piece = path.substring_char(i, j).to_owned();
            let next: usize = if j < n {
                j + 1
            } else {
                j
            };
            proof {
                let s = chars@.skip(i as int);
                lemma_first_index(s, '/', j - i);
                assert(s.take(j - i) =~= chars@.subrange(i as int, j as int));
                if j < n {
                    assert(s.skip(j - i + 1) =~= chars@.skip(next as int));
                } else {
                    assert(chars@.skip(next as int) =~= Seq::<char>::empty());
                }
                assert(strings(out@.push(piece)) =~= strings(out@) + seq![piece@]);
                assert(strings(out@.push(piece)) + pieces(chars@.skip(next as int)) =~= strings(
                    out@,
                ) + pieces(s));
            }
            out.push(piece);
            i = next;
        }
        assert(pieces(chars@.skip(i as int)) =~= Seq::<Seq<char>>::empty());
        assert(strings(out@) + Seq::<Seq<char>>::empty() =~= strings(out@));
        out
    }
}

} // verus!
