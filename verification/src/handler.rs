//! Request-side value types: the search filter and the hypermedia
//! links embedded in listing responses.

use vstd::prelude::*;

verus! {

/// The optional free-text search filter of a listing request.
#[derive(Debug)]
pub struct Search {
    pub q: Option<String>,
}

/// The hypermedia links of one listing entry.
#[derive(Debug)]
pub struct Links {
    pub myself: Link,
}

/// One hypermedia link.
#[derive(Debug)]
pub struct Link {
    pub href: String,
}

/// The path segments joined by `sep`, with one more separator before
/// the final `tail` segment.
pub open spec fn joined_path(parts: Seq<Seq<char>>, sep: char) -> Seq<char>
    decreases parts.len(),
{
    if parts.len() == 0 {
        Seq::<char>::empty()
    } else if parts.len() == 1 {
        parts[0]
    } else {
        joined_path(parts.drop_last(), sep) + seq![sep] + parts.last()
    }
}

/// The address a link for entry `id` under `path` points at.
pub open spec fn link_target(id: Seq<char>, path: Seq<Seq<char>>) -> Seq<char> {
    "http://localhost:8181/"@ + joined_path(path, '/') + seq!['/'] + id
}

impl Links {
    /// Builds the self link of the entry `id` under the route `path`.
    pub fn new(id: &str, path: &[&str]) -> (out: Links)
        ensures
            out.myself.href@ == link_target(id@, path@.map_values(|p: &str| p@)),
    {
        let mut href = String::new();
        href.append("http://localhost:8181/");
        let n: usize = path.len();
        let mut i: usize = 0;
        while i < n
            invariant
                0 <= i <= n,
                n == path@.len(),
                href@ == "http://localhost:8181/"@ + joined_path(
                    path@.map_values(|p: &str| p@).take(i as int),
                    '/',
                ),
            decreases n - i,
        {
            if i > 0 {
                href.append("/");
            }
            let part: &&str = vstd::slice::slice_index_get(path, i);
            href.append(*part);
            proof {
                let mapped = path@.map_values(|p: &str| p@);
                assert(mapped.take(i + 1).drop_last() =~= mapped.take(i as int));
                assert(mapped.take(i + 1).last() == mapped[i as int]);
                reveal_strlit("/");
                if i > 0 {
                    assert(href@ =~= "http://localhost:8181/"@ + joined_path(
                        mapped.take(i + 1),
                        '/',
                    ));
                } else {
                    assert(mapped.take(1).len() == 1);
                    assert(href@ =~= "http://localhost:8181/"@ + joined_path(
                        mapped.take(1),
                        '/',
                    ));
                }
            }
            i = i + 1;
        }
        href.append("/");
        href.append(id);
        proof {
            let mapped = path@.map_values(|p: &str| p@);
            assert(mapped.take(n as int) =~= mapped);
            reveal_strlit("/");
            assert(href@ =~= link_target(id@, mapped));
        }
        Links { myself: Link { href } }
    }
}

} // verus!
