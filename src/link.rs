//! Following a markdown link from one document to another.

use crate::paths::{joined_of, parent_of, path_join, path_parent};
use pulldown_cmark::{Event, Options, Parser, Tag};
use vstd::prelude::*;

verus! {

/// One entry per event of the markdown parser on `text`: the destination
/// where the event starts a link, else `None`.
pub uninterp spec fn link_events_of(text: Seq<char>) -> Seq<Option<Seq<char>>>;

/// The contents of a list of optional strings.
pub open spec fn opt_strings_view(v: Seq<Option<String>>) -> Seq<Option<Seq<char>>> {
    v.map_values(
        |o: Option<String>|
            match o {
                Some(s) => Some(s@),
                None => None,
            },
    )
}

/// Relies on `pulldown_cmark::Parser::new_ext` without extensions: each
/// event, with the destination of a `Tag::Link` start.
#[verifier::external_body]
fn link_events(text: &str) -> (r: Vec<Option<String>>)
    ensures
        opt_strings_view(r@) == link_events_of(text@),
{
    Parser::new_ext(text, Options::empty()).map(|e| match e {
        Event::Start(Tag::Link { dest_url, .. }) => Some(dest_url.to_string()),
        _ => None,
    }).collect()
}

/// Why a link cannot be followed.
#[derive(Debug, Clone, Copy, PartialEq, Eq, Structural)]
pub enum LinkError {
    /// The link does not lead to a markdown file beside this one.
    NotLocal,
    /// The document has no directory to resolve the link in.
    NoParent,
}

/// The destination of the first link among the events.
pub open spec fn first_dest(evs: Seq<Option<Seq<char>>>) -> Option<Seq<char>>
    decreases evs.len(),
{
    if evs.len() == 0 {
        None
    } else if evs[0] is Some {
        evs[0]
    } else {
        first_dest(evs.drop_first())
    }
}

/// A destination the editor follows: a relative path to a `.md` file.
pub open spec fn is_local_md(d: Seq<char>) -> bool {
    &&& !(d.len() > 0 && d[0] == '/')
    &&& d.len() >= 3
    &&& d.subrange(d.len() - 3, d.len() as int) == seq!['.', 'm', 'd']
}

/// Where the first link of `text`, in a document at `file`, leads:
/// `Ok(None)` where there is no link.
pub open spec fn link_target_of(file: Seq<char>, text: Seq<char>) -> Result<Option<Seq<char>>, LinkError> {
    match first_dest(link_events_of(text)) {
        None => Ok(None),
        Some(d) => if is_local_md(d) {
            match parent_of(file) {
                Some(p) => Ok(Some(joined_of(p, d))),
                None => Err(LinkError::NoParent),
            }
        } else {
            Err(LinkError::NotLocal)
        },
    }
}

proof fn lemma_first_dest(evs: Seq<Option<Seq<char>>>, i: int)
    requires
        0 <= i <= evs.len(),
        forall|j: int| 0 <= j < i ==> evs[j] is None,
    ensures
        first_dest(evs) == first_dest(evs.subrange(i, evs.len() as int)),
    decreases i,
{
    if i > 0 {
        lemma_first_dest(evs.drop_first(), i - 1);
        assert(evs.drop_first().subrange(i - 1, evs.len() - 1) =~= evs.subrange(i, evs.len() as int));
    } else {
        assert(evs.subrange(0, evs.len() as int) =~= evs);
    }
}

/// Whether `d` is a relative path to a `.md` file.
fn local_md(d: &String) -> (r: bool)
    ensures
        r == is_local_md(d@),
{
    let n = d.unicode_len();
    if n > 0 && d.as_str().get_char(0) == '/' {
        return false;
    }
    if n < 3 {
        return false;
    }
    let r = d.as_str().get_char(n - 3) == '.' && d.as_str().get_char(n - 2) == 'm' && d.as_str().get_char(n - 1) == 'd';
    proof {
        let tail = d@.subrange(n - 3, n as int);
        if r {
            assert(tail =~= seq!['.', 'm', 'd']);
        } else {
            assert(tail[0] != '.' || tail[1] != 'm' || tail[2] != 'd');
        }
    }
    r
}

/// Where the first link of `link_text` leads from the document at `file`:
/// a relative link to a markdown file resolves against the document's
/// directory.
pub fn link_target(file: &str, link_text: &str) -> (r: Result<Option<String>, LinkError>)
    ensures
        r matches Ok(Some(p)) ==> link_target_of(file@, link_text@) == Ok::<Option<Seq<char>>, LinkError>(Some(p@)),
        r matches Ok(None) ==> link_target_of(file@, link_text@) == Ok::<Option<Seq<char>>, LinkError>(None),
        r matches Err(e) ==> link_target_of(file@, link_text@) == Err::<Option<Seq<char>>, LinkError>(e),
{
    let evs = link_events(link_text);
    let ghost es = link_events_of(link_text@);
    let mut i: usize = 0;
    while i < evs.len()
        invariant
            opt_strings_view(evs@) == es,
            es == link_events_of(link_text@),
            0 <= i <= evs@.len(),
            forall|j: int| 0 <= j < i ==> es[j] is None,
        decreases evs@.len() - i,
    {
        proof {
            assert(es[i as int] == match evs@[i as int] {
                Some(s) => Some(s@),
                None => None,
            });
        }
        match &evs[i] {
            Some(d) => {
                proof {
                    lemma_first_dest(es, i as int);
                    let rest = es.subrange(i as int, es.len() as int);
                    assert(rest[0] == Some(d@));
                }
                if !local_md(d) {
                    return Err(LinkError::NotLocal);
                }
                return match path_parent(file) {
                    Some(p) => Ok(Some(path_join(p.as_str(), d.as_str()))),
                    None => Err(LinkError::NoParent),
                };
            },
            None => {},
        }
        i = i + 1;
    }
    proof {
        lemma_first_dest(es, es.len() as int);
        assert(es.subrange(es.len() as int, es.len() as int) =~= Seq::<Option<Seq<char>>>::empty());
    }
    Ok(None)
}

} // verus!
