//! The paginated iterator: a forward-only cursor over a paged listing,
//! pulling one page per call through a caller-supplied fetch function.

use vstd::prelude::*;

use crate::errors::OssError;
use crate::types::spec_query_set;
use crate::types::Query;
use crate::types::QueryKey;
use crate::types::QueryValue;

verus! {

/// One page of a listing, with the cursor to the next page, if the server
/// announced one. A token handed out by `Page::new` is never empty.
#[derive(Debug)]
pub struct Page<I> {
    /// The decoded items, in document order.
    pub items: Vec<I>,
    /// Cursor to the next page; absent once the listing is complete.
    pub next_token: Option<String>,
}

impl<I> Page<I> {
    /// Builds a page; an absent or empty token means the listing is
    /// complete, so an empty one is dropped.
    pub fn new(items: Vec<I>, next_token: Option<String>) -> (r: Self)
        ensures
            r.items == items,
            r.next_token == (match next_token {
                Some(t) => if t@.len() > 0 {
                    Some(t)
                } else {
                    None::<String>
                },
                None => None::<String>,
            }),
    {
        let token = match next_token {
            Some(t) => if t.as_str().is_empty() {
                None
            } else {
                Some(t)
            },
            None => None,
        };
        Self { items, next_token: token }
    }
}

/// Where the cursor stands: before the first page, on a continuation
/// token, or past the last page.
#[derive(Debug)]
pub enum Cursor {
    /// No page was fetched yet.
    Start,
    /// The last fetched page announced this continuation token.
    Token(String),
    /// The last fetched page announced no further page.
    Done,
}

/// A lazy, forward-only sequence of pages. Each `next` call performs one
/// fetch through the caller's function, which closes over transport and
/// decoding; the pager itself only advances the cursor.
#[verifier::reject_recursive_types(I)]
pub struct Pager<I, F> where F: Fn(Query) -> Result<Page<I>, OssError> {
    /// The filter keys every fetch starts from.
    pub base: Query,
    /// Fetches one page for a query; closes over transport and decoding.
    pub fetch: F,
    /// Where the cursor stands.
    pub cursor: Cursor,
}

impl<I, F> Pager<I, F> where F: Fn(Query) -> Result<Page<I>, OssError> {
    /// The fetch function accepts any query the pager may build.
    pub open spec fn wf(&self) -> bool {
        forall|q: Query| call_requires(self.fetch, (q,))
    }

    /// The filter keys every fetch starts from.
    pub open spec fn spec_base(&self) -> Seq<(Seq<char>, Seq<char>)> {
        self.base@
    }

    /// Where the cursor stands.
    pub open spec fn spec_cursor(&self) -> Cursor {
        self.cursor
    }

    /// The query of the next fetch: the base filter keys, with the
    /// continuation token bound once one is held.
    pub open spec fn spec_next_query(&self) -> Seq<(Seq<char>, Seq<char>)> {
        match self.cursor {
            Cursor::Start => self.base@,
            Cursor::Token(t) => spec_query_set(self.base@, "continuation-token"@, t@),
            Cursor::Done => self.base@,
        }
    }

    /// Creates a pager over the given filter keys and fetch function.
    pub fn new(base: Query, fetch: F) -> (r: Self)
        ensures
            r.spec_base() == base@,
            r.spec_cursor() is Start,
            r.fetch == fetch,
    {
        Self { base, fetch, cursor: Cursor::Start }
    }

    /// Pulls the next page: nothing once a page announced no further
    /// token; otherwise one fetch with the cursor's query. The page comes
    /// back exactly as the fetch function returned it, and the cursor
    /// advances to its token; a failed fetch leaves the cursor standing.
    pub fn next(&mut self) -> (r: Option<Result<Page<I>, OssError>>)
        requires
            old(self).wf(),
        ensures
            final(self).wf(),
            final(self).fetch == old(self).fetch,
            final(self).spec_base() == old(self).spec_base(),
            old(self).spec_cursor() is Done ==> r is None && final(self).spec_cursor() is Done,
            !(old(self).spec_cursor() is Done) ==> (match r {
                Some(res) => (exists|q: Query|
                    q@ == old(self).spec_next_query() && #[trigger] call_ensures(
                        old(self).fetch,
                        (q,),
                        res,
                    )) && (match res {
                    Ok(page) => final(self).spec_cursor() == (match page.next_token {
                        Some(t) => Cursor::Token(t),
                        None => Cursor::Done,
                    }),
                    Err(_) => final(self).spec_cursor() == old(self).spec_cursor(),
                }),
                None => false,
            }),
    {
        let query: Query = match &self.cursor {
            Cursor::Done => {
                return None;
            },
            Cursor::Start => self.base.clone(),
            Cursor::Token(t) => {
                let mut q = self.base.clone();
                q.insert(
                    QueryKey::from_static("continuation-token"),
                    QueryValue::new(t.clone()),
                );
                q
            },
        };
        let ghost qg = query;
        assert(qg@ == self.spec_next_query());
        let res = (self.fetch)(query);
        match res {
            Ok(page) => {
                self.cursor = match &page.next_token {
                    Some(t) => Cursor::Token(t.clone()),
                    None => Cursor::Done,
                };
                Some(Ok(page))
            },
            Err(e) => Some(Err(e)),
        }
    }
}

} // verus!
