//! Pages of stored objects: where a page starts, and what is handed back.
//!
//! A page is asked for from a given id or from the latest one. The latest id
//! is looked up in storage; where storage has none, the page is empty.

use vstd::prelude::*;

verus! {

/// Whether a page runs towards newer or towards older objects.
#[derive(Clone, Copy, Debug, PartialEq, Eq, Structural)]
pub enum PaginationDirection {
    Newer,
    Older,
}

/// Where a page starts: at a given id, or at the latest one.
#[derive(Clone, Copy, Debug, PartialEq, Eq)]
pub enum ApiEither<Id> {
    Id(Id),
    Latest,
}

/// A request for one page.
#[derive(Clone, Copy, Debug, PartialEq, Eq)]
pub struct PaginationQuery<Id> {
    pub from: Id,
    pub limit: u32,
    pub direction: PaginationDirection,
}

/// What a page was asked with, and how many objects there are in all.
#[derive(Clone, Copy, Debug, PartialEq, Eq)]
pub struct ResponsePagination<Id> {
    pub from: Id,
    pub limit: u32,
    pub direction: PaginationDirection,
    pub count: u32,
}

/// One page of objects.
#[derive(Debug, PartialEq, Eq)]
pub struct Paginated<Obj, Id> {
    pub list: Vec<Obj>,
    pub pagination: ResponsePagination<Id>,
}

impl<Obj, Id> Paginated<Obj, Id> {
    /// The page that holds `list`.
    pub fn new(list: Vec<Obj>, from: Id, limit: u32, direction: PaginationDirection, count: u32) -> (page:
        Self)
        ensures
            page.list == list,
            page.pagination == (ResponsePagination { from, limit, direction, count }),
    {
        Paginated { list, pagination: ResponsePagination { from, limit, direction, count } }
    }

    /// The page without objects that is handed back where nothing is stored
    /// yet: it starts at `from`, for which callers take the id type's default,
    /// and counts no object.
    pub fn empty(from: Id, limit: u32, direction: PaginationDirection) -> (page: Self)
        ensures
            page.list@ == Seq::<Obj>::empty(),
            page.pagination == (ResponsePagination { from, limit, direction, count: 0 }),
    {
        Paginated {
            list: Vec::new(),
            pagination: ResponsePagination { from, limit, direction, count: 0 },
        }
    }
}

/// Whether the latest id must be looked up before the page can be loaded.
pub fn needs_latest<Id>(from: &ApiEither<Id>) -> (needed: bool)
    ensures
        needed == (*from is Latest),
{
    match from {
        ApiEither::Id(_) => false,
        ApiEither::Latest => true,
    }
}

/// The id at which the page starts: the given one, or the latest one that
/// storage holds. There is none where the latest is asked for and storage
/// holds nothing: the page is then empty.
pub fn page_start<Id>(from: ApiEither<Id>, latest: Option<Id>) -> (start: Option<Id>)
    ensures
        start == (match from {
            ApiEither::Id(id) => Some(id),
            ApiEither::Latest => latest,
        }),
{
    match from {
        ApiEither::Id(id) => Some(id),
        ApiEither::Latest => latest,
    }
}

} // verus!
