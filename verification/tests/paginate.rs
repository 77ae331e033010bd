use state_keeper::paginate::{
    needs_latest, page_start, ApiEither, Paginated, PaginationDirection, ResponsePagination,
};

#[test]
fn page_starts_at_given_or_latest_id() {
    assert!(!needs_latest(&ApiEither::Id(4u32)));
    assert!(needs_latest(&ApiEither::<u32>::Latest));
    assert_eq!(page_start(ApiEither::Id(4u32), None), Some(4));
    assert_eq!(page_start(ApiEither::Id(4u32), Some(9)), Some(4));
    assert_eq!(page_start(ApiEither::Latest, Some(9u32)), Some(9));
    assert_eq!(page_start(ApiEither::<u32>::Latest, None), None);
}

#[test]
fn page_holds_what_it_was_made_of() {
    let page = Paginated::new(vec!['a', 'b'], 7u32, 2, PaginationDirection::Older, 10);
    assert_eq!(page.list, vec!['a', 'b']);
    assert_eq!(
        page.pagination,
        ResponsePagination { from: 7, limit: 2, direction: PaginationDirection::Older, count: 10 }
    );
}

#[test]
fn empty_page_counts_nothing() {
    let page: Paginated<char, u32> = Paginated::empty(0, 5, PaginationDirection::Newer);
    assert!(page.list.is_empty());
    assert_eq!(
        page.pagination,
        ResponsePagination { from: 0, limit: 5, direction: PaginationDirection::Newer, count: 0 }
    );
}
