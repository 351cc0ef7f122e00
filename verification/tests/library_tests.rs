use library_system::library::Library;
use library_system::model::{
    ApiError, BookUpdate, BorrowRecord, BorrowRequest, LoanStatus, NewBook, NewMember, ReturnRequest,
};
use library_system::time::{due_date, is_overdue, Timestamp};

const DAY: i64 = 86400;

fn at(secs: i64) -> Timestamp {
    Timestamp { secs, nanos: 0 }
}

fn noon_2024_03_01() -> Timestamp {
    // 2024-03-01T12:00:00.250Z
    Timestamp { secs: 1709294400, nanos: 250_000_000 }
}

fn new_book(title: &str, copies: i32) -> NewBook {
    NewBook {
        title: title.to_string(),
        author: "Lu Xun".to_string(),
        isbn: Some("978-7-02-000001-1".to_string()),
        category: Some("fiction".to_string()),
        published_year: Some(1923),
        total_copies: copies,
    }
}

fn new_member(name: &str, email: &str) -> NewMember {
    NewMember { name: name.to_string(), email: email.to_string(), phone: None }
}

fn no_change() -> BookUpdate {
    BookUpdate {
        title: None,
        author: None,
        isbn: None,
        category: None,
        published_year: None,
        total_copies: None,
        available_copies: None,
    }
}

fn borrow(book_id: i64, member_id: i64, days: Option<i32>) -> BorrowRequest {
    BorrowRequest { book_id, member_id, days }
}

/// A library with one book of `copies` copies (id 1) and one member (id 1).
fn stocked(copies: i32) -> Library {
    let mut lib = Library::new();
    lib.create_book(new_book("Call to Arms", copies), noon_2024_03_01()).unwrap();
    lib.create_member(new_member("Ann", "ann@example.org"), noon_2024_03_01()).unwrap();
    lib
}

#[test]
fn created_book_has_all_copies_on_shelf() {
    let mut lib = Library::new();
    let b = lib.create_book(new_book("Call to Arms", 3), noon_2024_03_01()).unwrap();
    assert_eq!(b.id, 1);
    assert_eq!(b.total_copies, 3);
    assert_eq!(b.available_copies, 3);
    assert_eq!(b.title, "Call to Arms");
    assert_eq!(b.published_year, Some(1923));
    // the store's clock keeps whole seconds
    assert_eq!(b.created_at, at(1709294400));
    assert_eq!(b.updated_at, at(1709294400));
    let again = lib.get_book(1).unwrap();
    assert_eq!(again.title, "Call to Arms");
    assert_eq!(again.available_copies, 3);
}

#[test]
fn missing_book_is_not_found() {
    let lib = Library::new();
    assert_eq!(lib.get_book(7).unwrap_err(), ApiError::NotFound);
    assert_eq!(lib.get_member(7).unwrap_err(), ApiError::NotFound);
}

#[test]
fn ids_count_up_and_are_not_reused() {
    let mut lib = Library::new();
    let a = lib.create_book(new_book("A", 1), noon_2024_03_01()).unwrap();
    let b = lib.create_book(new_book("B", 1), noon_2024_03_01()).unwrap();
    assert_eq!((a.id, b.id), (1, 2));
    lib.delete_book(2).unwrap();
    let c = lib.create_book(new_book("C", 1), noon_2024_03_01()).unwrap();
    assert_eq!(c.id, 3);
}

#[test]
fn lists_are_newest_first() {
    let mut lib = Library::new();
    for t in ["A", "B", "C"] {
        lib.create_book(new_book(t, 1), noon_2024_03_01()).unwrap();
    }
    let ids: Vec<i64> = lib.list_books().unwrap().iter().map(|b| b.id).collect();
    assert_eq!(ids, vec![3, 2, 1]);
    lib.create_member(new_member("Ann", "a@x"), noon_2024_03_01()).unwrap();
    lib.create_member(new_member("Bo", "b@x"), noon_2024_03_01()).unwrap();
    let names: Vec<String> = lib.list_members().iter().map(|m| m.name.clone()).collect();
    assert_eq!(names, vec!["Bo".to_string(), "Ann".to_string()]);
}

#[test]
fn update_changes_only_given_fields() {
    let mut lib = stocked(2);
    let later = at(1709294400 + 3 * DAY);
    let mut upd = no_change();
    upd.title = Some("Wandering".to_string());
    upd.total_copies = Some(5);
    let b = lib.update_book(1, upd, later).unwrap();
    assert_eq!(b.title, "Wandering");
    assert_eq!(b.author, "Lu Xun");
    assert_eq!(b.isbn, Some("978-7-02-000001-1".to_string()));
    assert_eq!(b.total_copies, 5);
    assert_eq!(b.available_copies, 2);
    assert_eq!(b.created_at, at(1709294400));
    assert_eq!(b.updated_at, later);
    assert_eq!(lib.get_book(1).unwrap().title, "Wandering");
}

#[test]
fn update_cannot_clear_optional_fields() {
    let mut lib = stocked(2);
    let b = lib.update_book(1, no_change(), noon_2024_03_01()).unwrap();
    assert_eq!(b.isbn, Some("978-7-02-000001-1".to_string()));
    assert_eq!(b.category, Some("fiction".to_string()));
}

#[test]
fn update_of_missing_book_is_not_found() {
    let mut lib = stocked(2);
    assert_eq!(lib.update_book(9, no_change(), noon_2024_03_01()).unwrap_err(), ApiError::NotFound);
}

#[test]
fn delete_book_then_get_is_not_found() {
    let mut lib = stocked(1);
    assert_eq!(lib.delete_book(1), Ok(()));
    assert_eq!(lib.get_book(1).unwrap_err(), ApiError::NotFound);
    // deleting what is not there succeeds too
    assert_eq!(lib.delete_book(1), Ok(()));
}

#[test]
fn book_with_loans_cannot_be_deleted() {
    let mut lib = stocked(1);
    lib.borrow_book(borrow(1, 1, None), noon_2024_03_01()).unwrap();
    assert_eq!(lib.delete_book(1), Err(ApiError::Internal));
    assert_eq!(lib.delete_member(1), Err(ApiError::Internal));
    assert!(lib.get_book(1).is_ok());
    assert!(lib.get_member(1).is_ok());
}

#[test]
fn member_is_registered_active() {
    let mut lib = Library::new();
    let m = lib.create_member(new_member("Ann", "ann@example.org"), noon_2024_03_01()).unwrap();
    assert_eq!(m.id, 1);
    assert!(m.is_active);
    assert_eq!(m.membership_date, at(1709294400));
    assert_eq!(lib.get_member(1).unwrap().email, "ann@example.org");
    assert_eq!(lib.delete_member(1), Ok(()));
    assert_eq!(lib.get_member(1).unwrap_err(), ApiError::NotFound);
}

#[test]
fn duplicate_email_is_refused() {
    let mut lib = stocked(1);
    let r = lib.create_member(new_member("Other Ann", "ann@example.org"), noon_2024_03_01());
    assert_eq!(r.unwrap_err(), ApiError::Internal);
    assert_eq!(lib.list_members().len(), 1);
}

#[test]
fn borrowing_takes_one_copy_and_opens_a_loan() {
    let mut lib = stocked(2);
    let now = noon_2024_03_01();
    let rec = lib.borrow_book(borrow(1, 1, None), now).unwrap();
    assert_eq!(rec.id, 1);
    assert_eq!(rec.book_id, 1);
    assert_eq!(rec.member_id, 1);
    assert_eq!(rec.status, LoanStatus::Borrowed);
    assert_eq!(rec.return_date, None);
    assert_eq!(rec.borrow_date, at(1709294400));
    // fourteen days later, to the nanosecond
    assert_eq!(rec.due_date, Timestamp { secs: 1709294400 + 14 * DAY, nanos: 250_000_000 });
    assert_eq!(lib.get_book(1).unwrap().available_copies, 1);
    assert_eq!(lib.list_records(), vec![rec]);
}

#[test]
fn borrowing_for_given_days() {
    let mut lib = stocked(2);
    let rec = lib.borrow_book(borrow(1, 1, Some(3)), at(1000 * DAY)).unwrap();
    assert_eq!(rec.due_date, at(1003 * DAY));
}

#[test]
fn borrowing_with_no_copy_left_is_a_bad_request() {
    let mut lib = stocked(1);
    lib.borrow_book(borrow(1, 1, None), noon_2024_03_01()).unwrap();
    let err = lib.borrow_book(borrow(1, 1, None), noon_2024_03_01()).unwrap_err();
    assert_eq!(err, ApiError::BadRequest);
    assert_eq!(err.status_code(), 400);
    assert_eq!(lib.get_book(1).unwrap().available_copies, 0);
    assert_eq!(lib.list_records().len(), 1);
}

#[test]
fn borrowing_a_missing_book_is_not_found() {
    let mut lib = stocked(1);
    assert_eq!(lib.borrow_book(borrow(5, 1, None), noon_2024_03_01()).unwrap_err(), ApiError::NotFound);
    assert_eq!(lib.check_borrowable(5), Err(ApiError::NotFound));
}

#[test]
fn borrowing_for_a_missing_member_changes_nothing() {
    let mut lib = stocked(1);
    let err = lib.borrow_book(borrow(1, 9, None), noon_2024_03_01()).unwrap_err();
    assert_eq!(err, ApiError::Internal);
    assert_eq!(err.status_code(), 500);
    assert_eq!(lib.get_book(1).unwrap().available_copies, 1);
    assert!(lib.list_records().is_empty());
}

#[test]
fn returning_puts_the_copy_back() {
    let mut lib = stocked(1);
    let rec = lib.borrow_book(borrow(1, 1, None), noon_2024_03_01()).unwrap();
    let later = at(1709294400 + 5 * DAY);
    let back = lib.return_book(ReturnRequest { record_id: rec.id }, later).unwrap();
    assert_eq!(back.status, LoanStatus::Returned);
    assert_eq!(back.return_date, Some(later));
    assert_eq!(back.due_date, rec.due_date);
    assert_eq!(lib.get_book(1).unwrap().available_copies, 1);
    assert_eq!(lib.get_book(1).unwrap().updated_at, later);
}

#[test]
fn returning_twice_is_a_bad_request() {
    let mut lib = stocked(1);
    let rec = lib.borrow_book(borrow(1, 1, None), noon_2024_03_01()).unwrap();
    lib.return_book(ReturnRequest { record_id: rec.id }, noon_2024_03_01()).unwrap();
    let err = lib.return_book(ReturnRequest { record_id: rec.id }, noon_2024_03_01()).unwrap_err();
    assert_eq!(err, ApiError::BadRequest);
    assert_eq!(lib.get_book(1).unwrap().available_copies, 1);
}

#[test]
fn returning_an_unknown_loan_is_not_found() {
    let mut lib = stocked(1);
    let err = lib.return_book(ReturnRequest { record_id: 4 }, noon_2024_03_01()).unwrap_err();
    assert_eq!(err, ApiError::NotFound);
    assert_eq!(err.status_code(), 404);
}

#[test]
fn loan_and_return_restore_the_stock() {
    let mut lib = stocked(3);
    let before = lib.get_book(1).unwrap().available_copies;
    let rec = lib.borrow_book(borrow(1, 1, Some(7)), noon_2024_03_01()).unwrap();
    lib.return_book(ReturnRequest { record_id: rec.id }, noon_2024_03_01()).unwrap();
    assert_eq!(lib.get_book(1).unwrap().available_copies, before);
}

#[test]
fn stats_count_books_members_loans() {
    let mut lib = stocked(3);
    lib.create_book(new_book("Wild Grass", 1), noon_2024_03_01()).unwrap();
    lib.create_member(new_member("Bo", "bo@example.org"), noon_2024_03_01()).unwrap();
    let r1 = lib.borrow_book(borrow(1, 1, Some(1)), noon_2024_03_01()).unwrap();
    lib.borrow_book(borrow(1, 2, Some(30)), noon_2024_03_01()).unwrap();
    lib.borrow_book(borrow(2, 2, Some(1)), noon_2024_03_01()).unwrap();
    lib.return_book(ReturnRequest { record_id: r1.id }, noon_2024_03_01()).unwrap();
    // three days on, the one-day loan still open is overdue
    let s = lib.stats(at(1709294400 + 3 * DAY));
    assert_eq!(s.total_books, 2);
    assert_eq!(s.total_members, 2);
    assert_eq!(s.active_borrows, 2);
    assert_eq!(s.overdue, 1);
}

#[test]
fn loan_is_overdue_once_its_due_date_has_passed() {
    let due = Timestamp { secs: 1709294400, nanos: 500 }; // 2024-03-01T12:00:00Z
    // an hour later on the due day: overdue
    assert!(is_overdue(&due, &at(1709294400 + 3600)));
    // a nanosecond later: overdue
    assert!(is_overdue(&due, &Timestamp { secs: 1709294400, nanos: 501 }));
    // at the due instant: not yet
    assert!(!is_overdue(&due, &due));
    // earlier: not overdue
    assert!(!is_overdue(&due, &at(1709294400 - 3600)));
}

#[test]
fn far_future_due_dates_are_not_overdue() {
    let far = at(253402300800); // 10000-01-01T00:00:00Z
    assert!(!is_overdue(&far, &noon_2024_03_01()));
    let long_ago = at(-62167219201); // before the year 0
    assert!(is_overdue(&long_ago, &noon_2024_03_01()));
}

#[test]
fn very_long_loan_does_not_count_as_overdue() {
    let mut lib = stocked(1);
    let now = noon_2024_03_01();
    let before = lib.stats(now);
    // due in the year 12017
    lib.borrow_book(borrow(1, 1, Some(3_650_000)), now).unwrap();
    let after = lib.stats(now);
    assert_eq!(after.active_borrows, before.active_borrows + 1);
    assert_eq!(after.overdue, before.overdue);
}

#[test]
fn due_date_defaults_to_fourteen_days() {
    let now = noon_2024_03_01();
    let due = due_date(now, None).unwrap();
    assert_eq!(due.secs, now.secs + 14 * DAY);
    assert_eq!(due.nanos, now.nanos);
    assert_eq!(due_date(now, Some(-2)).unwrap().secs, now.secs - 2 * DAY);
    assert_eq!(due_date(now, Some(0)).unwrap(), now);
}

#[test]
fn due_date_out_of_range_is_none() {
    // about 5.9 million years ahead: beyond what a date can hold
    assert_eq!(due_date(noon_2024_03_01(), Some(i32::MAX)), None);
    // the last representable day is still fine
    let last = Timestamp { secs: 8210266876799, nanos: 0 };
    assert_eq!(due_date(at(8210266876799 - DAY), Some(1)), Some(last));
    assert_eq!(due_date(last, Some(1)), None);
}

#[test]
fn restore_accepts_consistent_tables() {
    let mut lib = stocked(2);
    let rec = lib.borrow_book(borrow(1, 1, None), noon_2024_03_01()).unwrap();
    let books = lib.list_books().unwrap();
    let members = lib.list_members();
    let records: Vec<BorrowRecord> = lib.list_records();
    let back = Library::restore(books, members, records, 1, 1, 1).expect("consistent tables");
    assert_eq!(back.get_book(1).unwrap().available_copies, 1);
    assert_eq!(back.list_records(), vec![rec]);
}

#[test]
fn restore_refuses_inconsistent_tables() {
    let mut lib = stocked(2);
    lib.borrow_book(borrow(1, 1, None), noon_2024_03_01()).unwrap();
    // a loan naming a missing member
    assert!(Library::restore(lib.list_books().unwrap(), vec![], lib.list_records(), 1, 0, 1).is_none());
    // an id above the last one handed out
    assert!(Library::restore(lib.list_books().unwrap(), lib.list_members(), vec![], 0, 1, 0).is_none());
    // two members sharing an address
    let mut twins = Library::new();
    twins.create_member(new_member("A", "same@x"), noon_2024_03_01()).unwrap();
    let mut members = twins.list_members();
    let mut second = members[0].duplicate();
    second.id = 2;
    members.insert(0, second);
    members.reverse();
    assert!(Library::restore(vec![], members, vec![], 0, 2, 0).is_none());
}

#[test]
fn stock_beyond_i32_cannot_be_read_back() {
    let mut lib = stocked(1);
    let mut upd = no_change();
    upd.available_copies = Some(i32::MAX);
    lib.update_book(1, upd, noon_2024_03_01()).unwrap();
    // lend one copy out, then raise the stock back to the maximum and return it
    let rec = lib.borrow_book(borrow(1, 1, None), noon_2024_03_01()).unwrap();
    let mut upd = no_change();
    upd.available_copies = Some(i32::MAX);
    lib.update_book(1, upd, noon_2024_03_01()).unwrap();
    lib.return_book(ReturnRequest { record_id: rec.id }, noon_2024_03_01()).unwrap();
    assert_eq!(lib.book_row(1).unwrap().available_copies, i32::MAX as i64 + 1);
    assert_eq!(lib.get_book(1).unwrap_err(), ApiError::Internal);
    assert_eq!(lib.list_books().unwrap_err(), ApiError::Internal);
    assert_eq!(lib.borrow_book(borrow(1, 1, None), noon_2024_03_01()).unwrap_err(), ApiError::Internal);
}

#[test]
fn status_codes() {
    assert_eq!(ApiError::NotFound.status_code(), 404);
    assert_eq!(ApiError::BadRequest.status_code(), 400);
    assert_eq!(ApiError::Internal.status_code(), 500);
}
