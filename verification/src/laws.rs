//! What holds of the library across operations.

use vstd::prelude::*;

use crate::model::{ApiError, BookUpdate, BorrowRequest, Keyed, LoanStatus, NewBook, NewMember, ReturnRequest};
use crate::state::{open_loan_of_pred, open_loan_pred, overdue_loan_pred, LibraryState};
use crate::tables::{
    has_key, lemma_count_push, lemma_count_update, lemma_position_unique,
    lemma_push_ordered, lemma_update_ordered, position, row,
};
use crate::time::{due_date_spec, loan_days, Timestamp, SECS_PER_DAY};

verus! {

/// A book that was just added reads back as created, with every copy on the
/// shelf and an id that no book ever had before.
pub proof fn law_created_book_reads_back(s: LibraryState, new: NewBook, now: Timestamp)
    requires
        s.wf(),
        s.create_book(new, now).1 is Ok,
    ensures
        ({
            let (s1, r) = s.create_book(new, now);
            let b = r.unwrap();
            &&& s1.get_book(b.id) == Ok::<_, ApiError>(b)
            &&& b.available_copies == b.total_copies
            &&& b.total_copies == new.total_copies
            &&& b.title == new.title
            &&& b.author == new.author
            &&& b.isbn == new.isbn
            &&& b.category == new.category
            &&& b.published_year == new.published_year
            &&& b.created_at == now.spec_whole_seconds()
            &&& b.updated_at == now.spec_whole_seconds()
            &&& b.id > s.last_book_id
            &&& !has_key(s.books, b.id)
        }),
{
    let (s1, r) = s.create_book(new, now);
    let b = r.unwrap();
    lemma_push_ordered(s.books, s.last_book_id as int, b);
    if has_key(s.books, b.id) {
        let p = position(s.books, b.id);
        assert(s.books[p].key() <= s.last_book_id);
    }
}

/// A member who was just registered reads back as registered, active.
pub proof fn law_created_member_reads_back(s: LibraryState, new: NewMember, now: Timestamp)
    requires
        s.wf(),
        s.create_member(new, now).1 is Ok,
    ensures
        ({
            let (s1, r) = s.create_member(new, now);
            let m = r.unwrap();
            &&& s1.get_member(m.id) == Ok::<_, ApiError>(m)
            &&& m.is_active
            &&& m.name == new.name
            &&& m.email == new.email
            &&& m.phone == new.phone
            &&& m.membership_date == now.spec_whole_seconds()
            &&& m.created_at == now.spec_whole_seconds()
            &&& !has_key(s.members, m.id)
        }),
{
    let (s1, r) = s.create_member(new, now);
    let m = r.unwrap();
    lemma_push_ordered(s.members, s.last_member_id as int, m);
    if has_key(s.members, m.id) {
        let p = position(s.members, m.id);
        assert(s.members[p].key() <= s.last_member_id);
    }
}

/// Two members never share an e-mail address: registering an address that
/// is taken is refused and changes nothing.
pub proof fn law_email_addresses_unique(s: LibraryState, new: NewMember, now: Timestamp, i: int)
    requires
        s.wf(),
        0 <= i < s.members.len(),
        s.members[i].email@ == new.email@,
    ensures
        s.create_member(new, now) == (s, Err::<crate::model::Member, ApiError>(ApiError::Internal)),
{
    assert(s.email_taken(new.email));
}

/// A book read after an update is the updated book.
pub proof fn law_updated_book_reads_back(s: LibraryState, id: i64, upd: BookUpdate, now: Timestamp)
    requires
        s.wf(),
        s.update_book(id, upd, now).1 is Ok,
    ensures
        ({
            let (s1, r) = s.update_book(id, upd, now);
            s1.get_book(id) == r
        }),
{
    let (s1, r) = s.update_book(id, upd, now);
    let p = position(s.books, id);
    lemma_position_unique(s.books, s.last_book_id as int, p);
    lemma_update_ordered(s.books, s.last_book_id as int, p, r.unwrap());
    lemma_position_unique(s1.books, s.last_book_id as int, p);
}

/// A book that was deleted is no longer found; likewise a member.
pub proof fn law_deleted_rows_are_gone(s: LibraryState, book_id: i64, member_id: i64)
    requires
        s.wf(),
    ensures
        s.delete_book(book_id).1 is Ok ==> s.delete_book(book_id).0.get_book(book_id) == Err::<
            crate::model::Book,
            ApiError,
        >(ApiError::NotFound),
        s.delete_member(member_id).1 is Ok ==> s.delete_member(member_id).0.get_member(member_id)
            == Err::<crate::model::Member, ApiError>(ApiError::NotFound),
{
    if has_key(s.books, book_id) && !s.book_referenced(book_id) {
        let p = position(s.books, book_id);
        crate::tables::lemma_remove_ordered(s.books, s.last_book_id as int, p);
    }
    if has_key(s.members, member_id) && !s.member_referenced(member_id) {
        let p = position(s.members, member_id);
        crate::tables::lemma_remove_ordered(s.members, s.last_member_id as int, p);
    }
}

/// A refused request changes nothing: every operation is all or nothing.
pub proof fn law_refusals_change_nothing(
    s: LibraryState,
    new_book: NewBook,
    new_member: NewMember,
    id: i64,
    upd: BookUpdate,
    borrow: BorrowRequest,
    ret: ReturnRequest,
    now: Timestamp,
)
    ensures
        s.create_book(new_book, now).1 is Err ==> s.create_book(new_book, now).0 == s,
        s.update_book(id, upd, now).1 is Err ==> s.update_book(id, upd, now).0 == s,
        s.delete_book(id).1 is Err ==> s.delete_book(id).0 == s,
        s.create_member(new_member, now).1 is Err ==> s.create_member(new_member, now).0 == s,
        s.delete_member(id).1 is Err ==> s.delete_member(id).0 == s,
        s.borrow_book(borrow, now).1 is Err ==> s.borrow_book(borrow, now).0 == s,
        s.return_book(ret, now).1 is Err ==> s.return_book(ret, now).0 == s,
{
}

/// A book can be lent only while a copy is on the shelf.
pub proof fn law_no_loan_without_a_copy(s: LibraryState, req: BorrowRequest, now: Timestamp)
    requires
        s.wf(),
        has_key(s.books, req.book_id),
        i32::MIN <= row(s.books, req.book_id).available_copies < 1,
    ensures
        s.borrow_book(req, now).1 == Err::<crate::model::BorrowRecord, ApiError>(
            ApiError::BadRequest,
        ),
        s.borrow_book(req, now).0 == s,
{
}

/// The stock of the book `k` and its open loans after a book at index `i`
/// was replaced by one with the same id.
proof fn lemma_stock_after_book_update(s: LibraryState, s1: LibraryState, i: int, k: i64)
    requires
        s.wf(),
        0 <= i < s.books.len(),
        s1.books.len() == s.books.len(),
        s1.books == s.books.update(i, s1.books[i]),
        s1.books[i].id == s.books[i].id,
        s1.last_book_id == s.last_book_id,
    ensures
        k != s.books[i].id ==> s1.stock(k) == s.stock(k),
        k == s.books[i].id ==> s1.stock(k) == s1.books[i].available_copies && s.stock(k)
            == s.books[i].available_copies,
{
    lemma_update_ordered(s.books, s.last_book_id as int, i, s1.books[i]);
    lemma_position_unique(s.books, s.last_book_id as int, i);
    if has_key(s.books, k) {
        let p = position(s.books, k);
        lemma_position_unique(s.books, s.last_book_id as int, p);
        if k != s.books[i].id {
            assert(p != i);
        }
    }
}

/// Lending a book takes exactly one copy of it off the shelf, opens exactly
/// one loan of it, due `days` days (fourteen by default) after `now`, and
/// leaves every other book's stock as it was.
pub proof fn law_loan_moves_one_copy(s: LibraryState, req: BorrowRequest, now: Timestamp, k: i64)
    requires
        s.wf(),
        s.borrow_book(req, now).1 is Ok,
        due_date_spec(now, req.days) is Some,
    ensures
        ({
            let (s1, r) = s.borrow_book(req, now);
            let rec = r.unwrap();
            &&& s1.stock(req.book_id) == s.stock(req.book_id) - 1
            &&& s1.open_loans(req.book_id) == s.open_loans(req.book_id) + 1
            &&& k != req.book_id ==> s1.stock(k) == s.stock(k) && s1.open_loans(k) == s.open_loans(k)
            &&& rec.status == LoanStatus::Borrowed
            &&& rec.id == s.last_record_id + 1
            &&& !has_key(s.records, rec.id)
            &&& rec.book_id == req.book_id
            &&& rec.member_id == req.member_id
            &&& rec.return_date is None
            &&& rec.due_date.secs == now.secs + loan_days(req.days) * SECS_PER_DAY
            &&& rec.due_date.nanos == now.nanos
            &&& s1.stats(now).active_borrows == s.stats(now).active_borrows + 1
            &&& loan_days(req.days) > 0 ==> s1.stats(now).overdue == s.stats(now).overdue
        }),
{
    let (s1, r) = s.borrow_book(req, now);
    let rec = r.unwrap();
    let i = position(s.books, req.book_id);
    assert(s.books[i].id == req.book_id);
    lemma_stock_after_book_update(s, s1, i, req.book_id);
    lemma_stock_after_book_update(s, s1, i, k);
    lemma_count_push(s.records, open_loan_of_pred(req.book_id), rec);
    lemma_count_push(s.records, open_loan_of_pred(k), rec);
    lemma_count_push(s.records, open_loan_pred(), rec);
    crate::tables::lemma_len_bounded(s1.records, s1.last_record_id as int);
    crate::tables::lemma_count_bounded(s1.records, open_loan_pred());
    crate::tables::lemma_len_bounded(s.records, s.last_record_id as int);
    crate::tables::lemma_count_bounded(s.records, open_loan_pred());
    lemma_push_ordered(s.records, s.last_record_id as int, rec);
    lemma_count_push(s.records, overdue_loan_pred(now), rec);
    crate::tables::lemma_count_bounded(s1.records, overdue_loan_pred(now));
    crate::tables::lemma_count_bounded(s.records, overdue_loan_pred(now));
    if has_key(s.records, rec.id) {
        let p = position(s.records, rec.id);
        assert(s.records[p].key() <= s.last_record_id);
    }
}

/// Taking a copy back puts exactly one copy of the book back on the shelf
/// and marks the loan returned at `now`.
pub proof fn law_return_puts_copy_back(s: LibraryState, req: ReturnRequest, now: Timestamp)
    requires
        s.wf(),
        s.return_book(req, now).1 is Ok,
    ensures
        ({
            let (s1, r) = s.return_book(req, now);
            let rec = r.unwrap();
            &&& s1.stock(rec.book_id) == s.stock(rec.book_id) + 1
            &&& rec.status == LoanStatus::Returned
            &&& rec.return_date == Some(now.spec_whole_seconds())
            &&& rec.id == req.record_id
            &&& s1.return_book(req, now) == (s1, Err::<crate::model::BorrowRecord, ApiError>(ApiError::BadRequest))
            &&& row(s.records, req.record_id).status == LoanStatus::Borrowed
                ==> s1.stats(now).active_borrows == s.stats(now).active_borrows - 1
        }),
{
    let (s1, r) = s.return_book(req, now);
    let rec = r.unwrap();
    let j = position(s.records, req.record_id);
    assert(s.records[j].id == req.record_id);
    assert(has_key(s.books, s.records[j].book_id));
    let i = position(s.books, rec.book_id);
    assert(s.books[i].id == rec.book_id);
    lemma_stock_after_book_update(s, s1, i, rec.book_id);
    lemma_position_unique(s.records, s.last_record_id as int, j);
    lemma_update_ordered(s.records, s.last_record_id as int, j, rec);
    lemma_position_unique(s1.records, s.last_record_id as int, j);
    lemma_count_update(s.records, open_loan_pred(), j, rec);
    crate::tables::lemma_len_bounded(s.records, s.last_record_id as int);
    crate::tables::lemma_count_bounded(s.records, open_loan_pred());
    crate::tables::lemma_count_bounded(s1.records, open_loan_pred());
}

/// For every book, copies on the shelf plus copies out on loans not yet
/// returned stay the same through a request to lend, whether it succeeds or
/// is refused, and no book disappears.
pub proof fn law_copies_conserved_by_loan(s: LibraryState, req: BorrowRequest, now: Timestamp, k: i64)
    requires
        s.wf(),
        s.borrow_reaches_due_date(req) ==> due_date_spec(now, req.days) is Some,
    ensures
        ({
            let s1 = s.borrow_book(req, now).0;
            &&& s1.stock(k) + s1.open_loans(k) == s.stock(k) + s.open_loans(k)
            &&& has_key(s.books, k) ==> has_key(s1.books, k)
        }),
{
    if s.borrow_book(req, now).1 is Ok {
        law_loan_moves_one_copy(s, req, now, k);
        let (s1, _) = s.borrow_book(req, now);
        let i = position(s.books, req.book_id);
        lemma_update_ordered(s.books, s.last_book_id as int, i, s1.books[i]);
    }
}

/// A request to lend never takes a book's stock below zero: if no book had
/// a negative stock before, none has one after.
pub proof fn law_loan_keeps_stock_non_negative(s: LibraryState, req: BorrowRequest, now: Timestamp)
    requires
        s.wf(),
        s.borrow_reaches_due_date(req) ==> due_date_spec(now, req.days) is Some,
        forall|i: int| 0 <= i < s.books.len() ==> #[trigger] s.books[i].available_copies >= 0,
    ensures
        ({
            let s1 = s.borrow_book(req, now).0;
            forall|i: int| 0 <= i < s1.books.len() ==> #[trigger] s1.books[i].available_copies >= 0
        }),
{
    if s.borrow_book(req, now).1 is Ok {
        let (s1, _) = s.borrow_book(req, now);
        let p = position(s.books, req.book_id);
        assert forall|i: int| 0 <= i < s1.books.len() implies #[trigger] s1.books[i].available_copies >= 0 by {
            if i != p {
                assert(s1.books[i] == s.books[i]);
            }
        }
    }
}

/// For every book, copies on the shelf plus copies out on loans not yet
/// returned stay the same through a request to take a copy back.
pub proof fn law_copies_conserved_by_return(s: LibraryState, ret: ReturnRequest, now: Timestamp, k: i64)
    requires
        s.wf(),
    ensures
        ({
            let s2 = s.return_book(ret, now).0;
            s2.stock(k) + s2.open_loans(k) == s.stock(k) + s.open_loans(k)
        }),
{
    if s.return_book(ret, now).1 is Ok {
        let (s2, r) = s.return_book(ret, now);
        let rec = r.unwrap();
        let j = position(s.records, ret.record_id);
        let old = s.records[j];
        assert(old.status != LoanStatus::Returned);
        assert(has_key(s.books, old.book_id));
        let i = position(s.books, old.book_id);
        assert(s.books[i].id == old.book_id);
        lemma_stock_after_book_update(s, s2, i, k);
        lemma_count_update(s.records, open_loan_of_pred(k), j, rec);
    }
}

/// Lending a copy and taking it back leaves the book's stock and open loans
/// as they were; the return of a fresh loan is never refused.
pub proof fn law_loan_then_return_restores_stock(
    s: LibraryState,
    req: BorrowRequest,
    now: Timestamp,
    later: Timestamp,
)
    requires
        s.wf(),
        s.borrow_book(req, now).1 is Ok,
        due_date_spec(now, req.days) is Some,
    ensures
        ({
            let (s1, r) = s.borrow_book(req, now);
            let back = ReturnRequest { record_id: r.unwrap().id };
            let (s2, r2) = s1.return_book(back, later);
            &&& r2 is Ok
            &&& r2.unwrap().status == LoanStatus::Returned
            &&& s2.stock(req.book_id) == s.stock(req.book_id)
            &&& s2.open_loans(req.book_id) == s.open_loans(req.book_id)
        }),
{
    let (s1, r) = s.borrow_book(req, now);
    let rec = r.unwrap();
    let back = ReturnRequest { record_id: rec.id };
    law_loan_moves_one_copy(s, req, now, req.book_id);
    lemma_push_ordered(s.records, s.last_record_id as int, rec);
    assert(s1.wf()) by {
        borrow_keeps_wf(s, req, now);
    }
    assert(has_key(s1.books, req.book_id));
    assert(s1.stock(req.book_id) < i64::MAX);
    law_copies_conserved_by_return(s1, back, later, req.book_id);
    law_return_puts_copy_back(s1, back, later);
}

/// The lending of a book keeps the library's invariant.
proof fn borrow_keeps_wf(s: LibraryState, req: BorrowRequest, now: Timestamp)
    requires
        s.wf(),
        s.borrow_book(req, now).1 is Ok,
    ensures
        s.borrow_book(req, now).0.wf(),
{
    let (s1, r) = s.borrow_book(req, now);
    let rec = r.unwrap();
    let i = position(s.books, req.book_id);
    lemma_update_ordered(s.books, s.last_book_id as int, i, s1.books[i]);
    lemma_push_ordered(s.records, s.last_record_id as int, rec);
    assert forall|q: int| 0 <= q < s1.records.len() implies {
        &&& has_key(s1.books, #[trigger] s1.records[q].book_id)
        &&& has_key(s1.members, s1.records[q].member_id)
    } by {
        if q < s.records.len() {
            assert(s1.records[q] == s.records[q]);
            assert(has_key(s.books, s.records[q].book_id));
        }
    }
}

/// Lists come newest first: ids strictly decrease along them.
pub proof fn law_lists_newest_first(s: LibraryState)
    requires
        s.wf(),
    ensures
        s.list_books() matches Ok(v) ==> forall|a: int, b: int|
            0 <= a < b < v.len() ==> #[trigger] v[a].id > #[trigger] v[b].id,
        forall|a: int, b: int|
            0 <= a < b < s.list_members().len() ==> #[trigger] s.list_members()[a].id
                > #[trigger] s.list_members()[b].id,
        forall|a: int, b: int|
            0 <= a < b < s.list_records().len() ==> #[trigger] s.list_records()[a].id
                > #[trigger] s.list_records()[b].id,
{
    let n = s.books.len();
    assert forall|a: int, b: int| 0 <= a < b < n implies #[trigger] s.books.reverse()[a].id
        > #[trigger] s.books.reverse()[b].id by {
        assert(s.books[n - 1 - b].key() < s.books[n - 1 - a].key());
    }
    let m = s.members.len();
    assert forall|a: int, b: int| 0 <= a < b < m implies #[trigger] s.list_members()[a].id
        > #[trigger] s.list_members()[b].id by {
        assert(s.members[m - 1 - b].key() < s.members[m - 1 - a].key());
    }
    let r = s.records.len();
    assert forall|a: int, b: int| 0 <= a < b < r implies #[trigger] s.list_records()[a].id
        > #[trigger] s.list_records()[b].id by {
        assert(s.records[r - 1 - b].key() < s.records[r - 1 - a].key());
    }
}

/// A request to register a member succeeds whenever its e-mail address is
/// free and member ids are not exhausted.
pub proof fn law_member_registration_succeeds(s: LibraryState, new: NewMember, now: Timestamp)
    requires
        s.wf(),
        forall|i: int| 0 <= i < s.members.len() ==> #[trigger] s.members[i].email@ != new.email@,
        s.last_member_id < i64::MAX,
    ensures
        s.create_member(new, now).1 is Ok,
{
}

/// Every field that an update gives replaces the stored one, every field it
/// leaves out keeps its stored value, and the book keeps its id and creation
/// time while its change time becomes `now`.
pub proof fn law_update_sets_given_fields(s: LibraryState, id: i64, upd: BookUpdate, now: Timestamp)
    requires
        s.wf(),
        s.update_book(id, upd, now).1 is Ok,
    ensures
        ({
            let old = row(s.books, id);
            let b = s.update_book(id, upd, now).1.unwrap();
            &&& b.id == id
            &&& b.created_at == old.created_at
            &&& b.updated_at == now.spec_whole_seconds()
            &&& (upd.title matches Some(t) ==> b.title == t)
            &&& (upd.title is None ==> b.title == old.title)
            &&& (upd.author matches Some(a) ==> b.author == a)
            &&& (upd.author is None ==> b.author == old.author)
            &&& (upd.isbn matches Some(v) ==> b.isbn == Some(v))
            &&& (upd.isbn is None ==> b.isbn == old.isbn)
            &&& (upd.category matches Some(v) ==> b.category == Some(v))
            &&& (upd.category is None ==> b.category == old.category)
            &&& (upd.published_year matches Some(y) ==> b.published_year == Some(y))
            &&& (upd.published_year is None ==> b.published_year == old.published_year)
            &&& (upd.total_copies matches Some(n) ==> b.total_copies == n)
            &&& (upd.total_copies is None ==> b.total_copies == old.total_copies)
            &&& (upd.available_copies matches Some(n) ==> b.available_copies == n)
            &&& (upd.available_copies is None ==> b.available_copies == old.available_copies)
        }),
{
    let p = position(s.books, id);
    assert(s.books[p].id == id);
}

/// A request to lend succeeds whenever the book exists with a readable stock
/// of at least one copy, the member exists and loan ids are not exhausted,
/// whatever loans there were before.
pub proof fn law_loan_succeeds_when_possible(s: LibraryState, req: BorrowRequest, now: Timestamp)
    requires
        s.wf(),
        due_date_spec(now, req.days) is Some,
        has_key(s.books, req.book_id),
        1 <= row(s.books, req.book_id).available_copies <= i32::MAX,
        has_key(s.members, req.member_id),
        s.last_record_id < i64::MAX,
    ensures
        s.borrow_book(req, now).1 is Ok,
{
}

/// Taking a copy back changes the loan's status and return date and nothing
/// else about it, stores it so, and leaves every other loan as it was.
pub proof fn law_return_changes_only_status_and_date(s: LibraryState, req: ReturnRequest, now: Timestamp)
    requires
        s.wf(),
        s.return_book(req, now).1 is Ok,
    ensures
        ({
            let old = row(s.records, req.record_id);
            let (s1, r) = s.return_book(req, now);
            let rec = r.unwrap();
            &&& rec.id == old.id
            &&& rec.book_id == old.book_id
            &&& rec.member_id == old.member_id
            &&& rec.borrow_date == old.borrow_date
            &&& rec.due_date == old.due_date
            &&& rec.created_at == old.created_at
            &&& rec.status == LoanStatus::Returned
            &&& rec.return_date == Some(now.spec_whole_seconds())
            &&& has_key(s1.records, req.record_id)
            &&& row(s1.records, req.record_id) == rec
            &&& s1.records.len() == s.records.len()
            &&& forall|i: int|
                0 <= i < s.records.len() && s.records[i].id != req.record_id ==> #[trigger] s1.records[i]
                    == s.records[i]
        }),
{
    let (s1, r) = s.return_book(req, now);
    let rec = r.unwrap();
    let j = position(s.records, req.record_id);
    assert(s.records[j].id == req.record_id);
    lemma_position_unique(s.records, s.last_record_id as int, j);
    lemma_update_ordered(s.records, s.last_record_id as int, j, rec);
    lemma_position_unique(s1.records, s.last_record_id as int, j);
}

/// The dashboard's book count is the number of books in the table: adding a
/// book raises it by one and deleting an existing book lowers it by one.
pub proof fn law_book_count(s: LibraryState, new: NewBook, id: i64, now: Timestamp)
    requires
        s.wf(),
    ensures
        s.stats(now).total_books == s.books.len(),
        s.create_book(new, now).1 is Ok ==> s.create_book(new, now).0.stats(now).total_books
            == s.stats(now).total_books + 1,
        has_key(s.books, id) && s.delete_book(id).1 is Ok ==> s.delete_book(id).0.stats(now).total_books
            == s.stats(now).total_books - 1,
{
    crate::tables::lemma_len_bounded(s.books, s.last_book_id as int);
    if s.create_book(new, now).1 is Ok {
        let (s1, r) = s.create_book(new, now);
        lemma_push_ordered(s.books, s.last_book_id as int, r.unwrap());
        crate::tables::lemma_len_bounded(s1.books, s1.last_book_id as int);
    }
    if has_key(s.books, id) && s.delete_book(id).1 is Ok {
        let p = position(s.books, id);
        assert(s.books[p].id == id);
    }
}

} // verus!
