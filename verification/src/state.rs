//! The library as a mathematical value, and what each operation does to it.
//!
//! A `LibraryState` is the content of the three tables together with, for
//! each table, the largest id it ever handed out. Each operation is a
//! function from a state (and the request) to the next state and the answer;
//! a refused request leaves the state as it was.

use vstd::prelude::*;

use crate::model::{ApiError, BookUpdate, Book, BorrowRecord, BorrowRequest, LoanStatus, Member, NewBook, NewMember, ReturnRequest, Stats};
use crate::tables::{count, has_key, keys_ordered, position, row};
use crate::time::{due_date_spec, spec_is_overdue, Timestamp};

verus! {

pub struct LibraryState {
    pub books: Seq<Book>,
    pub members: Seq<Member>,
    pub records: Seq<BorrowRecord>,
    pub last_book_id: i64,
    pub last_member_id: i64,
    pub last_record_id: i64,
}

/// The book's stock of copies can be read back as an `i32`.
pub open spec fn stock_readable(b: Book) -> bool {
    i32::MIN <= b.available_copies <= i32::MAX
}

pub open spec fn is_active_member(m: Member) -> bool {
    m.is_active
}

pub open spec fn is_open_loan(r: BorrowRecord) -> bool {
    r.status == LoanStatus::Borrowed
}

/// An open loan whose due date has passed, as the dashboard counts it.
pub open spec fn is_overdue_loan(r: BorrowRecord, now: Timestamp) -> bool {
    r.status == LoanStatus::Borrowed && spec_is_overdue(r.due_date, now)
}

/// A loan of the book `book_id` whose copy has not come back yet.
pub open spec fn is_open_loan_of(r: BorrowRecord, book_id: i64) -> bool {
    r.book_id == book_id && r.status != LoanStatus::Returned
}

pub open spec fn active_member_pred() -> spec_fn(Member) -> bool {
    |m: Member| is_active_member(m)
}

pub open spec fn open_loan_pred() -> spec_fn(BorrowRecord) -> bool {
    |r: BorrowRecord| is_open_loan(r)
}

pub open spec fn overdue_loan_pred(now: Timestamp) -> spec_fn(BorrowRecord) -> bool {
    |r: BorrowRecord| is_overdue_loan(r, now)
}

pub open spec fn open_loan_of_pred(book_id: i64) -> spec_fn(BorrowRecord) -> bool {
    |r: BorrowRecord| is_open_loan_of(r, book_id)
}

/// The book as created from a request, stamped with the store's clock.
pub open spec fn book_from_request(id: i64, new: NewBook, now: Timestamp) -> Book {
    Book {
        id,
        title: new.title,
        author: new.author,
        isbn: new.isbn,
        category: new.category,
        published_year: new.published_year,
        total_copies: new.total_copies,
        available_copies: new.total_copies as i64,
        created_at: now.spec_whole_seconds(),
        updated_at: now.spec_whole_seconds(),
    }
}

/// The book after a partial change: given fields replace stored ones.
pub open spec fn book_after_update(old: Book, upd: BookUpdate, now: Timestamp) -> Book {
    Book {
        id: old.id,
        title: match upd.title {
            Some(t) => t,
            None => old.title,
        },
        author: match upd.author {
            Some(a) => a,
            None => old.author,
        },
        isbn: match upd.isbn {
            Some(v) => Some(v),
            None => old.isbn,
        },
        category: match upd.category {
            Some(v) => Some(v),
            None => old.category,
        },
        published_year: match upd.published_year {
            Some(y) => Some(y),
            None => old.published_year,
        },
        total_copies: match upd.total_copies {
            Some(n) => n,
            None => old.total_copies,
        },
        available_copies: match upd.available_copies {
            Some(n) => n as i64,
            None => old.available_copies,
        },
        created_at: old.created_at,
        updated_at: now.spec_whole_seconds(),
    }
}

/// The member as registered from a request, stamped with the store's clock.
pub open spec fn member_from_request(id: i64, new: NewMember, now: Timestamp) -> Member {
    Member {
        id,
        name: new.name,
        email: new.email,
        phone: new.phone,
        membership_date: now.spec_whole_seconds(),
        is_active: true,
        created_at: now.spec_whole_seconds(),
    }
}

/// The record of a new loan.
pub open spec fn loan_record(id: i64, req: BorrowRequest, now: Timestamp) -> BorrowRecord {
    BorrowRecord {
        id,
        book_id: req.book_id,
        member_id: req.member_id,
        borrow_date: now.spec_whole_seconds(),
        due_date: due_date_spec(now, req.days).unwrap(),
        return_date: None,
        status: LoanStatus::Borrowed,
        created_at: now.spec_whole_seconds(),
    }
}

/// The book with one copy more (`delta == 1`) or fewer (`delta == -1`) on the shelf.
pub open spec fn book_with_stock_change(b: Book, delta: int, now: Timestamp) -> Book {
    Book { available_copies: (b.available_copies + delta) as i64, updated_at: now.spec_whole_seconds(), ..b }
}

/// The record of a loan once the copy came back.
pub open spec fn returned_record(r: BorrowRecord, now: Timestamp) -> BorrowRecord {
    BorrowRecord { return_date: Some(now.spec_whole_seconds()), status: LoanStatus::Returned, ..r }
}

impl LibraryState {
    /// The empty library.
    pub open spec fn empty() -> LibraryState {
        LibraryState {
            books: Seq::empty(),
            members: Seq::empty(),
            records: Seq::empty(),
            last_book_id: 0,
            last_member_id: 0,
            last_record_id: 0,
        }
    }

    pub open spec fn emails_distinct(self) -> bool {
        forall|i: int, j: int|
            0 <= i < j < self.members.len() ==> #[trigger] self.members[i].email@
                != #[trigger] self.members[j].email@
    }

    pub open spec fn email_taken(self, email: String) -> bool {
        exists|i: int| 0 <= i < self.members.len() && #[trigger] self.members[i].email@ == email@
    }

    /// Every loan names a book and a member that exist.
    pub open spec fn loans_refer_to_rows(self) -> bool {
        forall|i: int|
            0 <= i < self.records.len() ==> {
                &&& has_key(self.books, #[trigger] self.records[i].book_id)
                &&& has_key(self.members, self.records[i].member_id)
            }
    }

    /// The invariant of the library: ids ascend within each table and never
    /// pass the last id handed out, e-mail addresses are distinct, and every
    /// loan refers to an existing book and member.
    pub open spec fn wf(self) -> bool {
        &&& 0 <= self.last_book_id
        &&& 0 <= self.last_member_id
        &&& 0 <= self.last_record_id
        &&& keys_ordered(self.books, self.last_book_id as int)
        &&& keys_ordered(self.members, self.last_member_id as int)
        &&& keys_ordered(self.records, self.last_record_id as int)
        &&& self.emails_distinct()
        &&& self.loans_refer_to_rows()
    }

    pub open spec fn book_referenced(self, id: i64) -> bool {
        exists|i: int| 0 <= i < self.records.len() && #[trigger] self.records[i].book_id == id
    }

    pub open spec fn member_referenced(self, id: i64) -> bool {
        exists|i: int| 0 <= i < self.records.len() && #[trigger] self.records[i].member_id == id
    }

    /// Copies of the book on the shelf (0 when there is no such book).
    pub open spec fn stock(self, book_id: i64) -> int {
        if has_key(self.books, book_id) {
            row(self.books, book_id).available_copies as int
        } else {
            0
        }
    }

    /// Loans of the book whose copy has not come back yet.
    pub open spec fn open_loans(self, book_id: i64) -> nat {
        count(self.records, open_loan_of_pred(book_id))
    }

    // ----- books -----
    pub open spec fn create_book(self, new: NewBook, now: Timestamp) -> (LibraryState, Result<Book, ApiError>) {
        if self.last_book_id == i64::MAX {
            (self, Err(ApiError::Internal))
        } else {
            let b = book_from_request((self.last_book_id + 1) as i64, new, now);
            (
                LibraryState {
                    books: self.books.push(b),
                    last_book_id: (self.last_book_id + 1) as i64,
                    ..self
                },
                Ok(b),
            )
        }
    }

    pub open spec fn get_book(self, id: i64) -> Result<Book, ApiError> {
        if !has_key(self.books, id) {
            Err(ApiError::NotFound)
        } else if !stock_readable(row(self.books, id)) {
            Err(ApiError::Internal)
        } else {
            Ok(row(self.books, id))
        }
    }

    /// All books, newest id first.
    pub open spec fn list_books(self) -> Result<Seq<Book>, ApiError> {
        if exists|i: int| 0 <= i < self.books.len() && !stock_readable(#[trigger] self.books[i]) {
            Err(ApiError::Internal)
        } else {
            Ok(self.books.reverse())
        }
    }

    pub open spec fn update_book(self, id: i64, upd: BookUpdate, now: Timestamp) -> (LibraryState, Result<Book, ApiError>) {
        match self.get_book(id) {
            Err(e) => (self, Err(e)),
            Ok(old) => {
                let b = book_after_update(old, upd, now);
                (LibraryState { books: self.books.update(position(self.books, id), b), ..self }, Ok(b))
            },
        }
    }

    pub open spec fn delete_book(self, id: i64) -> (LibraryState, Result<(), ApiError>) {
        if !has_key(self.books, id) {
            (self, Ok(()))
        } else if self.book_referenced(id) {
            (self, Err(ApiError::Internal))
        } else {
            (LibraryState { books: self.books.remove(position(self.books, id)), ..self }, Ok(()))
        }
    }

    // ----- members -----
    pub open spec fn create_member(self, new: NewMember, now: Timestamp) -> (LibraryState, Result<Member, ApiError>) {
        if self.email_taken(new.email) || self.last_member_id == i64::MAX {
            (self, Err(ApiError::Internal))
        } else {
            let m = member_from_request((self.last_member_id + 1) as i64, new, now);
            (
                LibraryState {
                    members: self.members.push(m),
                    last_member_id: (self.last_member_id + 1) as i64,
                    ..self
                },
                Ok(m),
            )
        }
    }

    pub open spec fn get_member(self, id: i64) -> Result<Member, ApiError> {
        if has_key(self.members, id) {
            Ok(row(self.members, id))
        } else {
            Err(ApiError::NotFound)
        }
    }

    /// All members, newest id first.
    pub open spec fn list_members(self) -> Seq<Member> {
        self.members.reverse()
    }

    pub open spec fn delete_member(self, id: i64) -> (LibraryState, Result<(), ApiError>) {
        if !has_key(self.members, id) {
            (self, Ok(()))
        } else if self.member_referenced(id) {
            (self, Err(ApiError::Internal))
        } else {
            (LibraryState { members: self.members.remove(position(self.members, id)), ..self }, Ok(()))
        }
    }

    // ----- loans -----
    /// The checks a loan must pass before the store is changed: the book
    /// exists, its stock can be read, and a copy is on the shelf.
    pub open spec fn check_borrowable(self, book_id: i64) -> Result<(), ApiError> {
        match self.get_book(book_id) {
            Err(e) => Err(e),
            Ok(b) => if b.available_copies < 1 {
                Err(ApiError::BadRequest)
            } else {
                Ok(())
            },
        }
    }

    /// The request reaches the point where the due date is computed.
    pub open spec fn borrow_reaches_due_date(self, req: BorrowRequest) -> bool {
        self.check_borrowable(req.book_id) is Ok
    }

    pub open spec fn borrow_book(self, req: BorrowRequest, now: Timestamp) -> (LibraryState, Result<BorrowRecord, ApiError>) {
        match self.check_borrowable(req.book_id) {
            Err(e) => (self, Err(e)),
            Ok(_) => {
                if self.last_record_id == i64::MAX || !has_key(self.members, req.member_id) {
                    (self, Err(ApiError::Internal))
                } else {
                    let i = position(self.books, req.book_id);
                    let rec = loan_record((self.last_record_id + 1) as i64, req, now);
                    (
                        LibraryState {
                            books: self.books.update(i, book_with_stock_change(self.books[i], -1, now)),
                            records: self.records.push(rec),
                            last_record_id: (self.last_record_id + 1) as i64,
                            ..self
                        },
                        Ok(rec),
                    )
                }
            },
        }
    }

    pub open spec fn return_book(self, req: ReturnRequest, now: Timestamp) -> (LibraryState, Result<BorrowRecord, ApiError>) {
        if !has_key(self.records, req.record_id) {
            (self, Err(ApiError::NotFound))
        } else {
            let j = position(self.records, req.record_id);
            let r = self.records[j];
            if r.status == LoanStatus::Returned {
                (self, Err(ApiError::BadRequest))
            } else {
                let r2 = returned_record(r, now);
                if has_key(self.books, r.book_id) {
                    let i = position(self.books, r.book_id);
                    if self.books[i].available_copies == i64::MAX {
                        (self, Err(ApiError::Internal))
                    } else {
                        (
                            LibraryState {
                                books: self.books.update(i, book_with_stock_change(self.books[i], 1, now)),
                                records: self.records.update(j, r2),
                                ..self
                            },
                            Ok(r2),
                        )
                    }
                } else {
                    (LibraryState { records: self.records.update(j, r2), ..self }, Ok(r2))
                }
            }
        }
    }

    /// All loans, newest id first.
    pub open spec fn list_records(self) -> Seq<BorrowRecord> {
        self.records.reverse()
    }

    /// The dashboard figures at `now`.
    pub open spec fn stats(self, now: Timestamp) -> Stats {
        Stats {
            total_books: self.books.len() as i64,
            total_members: count(self.members, active_member_pred()) as i64,
            active_borrows: count(self.records, open_loan_pred()) as i64,
            overdue: count(self.records, overdue_loan_pred(now)) as i64,
        }
    }
}

} // verus!
