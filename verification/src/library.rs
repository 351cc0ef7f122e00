//! The library itself: three tables kept in memory, and the operations on
//! them, each proved to do what `LibraryState` says it does.

use vstd::prelude::*;

use crate::model::{
    ApiError, Book, BookUpdate, BorrowRecord, BorrowRequest, Keyed, LoanStatus, Member, NewBook,
    NewMember, ReturnRequest, Stats,
};
use crate::state::{
    active_member_pred, book_after_update, book_from_request, book_with_stock_change, loan_record,
    member_from_request, open_loan_pred, overdue_loan_pred, returned_record, stock_readable,
    LibraryState,
};
use crate::tables::{
    count, find_row, has_key, keys_ordered, lemma_count_bounded, lemma_count_take_step,
    lemma_len_bounded, lemma_push_ordered, lemma_remove_ordered, lemma_update_ordered, position,
    row,
};
use crate::time::{due_date, due_date_spec, is_overdue, Timestamp};

verus! {

struct Tables {
    books: Vec<Book>,
    members: Vec<Member>,
    records: Vec<BorrowRecord>,
    last_book_id: i64,
    last_member_id: i64,
    last_record_id: i64,
}

impl Tables {
    spec fn state(&self) -> LibraryState {
        LibraryState {
            books: self.books@,
            members: self.members@,
            records: self.records@,
            last_book_id: self.last_book_id,
            last_member_id: self.last_member_id,
            last_record_id: self.last_record_id,
        }
    }

    fn empty() -> (t: Tables)
        ensures
            t.state() == LibraryState::empty(),
    {
        Tables {
            books: Vec::new(),
            members: Vec::new(),
            records: Vec::new(),
            last_book_id: 0,
            last_member_id: 0,
            last_record_id: 0,
        }
    }

    fn duplicate(&self) -> (t: Tables)
        ensures
            t.state() == self.state(),
    {
        let mut books: Vec<Book> = Vec::new();
        let mut k: usize = 0;
        while k < self.books.len()
            invariant
                k <= self.books@.len(),
                books@ =~= self.books@.take(k as int),
            decreases self.books@.len() - k,
        {
            books.push(self.books[k].duplicate());
            k += 1;
        }
        let mut members: Vec<Member> = Vec::new();
        let mut k: usize = 0;
        while k < self.members.len()
            invariant
                k <= self.members@.len(),
                members@ =~= self.members@.take(k as int),
            decreases self.members@.len() - k,
        {
            members.push(self.members[k].duplicate());
            k += 1;
        }
        let mut records: Vec<BorrowRecord> = Vec::new();
        let mut k: usize = 0;
        while k < self.records.len()
            invariant
                k <= self.records@.len(),
                records@ =~= self.records@.take(k as int),
            decreases self.records@.len() - k,
        {
            records.push(self.records[k]);
            k += 1;
        }
        proof {
            assert(books@ =~= self.books@);
            assert(members@ =~= self.members@);
            assert(records@ =~= self.records@);
        }
        Tables {
            books,
            members,
            records,
            last_book_id: self.last_book_id,
            last_member_id: self.last_member_id,
            last_record_id: self.last_record_id,
        }
    }

    fn create_book(&mut self, new: NewBook, now: Timestamp) -> (r: Result<Book, ApiError>)
        requires
            old(self).state().wf(),
        ensures
            final(self).state().wf(),
            (final(self).state(), r) == old(self).state().create_book(new, now),
    {
        if self.last_book_id == i64::MAX {
            return Err(ApiError::Internal);
        }
        let ghost s0 = self.state();
        let stamp = now.whole_seconds();
        let b = Book {
            id: self.last_book_id + 1,
            title: new.title,
            author: new.author,
            isbn: new.isbn,
            category: new.category,
            published_year: new.published_year,
            total_copies: new.total_copies,
            available_copies: new.total_copies as i64,
            created_at: stamp,
            updated_at: stamp,
        };
        proof {
            assert(b == book_from_request((s0.last_book_id + 1) as i64, new, now));
            lemma_push_ordered(s0.books, s0.last_book_id as int, b);
        }
        self.books.push(b.duplicate());
        self.last_book_id = b.id;
        proof {
            let s1 = self.state();
            assert forall|k: int| 0 <= k < s1.records.len() implies {
                &&& has_key(s1.books, #[trigger] s1.records[k].book_id)
                &&& has_key(s1.members, s1.records[k].member_id)
            } by {
                assert(has_key(s0.books, s0.records[k].book_id));
            }
        }
        Ok(b)
    }

    fn update_book(&mut self, id: i64, upd: BookUpdate, now: Timestamp) -> (r: Result<Book, ApiError>)
        requires
            old(self).state().wf(),
        ensures
            final(self).state().wf(),
            (final(self).state(), r) == old(self).state().update_book(id, upd, now),
    {
        let i = match self.stock_index(id) {
            Ok(i) => i,
            Err(e) => return Err(e),
        };
        let ghost s0 = self.state();
        let old = self.books[i].duplicate();
        let b = Book {
            id: old.id,
            title: match upd.title {
                Some(t) => t,
                None => old.title,
            },
            author: match upd.author {
                Some(a) => a,
                None => old.author,
            },
            isbn: match upd.isbn {
                Some(v) => Some(v),
                None => old.isbn,
            },
            category: match upd.category {
                Some(v) => Some(v),
                None => old.category,
            },
            published_year: match upd.published_year {
                Some(y) => Some(y),
                None => old.published_year,
            },
            total_copies: match upd.total_copies {
                Some(n) => n,
                None => old.total_copies,
            },
            available_copies: match upd.available_copies {
                Some(n) => n as i64,
                None => old.available_copies,
            },
            created_at: old.created_at,
            updated_at: now.whole_seconds(),
        };
        proof {
            assert(b == book_after_update(s0.books[i as int], upd, now));
            lemma_update_ordered(s0.books, s0.last_book_id as int, i as int, b);
        }
        self.books.set(i, b.duplicate());
        proof {
            let s1 = self.state();
            assert forall|k: int| 0 <= k < s1.records.len() implies {
                &&& has_key(s1.books, #[trigger] s1.records[k].book_id)
                &&& has_key(s1.members, s1.records[k].member_id)
            } by {
                assert(has_key(s0.books, s0.records[k].book_id));
            }
        }
        Ok(b)
    }

    fn delete_book(&mut self, id: i64) -> (r: Result<(), ApiError>)
        requires
            old(self).state().wf(),
        ensures
            final(self).state().wf(),
            (final(self).state(), r) == old(self).state().delete_book(id),
    {
        let ghost s0 = self.state();
        let i = match find_row(&self.books, id, Ghost(self.last_book_id as int)) {
            None => return Ok(()),
            Some(i) => i,
        };
        let mut k: usize = 0;
        while k < self.records.len()
            invariant
                k <= self.records@.len(),
                self.state() == s0,
                s0.wf(),
                has_key(s0.books, id),
                i == position(s0.books, id),
                i < s0.books.len(),
                s0.books[i as int].id == id,
                forall|m: int| 0 <= m < k ==> #[trigger] self.records@[m].book_id != id,
            decreases self.records@.len() - k,
        {
            if self.records[k].book_id == id {
                proof {
                    assert(s0.records[k as int].book_id == id);
                }
                return Err(ApiError::Internal);
            }
            k += 1;
        }
        proof {
            lemma_remove_unreferenced_book(s0, i as int);
        }
        self.books.remove(i);
        Ok(())
    }

    fn email_taken(&self, email: &String) -> (b: bool)
        ensures
            b == self.state().email_taken(*email),
    {
        let mut k: usize = 0;
        while k < self.members.len()
            invariant
                k <= self.members@.len(),
                forall|m: int| 0 <= m < k ==> #[trigger] self.members@[m].email@ != email@,
            decreases self.members@.len() - k,
        {
            if self.members[k].email == *email {
                return true;
            }
            k += 1;
        }
        false
    }

    fn create_member(&mut self, new: NewMember, now: Timestamp) -> (r: Result<Member, ApiError>)
        requires
            old(self).state().wf(),
        ensures
            final(self).state().wf(),
            (final(self).state(), r) == old(self).state().create_member(new, now),
    {
        if self.email_taken(&new.email) || self.last_member_id == i64::MAX {
            return Err(ApiError::Internal);
        }
        let ghost s0 = self.state();
        let stamp = now.whole_seconds();
        let m = Member {
            id: self.last_member_id + 1,
            name: new.name,
            email: new.email,
            phone: new.phone,
            membership_date: stamp,
            is_active: true,
            created_at: stamp,
        };
        proof {
            assert(m == member_from_request((s0.last_member_id + 1) as i64, new, now));
            lemma_push_ordered(s0.members, s0.last_member_id as int, m);
        }
        self.members.push(m.duplicate());
        self.last_member_id = m.id;
        proof {
            let s1 = self.state();
            assert forall|a: int, b: int|
                0 <= a < b < s1.members.len() implies #[trigger] s1.members[a].email@
                != #[trigger] s1.members[b].email@ by {
                if b < s0.members.len() {
                    assert(s0.members[a].email@ != s0.members[b].email@);
                } else {
                    assert(s0.members[a] == s1.members[a]);
                }
            }
            assert forall|k: int| 0 <= k < s1.records.len() implies {
                &&& has_key(s1.books, #[trigger] s1.records[k].book_id)
                &&& has_key(s1.members, s1.records[k].member_id)
            } by {
                assert(has_key(s0.books, s0.records[k].book_id));
                assert(has_key(s0.members, s0.records[k].member_id));
            }
        }
        Ok(m)
    }

    fn delete_member(&mut self, id: i64) -> (r: Result<(), ApiError>)
        requires
            old(self).state().wf(),
        ensures
            final(self).state().wf(),
            (final(self).state(), r) == old(self).state().delete_member(id),
    {
        let ghost s0 = self.state();
        let i = match find_row(&self.members, id, Ghost(self.last_member_id as int)) {
            None => return Ok(()),
            Some(i) => i,
        };
        let mut k: usize = 0;
        while k < self.records.len()
            invariant
                k <= self.records@.len(),
                self.state() == s0,
                s0.wf(),
                has_key(s0.members, id),
                i == position(s0.members, id),
                forall|m: int| 0 <= m < k ==> #[trigger] self.records@[m].member_id != id,
            decreases self.records@.len() - k,
        {
            if self.records[k].member_id == id {
                proof {
                    assert(s0.records[k as int].member_id == id);
                }
                return Err(ApiError::Internal);
            }
            k += 1;
        }
        proof {
            lemma_remove_ordered(s0.members, s0.last_member_id as int, i as int);
        }
        self.members.remove(i);
        proof {
            let s1 = self.state();
            assert forall|a: int, b: int|
                0 <= a < b < s1.members.len() implies #[trigger] s1.members[a].email@
                != #[trigger] s1.members[b].email@ by {
                let a0 = if a < i { a } else { a + 1 };
                let b0 = if b < i { b } else { b + 1 };
                assert(s0.members[a0].email@ != s0.members[b0].email@);
            }
            assert forall|k: int| 0 <= k < s1.records.len() implies {
                &&& has_key(s1.books, #[trigger] s1.records[k].book_id)
                &&& has_key(s1.members, s1.records[k].member_id)
            } by {
                assert(has_key(s0.books, s0.records[k].book_id));
                assert(has_key(s0.members, s0.records[k].member_id));
                assert(s0.records[k].member_id != id);
            }
        }
        Ok(())
    }

    fn stock_index(&self, book_id: i64) -> (r: Result<usize, ApiError>)
        requires
            self.state().wf(),
        ensures
            match r {
                Ok(i) => {
                    &&& self.state().get_book(book_id) == Ok::<Book, ApiError>(self.books@[i as int])
                    &&& i < self.books@.len()
                    &&& i == position(self.books@, book_id)
                },
                Err(e) => self.state().get_book(book_id) == Err::<Book, ApiError>(e),
            },
    {
        match find_row(&self.books, book_id, Ghost(self.last_book_id as int)) {
            None => Err(ApiError::NotFound),
            Some(i) => {
                let a = self.books[i].available_copies;
                if a < i32::MIN as i64 || a > i32::MAX as i64 {
                    Err(ApiError::Internal)
                } else {
                    Ok(i)
                }
            },
        }
    }

    fn check_borrowable(&self, book_id: i64) -> (r: Result<usize, ApiError>)
        requires
            self.state().wf(),
        ensures
            match r {
                Ok(i) => {
                    &&& self.state().check_borrowable(book_id) is Ok
                    &&& i < self.books@.len()
                    &&& i == position(self.books@, book_id)
                    &&& has_key(self.books@, book_id)
                },
                Err(e) => self.state().check_borrowable(book_id) == Err::<(), ApiError>(e),
            },
    {
        let i = match self.stock_index(book_id) {
            Ok(i) => i,
            Err(e) => return Err(e),
        };
        if self.books[i].available_copies < 1 {
            Err(ApiError::BadRequest)
        } else {
            Ok(i)
        }
    }

    fn borrow_book(&mut self, req: BorrowRequest, now: Timestamp) -> (r: Result<
        BorrowRecord,
        ApiError,
    >)
        requires
            old(self).state().wf(),
            old(self).state().borrow_reaches_due_date(req) ==> due_date_spec(now, req.days) is Some,
        ensures
            final(self).state().wf(),
            (final(self).state(), r) == old(self).state().borrow_book(req, now),
    {
        let i = match self.check_borrowable(req.book_id) {
            Ok(i) => i,
            Err(e) => return Err(e),
        };
        let due = due_date(now, req.days).unwrap();
        if self.last_record_id == i64::MAX {
            return Err(ApiError::Internal);
        }
        if find_row(&self.members, req.member_id, Ghost(self.last_member_id as int)).is_none() {
            return Err(ApiError::Internal);
        }
        let ghost s0 = self.state();
        let stamp = now.whole_seconds();
        let rec = BorrowRecord {
            id: self.last_record_id + 1,
            book_id: req.book_id,
            member_id: req.member_id,
            borrow_date: stamp,
            due_date: due,
            return_date: None,
            status: LoanStatus::Borrowed,
            created_at: stamp,
        };
        let b = self.books[i].duplicate();
        let nb = Book { available_copies: b.available_copies - 1, updated_at: stamp, ..b };
        proof {
            assert(nb == book_with_stock_change(s0.books[i as int], -1, now));
            assert(rec == loan_record((s0.last_record_id + 1) as i64, req, now));
            lemma_update_ordered(s0.books, s0.last_book_id as int, i as int, nb);
            lemma_push_ordered(s0.records, s0.last_record_id as int, rec);
        }
        self.books.set(i, nb);
        self.records.push(rec);
        self.last_record_id = rec.id;
        proof {
            let s1 = self.state();
            assert forall|k: int| 0 <= k < s1.records.len() implies {
                &&& has_key(s1.books, #[trigger] s1.records[k].book_id)
                &&& has_key(s1.members, s1.records[k].member_id)
            } by {
                if k < s0.records.len() {
                    assert(s1.records[k] == s0.records[k]);
                }
            }
        }
        Ok(rec)
    }

    fn return_book(&mut self, req: ReturnRequest, now: Timestamp) -> (r: Result<
        BorrowRecord,
        ApiError,
    >)
        requires
            old(self).state().wf(),
        ensures
            final(self).state().wf(),
            (final(self).state(), r) == old(self).state().return_book(req, now),
    {
        let ghost s0 = self.state();
        let j = match find_row(&self.records, req.record_id, Ghost(self.last_record_id as int)) {
            None => return Err(ApiError::NotFound),
            Some(j) => j,
        };
        let rec = self.records[j];
        if rec.status == LoanStatus::Returned {
            return Err(ApiError::BadRequest);
        }
        let stamp = now.whole_seconds();
        let r2 = BorrowRecord { return_date: Some(stamp), status: LoanStatus::Returned, ..rec };
        proof {
            assert(r2 == returned_record(s0.records[j as int], now));
            lemma_update_ordered(s0.records, s0.last_record_id as int, j as int, r2);
        }
        match find_row(&self.books, rec.book_id, Ghost(self.last_book_id as int)) {
            Some(i) => {
                if self.books[i].available_copies == i64::MAX {
                    return Err(ApiError::Internal);
                }
                let b = self.books[i].duplicate();
                let nb = Book { available_copies: b.available_copies + 1, updated_at: stamp, ..b };
                proof {
                    assert(nb == book_with_stock_change(s0.books[i as int], 1, now));
                    lemma_update_ordered(s0.books, s0.last_book_id as int, i as int, nb);
                }
                self.books.set(i, nb);
                self.records.set(j, r2);
            },
            None => {
                self.records.set(j, r2);
            },
        }
        proof {
            let s1 = self.state();
            assert forall|k: int| 0 <= k < s1.records.len() implies {
                &&& has_key(s1.books, #[trigger] s1.records[k].book_id)
                &&& has_key(s1.members, s1.records[k].member_id)
            } by {
                assert(s0.records[k].book_id == s1.records[k].book_id);
                assert(s0.records[k].member_id == s1.records[k].member_id);
            }
        }
        Ok(r2)
    }
}

/// Checks that keys ascend, are positive and do not pass `last`.
fn keys_in_order<T: Keyed>(rows: &Vec<T>, last: i64) -> (b: bool)
    ensures
        b == keys_ordered(rows@, last as int),
{
    let mut k: usize = 0;
    while k < rows.len()
        invariant
            k <= rows@.len(),
            forall|a: int, b: int| 0 <= a < b < k ==> #[trigger] rows@[a].key() < #[trigger] rows@[b].key(),
            forall|a: int| 0 <= a < k ==> 1 <= #[trigger] rows@[a].key() <= last,
        decreases rows@.len() - k,
    {
        let key = rows[k].row_key();
        if key < 1 || key > last {
            return false;
        }
        if k > 0 && rows[k - 1].row_key() >= key {
            return false;
        }
        proof {
            assert forall|a: int, b: int| 0 <= a < b < k + 1 implies #[trigger] rows@[a].key()
                < #[trigger] rows@[b].key() by {
                if b == k && a < k - 1 {
                    assert(rows@[a].key() < rows@[k - 1].key());
                }
            }
        }
        k += 1;
    }
    true
}

/// Checks that no two members share an e-mail address.
fn emails_distinct(members: &Vec<Member>) -> (b: bool)
    ensures
        b == (forall|i: int, j: int|
            0 <= i < j < members@.len() ==> #[trigger] members@[i].email@
                != #[trigger] members@[j].email@),
{
    let n = members.len();
    let mut a: usize = 0;
    while a < n
        invariant
            n == members@.len(),
            a <= n,
            forall|i: int, j: int|
                0 <= i < j < n && i < a ==> #[trigger] members@[i].email@ != #[trigger] members@[j].email@,
        decreases n - a,
    {
        let mut b: usize = a + 1;
        while b < n
            invariant
                n == members@.len(),
                a < n,
                a < b <= n,
                forall|i: int, j: int|
                    0 <= i < j < n && i < a ==> #[trigger] members@[i].email@ != #[trigger] members@[j].email@,
                forall|j: int| a < j < b ==> members@[a as int].email@ != #[trigger] members@[j].email@,
            decreases n - b,
        {
            if members[a].email == members[b].email {
                return false;
            }
            b += 1;
        }
        a += 1;
    }
    true
}

/// Removing a book that no loan names keeps the library well formed.
proof fn lemma_remove_unreferenced_book(s0: LibraryState, i: int)
    requires
        s0.wf(),
        0 <= i < s0.books.len(),
        !s0.book_referenced(s0.books[i].id),
    ensures
        (LibraryState { books: s0.books.remove(i), ..s0 }).wf(),
{
    let s1 = LibraryState { books: s0.books.remove(i), ..s0 };
    lemma_remove_ordered(s0.books, s0.last_book_id as int, i);
    assert forall|q: int| 0 <= q < s1.records.len() implies {
        &&& has_key(s1.books, #[trigger] s1.records[q].book_id)
        &&& has_key(s1.members, s1.records[q].member_id)
    } by {
        assert(has_key(s0.books, s0.records[q].book_id));
        assert(s0.records[q].book_id != s0.books[i].id);
    }
}

/// The library: its books, members and loans.
pub struct Library {
    tables: Tables,
}

impl View for Library {
    type V = LibraryState;

    closed spec fn view(&self) -> LibraryState {
        self.tables.state()
    }
}

impl Library {
    #[verifier::type_invariant]
    closed spec fn well_formed(self) -> bool {
        self.tables.state().wf()
    }

    /// Takes the tables out, leaving an empty library in their place.
    fn take_tables(&mut self) -> (t: Tables)
        ensures
            t.state() == old(self)@,
            t.state().wf(),
    {
        proof {
            use_type_invariant(&*self);
        }
        let mut t = Tables::empty();
        std::mem::swap(&mut t, &mut self.tables);
        t
    }

    /// An empty library.
    pub fn new() -> (lib: Library)
        ensures
            lib@ == LibraryState::empty(),
            lib@.wf(),
    {
        Library { tables: Tables::empty() }
    }

    /// Rebuilds a library from stored tables and the last id each handed
    /// out; `None` when they break the library's invariant.
    pub fn restore(
        books: Vec<Book>,
        members: Vec<Member>,
        records: Vec<BorrowRecord>,
        last_book_id: i64,
        last_member_id: i64,
        last_record_id: i64,
    ) -> (r: Option<Library>)
        ensures
            r is Some <==> (LibraryState {
                books: books@,
                members: members@,
                records: records@,
                last_book_id,
                last_member_id,
                last_record_id,
            }).wf(),
            r matches Some(lib) ==> lib@ == (LibraryState {
                books: books@,
                members: members@,
                records: records@,
                last_book_id,
                last_member_id,
                last_record_id,
            }),
    {
        let t = Tables { books, members, records, last_book_id, last_member_id, last_record_id };
        if last_book_id < 0 || last_member_id < 0 || last_record_id < 0 {
            return None;
        }
        if !keys_in_order(&t.books, last_book_id) || !keys_in_order(&t.members, last_member_id)
            || !keys_in_order(&t.records, last_record_id) || !emails_distinct(&t.members) {
            return None;
        }
        let ghost s = t.state();
        let mut k: usize = 0;
        while k < t.records.len()
            invariant
                t.state() == s,
                s == (LibraryState {
                    books: books@,
                    members: members@,
                    records: records@,
                    last_book_id,
                    last_member_id,
                    last_record_id,
                }),
                0 <= last_book_id,
                0 <= last_member_id,
                0 <= last_record_id,
                keys_ordered(t.records@, last_record_id as int),
                s.emails_distinct(),
                k <= t.records@.len(),
                keys_ordered(t.books@, last_book_id as int),
                keys_ordered(t.members@, last_member_id as int),
                forall|q: int|
                    0 <= q < k ==> {
                        &&& has_key(t.books@, #[trigger] t.records@[q].book_id)
                        &&& has_key(t.members@, t.records@[q].member_id)
                    },
            decreases t.records@.len() - k,
        {
            let rec = t.records[k];
            if find_row(&t.books, rec.book_id, Ghost(last_book_id as int)).is_none() || find_row(
                &t.members,
                rec.member_id,
                Ghost(last_member_id as int),
            ).is_none() {
                return None;
            }
            proof {
                assert(rec == t.records@[k as int]);
            }
            k += 1;
        }
        Some(Library { tables: t })
    }

    /// A copy of the whole library.
    pub fn duplicate(&self) -> (r: Library)
        ensures
            r@ == self@,
    {
        proof {
            use_type_invariant(self);
        }
        Library { tables: self.tables.duplicate() }
    }

    /// Adds a book; all its copies start on the shelf.
    pub fn create_book(&mut self, new: NewBook, now: Timestamp) -> (r: Result<Book, ApiError>)
        ensures
            final(self)@.wf(),
            (final(self)@, r) == old(self)@.create_book(new, now),
    {
        let mut t = self.take_tables();
        let r = t.create_book(new, now);
        self.tables = t;
        r
    }

    /// Changes the fields of a book that the update gives.
    pub fn update_book(&mut self, id: i64, upd: BookUpdate, now: Timestamp) -> (r: Result<Book, ApiError>)
        ensures
            final(self)@.wf(),
            (final(self)@, r) == old(self)@.update_book(id, upd, now),
    {
        let mut t = self.take_tables();
        let r = t.update_book(id, upd, now);
        self.tables = t;
        r
    }

    /// Removes a book; refused while any loan record names it.
    pub fn delete_book(&mut self, id: i64) -> (r: Result<(), ApiError>)
        ensures
            final(self)@.wf(),
            (final(self)@, r) == old(self)@.delete_book(id),
    {
        let mut t = self.take_tables();
        let r = t.delete_book(id);
        self.tables = t;
        r
    }

    /// Registers a member; refused when the e-mail address is taken.
    pub fn create_member(&mut self, new: NewMember, now: Timestamp) -> (r: Result<Member, ApiError>)
        ensures
            final(self)@.wf(),
            (final(self)@, r) == old(self)@.create_member(new, now),
    {
        let mut t = self.take_tables();
        let r = t.create_member(new, now);
        self.tables = t;
        r
    }

    /// Removes a member; refused while any loan record names them.
    pub fn delete_member(&mut self, id: i64) -> (r: Result<(), ApiError>)
        ensures
            final(self)@.wf(),
            (final(self)@, r) == old(self)@.delete_member(id),
    {
        let mut t = self.take_tables();
        let r = t.delete_member(id);
        self.tables = t;
        r
    }

    /// The book with the given id.
    pub fn get_book(&self, id: i64) -> (r: Result<Book, ApiError>)
        ensures
            r == self@.get_book(id),
    {
        proof {
            use_type_invariant(self);
        }
        match self.tables.stock_index(id) {
            Ok(i) => Ok(self.tables.books[i].duplicate()),
            Err(e) => Err(e),
        }
    }

    /// Whether a loan of the book would pass the checks made before the
    /// store is changed (the book exists, its stock is readable and a copy
    /// is on the shelf).
    pub fn check_borrowable(&self, book_id: i64) -> (r: Result<(), ApiError>)
        ensures
            r == self@.check_borrowable(book_id),
    {
        proof {
            use_type_invariant(self);
        }
        match self.tables.check_borrowable(book_id) {
            Ok(_) => Ok(()),
            Err(e) => Err(e),
        }
    }

    /// The member with the given id.
    pub fn get_member(&self, id: i64) -> (r: Result<Member, ApiError>)
        ensures
            r == self@.get_member(id),
    {
        proof {
            use_type_invariant(self);
        }
        match find_row(&self.tables.members, id, Ghost(self.tables.last_member_id as int)) {
            Some(i) => Ok(self.tables.members[i].duplicate()),
            None => Err(ApiError::NotFound),
        }
    }

    /// The stored row of a book, whatever its stock.
    pub fn book_row(&self, id: i64) -> (r: Option<Book>)
        ensures
            r == (if has_key(self@.books, id) {
                Some(row(self@.books, id))
            } else {
                None
            }),
    {
        proof {
            use_type_invariant(self);
        }
        match find_row(&self.tables.books, id, Ghost(self.tables.last_book_id as int)) {
            Some(i) => Some(self.tables.books[i].duplicate()),
            None => None,
        }
    }

    /// All books, newest id first; refused when a book's stock cannot be read.
    pub fn list_books(&self) -> (r: Result<Vec<Book>, ApiError>)
        ensures
            match r {
                Ok(v) => self@.list_books() == Ok::<Seq<Book>, ApiError>(v@),
                Err(e) => self@.list_books() == Err::<Seq<Book>, ApiError>(e),
            },
    {
        let books = &self.tables.books;
        let n = books.len();
        let mut out: Vec<Book> = Vec::new();
        let mut k: usize = 0;
        while k < n
            invariant
                n == books@.len(),
                books@ == self@.books,
                k <= n,
                out@.len() == k,
                forall|t: int| 0 <= t < k ==> #[trigger] out@[t] == books@[n - 1 - t],
                forall|t: int| n - k <= t < n ==> stock_readable(#[trigger] books@[t]),
            decreases n - k,
        {
            let b = &books[n - 1 - k];
            if b.available_copies < i32::MIN as i64 || b.available_copies > i32::MAX as i64 {
                proof {
                    assert(!stock_readable(books@[n - 1 - k]));
                }
                return Err(ApiError::Internal);
            }
            out.push(b.duplicate());
            k += 1;
        }
        proof {
            assert(out@ =~= books@.reverse());
        }
        Ok(out)
    }

    /// All members, newest id first.
    pub fn list_members(&self) -> (r: Vec<Member>)
        ensures
            r@ == self@.list_members(),
    {
        let members = &self.tables.members;
        let n = members.len();
        let mut out: Vec<Member> = Vec::new();
        let mut k: usize = 0;
        while k < n
            invariant
                n == members@.len(),
                k <= n,
                out@.len() == k,
                forall|t: int| 0 <= t < k ==> #[trigger] out@[t] == members@[n - 1 - t],
            decreases n - k,
        {
            out.push(members[n - 1 - k].duplicate());
            k += 1;
        }
        proof {
            assert(out@ =~= members@.reverse());
        }
        out
    }

    /// All loan records, newest id first.
    pub fn list_records(&self) -> (r: Vec<BorrowRecord>)
        ensures
            r@ == self@.list_records(),
    {
        let records = &self.tables.records;
        let n = records.len();
        let mut out: Vec<BorrowRecord> = Vec::new();
        let mut k: usize = 0;
        while k < n
            invariant
                n == records@.len(),
                k <= n,
                out@.len() == k,
                forall|t: int| 0 <= t < k ==> #[trigger] out@[t] == records@[n - 1 - t],
            decreases n - k,
        {
            out.push(records[n - 1 - k]);
            k += 1;
        }
        proof {
            assert(out@ =~= records@.reverse());
        }
        out
    }

    /// The dashboard figures at `now`: how many books, active members, open
    /// loans, and open loans past their due date.
    pub fn stats(&self, now: Timestamp) -> (r: Stats)
        ensures
            r == self@.stats(now),
    {
        proof {
            use_type_invariant(self);
            lemma_len_bounded(self@.books, self@.last_book_id as int);
            lemma_len_bounded(self@.members, self@.last_member_id as int);
            lemma_len_bounded(self@.records, self@.last_record_id as int);
        }
        let members = &self.tables.members;
        let records = &self.tables.records;
        let mut active_members: i64 = 0;
        let mut k: usize = 0;
        while k < members.len()
            invariant
                k <= members@.len() <= i64::MAX,
                active_members == count(members@.take(k as int), active_member_pred()),
            decreases members@.len() - k,
        {
            proof {
                lemma_count_take_step(members@, active_member_pred(), k as int);
                lemma_count_bounded(members@.take(k as int), active_member_pred());
            }
            if members[k].is_active {
                active_members = active_members + 1;
            }
            k += 1;
        }
        let mut open: i64 = 0;
        let mut late: i64 = 0;
        let mut k: usize = 0;
        while k < records.len()
            invariant
                k <= records@.len() <= i64::MAX,
                open == count(records@.take(k as int), open_loan_pred()),
                late == count(records@.take(k as int), overdue_loan_pred(now)),
            decreases records@.len() - k,
        {
            proof {
                lemma_count_take_step(records@, open_loan_pred(), k as int);
                lemma_count_take_step(records@, overdue_loan_pred(now), k as int);
                lemma_count_bounded(records@.take(k as int), open_loan_pred());
                lemma_count_bounded(records@.take(k as int), overdue_loan_pred(now));
            }
            let r = &records[k];
            if r.status == LoanStatus::Borrowed {
                open = open + 1;
                if is_overdue(&r.due_date, &now) {
                    late = late + 1;
                }
            }
            k += 1;
        }
        proof {
            assert(members@.take(members@.len() as int) =~= members@);
            assert(records@.take(records@.len() as int) =~= records@);
        }
        Stats {
            total_books: self.tables.books.len() as i64,
            total_members: active_members,
            active_borrows: open,
            overdue: late,
        }
    }

    /// Lends a copy of a book to a member, in one step: one copy leaves the
    /// shelf and a loan record due `days` days from now is added, or, if the
    /// request is refused, nothing changes.
    pub fn borrow_book(&mut self, req: BorrowRequest, now: Timestamp) -> (r: Result<
        BorrowRecord,
        ApiError,
    >)
        requires
            old(self)@.borrow_reaches_due_date(req) ==> due_date_spec(now, req.days) is Some,
        ensures
            final(self)@.wf(),
            (final(self)@, r) == old(self)@.borrow_book(req, now),
    {
        let mut t = self.take_tables();
        let r = t.borrow_book(req, now);
        self.tables = t;
        r
    }

    /// Takes a lent copy back, in one step: the loan is marked returned and
    /// the copy goes back on the shelf, or, if the request is refused,
    /// nothing changes.
    pub fn return_book(&mut self, req: ReturnRequest, now: Timestamp) -> (r: Result<
        BorrowRecord,
        ApiError,
    >)
        ensures
            final(self)@.wf(),
            (final(self)@, r) == old(self)@.return_book(req, now),
    {
        let mut t = self.take_tables();
        let r = t.return_book(req, now);
        self.tables = t;
        r
    }
}

} // verus!
