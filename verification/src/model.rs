//! The rows the library keeps and the requests and answers of its operations.

use vstd::prelude::*;

use crate::time::Timestamp;

verus! {

/// Why an operation was refused; each maps to an HTTP status.
#[derive(Clone, Copy, Debug, PartialEq, Eq, Structural)]
pub enum ApiError {
    /// The row that the request names does not exist.
    NotFound,
    /// The request cannot be carried out in the library's current state.
    BadRequest,
    /// The store refused the change (a constraint failed, a row could not be
    /// read back, or the ids ran out).
    Internal,
}

impl ApiError {
    pub open spec fn spec_status_code(self) -> u16 {
        match self {
            ApiError::NotFound => 404,
            ApiError::BadRequest => 400,
            ApiError::Internal => 500,
        }
    }

    /// The HTTP status code that answers a request refused with this error.
    pub fn status_code(&self) -> (c: u16)
        ensures
            c == self.spec_status_code(),
    {
        match self {
            ApiError::NotFound => 404,
            ApiError::BadRequest => 400,
            ApiError::Internal => 500,
        }
    }
}

/// A row of a table, found by its integer key.
pub trait Keyed {
    spec fn key(&self) -> i64;

    fn row_key(&self) -> (k: i64)
        ensures
            k == self.key(),
    ;
}

/// A book of the collection with its stock of copies.
#[derive(Clone, Debug)]
pub struct Book {
    pub id: i64,
    pub title: String,
    pub author: String,
    pub isbn: Option<String>,
    pub category: Option<String>,
    pub published_year: Option<i32>,
    pub total_copies: i32,
    /// Copies on the shelf. The store keeps a 64-bit integer here; a book is
    /// handed out only while this fits in an `i32`.
    pub available_copies: i64,
    pub created_at: Timestamp,
    pub updated_at: Timestamp,
}

impl Keyed for Book {
    open spec fn key(&self) -> i64 {
        self.id
    }

    fn row_key(&self) -> (k: i64) {
        self.id
    }
}

fn clone_text(s: &Option<String>) -> (r: Option<String>)
    ensures
        r == *s,
{
    match s {
        Some(t) => Some(t.clone()),
        None => None,
    }
}

impl Book {
    /// A copy of the row, field for field.
    pub fn duplicate(&self) -> (r: Book)
        ensures
            r == *self,
    {
        Book {
            id: self.id,
            title: self.title.clone(),
            author: self.author.clone(),
            isbn: clone_text(&self.isbn),
            category: clone_text(&self.category),
            published_year: self.published_year,
            total_copies: self.total_copies,
            available_copies: self.available_copies,
            created_at: self.created_at,
            updated_at: self.updated_at,
        }
    }
}

/// What a request to add a book carries.
#[derive(Clone, Debug)]
pub struct NewBook {
    pub title: String,
    pub author: String,
    pub isbn: Option<String>,
    pub category: Option<String>,
    pub published_year: Option<i32>,
    pub total_copies: i32,
}

/// A partial change to a book: each field given replaces the stored one,
/// each field left out keeps it.
#[derive(Clone, Debug)]
pub struct BookUpdate {
    pub title: Option<String>,
    pub author: Option<String>,
    pub isbn: Option<String>,
    pub category: Option<String>,
    pub published_year: Option<i32>,
    pub total_copies: Option<i32>,
    pub available_copies: Option<i32>,
}

/// A registered member.
#[derive(Clone, Debug)]
pub struct Member {
    pub id: i64,
    pub name: String,
    pub email: String,
    pub phone: Option<String>,
    pub membership_date: Timestamp,
    pub is_active: bool,
    pub created_at: Timestamp,
}

impl Keyed for Member {
    open spec fn key(&self) -> i64 {
        self.id
    }

    fn row_key(&self) -> (k: i64) {
        self.id
    }
}

impl Member {
    /// A copy of the row, field for field.
    pub fn duplicate(&self) -> (r: Member)
        ensures
            r == *self,
    {
        Member {
            id: self.id,
            name: self.name.clone(),
            email: self.email.clone(),
            phone: clone_text(&self.phone),
            membership_date: self.membership_date,
            is_active: self.is_active,
            created_at: self.created_at,
        }
    }
}

/// What a request to register a member carries.
#[derive(Clone, Debug)]
pub struct NewMember {
    pub name: String,
    pub email: String,
    pub phone: Option<String>,
}

/// Where a loan stands.
#[derive(Clone, Copy, Debug, PartialEq, Eq, Structural)]
pub enum LoanStatus {
    Borrowed,
    Returned,
    Overdue,
}

/// One loan of one copy of a book to a member.
#[derive(Clone, Copy, Debug, PartialEq, Eq, Structural)]
pub struct BorrowRecord {
    pub id: i64,
    pub book_id: i64,
    pub member_id: i64,
    pub borrow_date: Timestamp,
    pub due_date: Timestamp,
    pub return_date: Option<Timestamp>,
    pub status: LoanStatus,
    pub created_at: Timestamp,
}

impl Keyed for BorrowRecord {
    open spec fn key(&self) -> i64 {
        self.id
    }

    fn row_key(&self) -> (k: i64) {
        self.id
    }
}

/// A request to lend a book: which book, to whom, and for how many days
/// (fourteen when not given).
#[derive(Clone, Copy, Debug, PartialEq, Eq, Structural)]
pub struct BorrowRequest {
    pub book_id: i64,
    pub member_id: i64,
    pub days: Option<i32>,
}

/// A request to take a lent copy back.
#[derive(Clone, Copy, Debug, PartialEq, Eq, Structural)]
pub struct ReturnRequest {
    pub record_id: i64,
}

/// The dashboard figures.
#[derive(Clone, Copy, Debug, PartialEq, Eq, Structural)]
pub struct Stats {
    pub total_books: i64,
    pub total_members: i64,
    pub active_borrows: i64,
    pub overdue: i64,
}

} // verus!
