//! Why a request fails, and what is said of it.

use vstd::prelude::*;

use crate::accounts::AccountError;
use crate::inventory::InventoryError;
use crate::jobs::JobError;

verus! {

/// Why a request fails. `Internal` holds what is logged, which nobody is shown.
#[derive(Debug, PartialEq, Eq)]
pub enum AppError {
    NotFound,
    Forbidden,
    BadRequest(String),
    Unavailable(String),
    Internal(String),
}

impl AppError {
    pub open spec fn code(self) -> u16 {
        match self {
            AppError::NotFound => 404,
            AppError::Forbidden => 403,
            AppError::BadRequest(_) => 400,
            AppError::Unavailable(_) => 503,
            AppError::Internal(_) => 500,
        }
    }

    pub open spec fn text(self) -> Seq<char> {
        match self {
            AppError::NotFound => "Not found."@,
            AppError::Forbidden => "You are not allowed to do that."@,
            AppError::BadRequest(message) => message@,
            AppError::Unavailable(message) => message@,
            AppError::Internal(_) => "Something went wrong on the server."@,
        }
    }

    /// The HTTP status.
    pub fn status(&self) -> (r: u16)
        ensures
            r == self.code(),
    {
        match self {
            AppError::NotFound => 404,
            AppError::Forbidden => 403,
            AppError::BadRequest(_) => 400,
            AppError::Unavailable(_) => 503,
            AppError::Internal(_) => 500,
        }
    }

    /// What the error page says.
    pub fn message(&self) -> (r: String)
        ensures
            r@ == self.text(),
    {
        match self {
            AppError::NotFound => "Not found.".to_string(),
            AppError::Forbidden => "You are not allowed to do that.".to_string(),
            AppError::BadRequest(message) => message.clone(),
            AppError::Unavailable(message) => message.clone(),
            AppError::Internal(_) => "Something went wrong on the server.".to_string(),
        }
    }

    /// Both are the same kind of error and say the same.
    pub open spec fn says(self, other: AppError) -> bool {
        match (self, other) {
            (AppError::NotFound, AppError::NotFound) => true,
            (AppError::Forbidden, AppError::Forbidden) => true,
            (AppError::BadRequest(a), AppError::BadRequest(b)) => a@ == b@,
            (AppError::Unavailable(a), AppError::Unavailable(b)) => a@ == b@,
            (AppError::Internal(a), AppError::Internal(b)) => a@ == b@,
            _ => false,
        }
    }

    pub open spec fn is_bad_request(self, said: Seq<char>) -> bool {
        self matches AppError::BadRequest(message) && message@ == said
    }

    pub open spec fn is_from_account(self, err: AccountError) -> bool {
        match err {
            AccountError::NotFound => self == AppError::NotFound,
            AccountError::Db => self matches AppError::Internal(logged) && logged@ == err.text(),
            _ => self.is_bad_request(err.text()),
        }
    }

    pub fn from_account(err: AccountError) -> (r: AppError)
        ensures
            r.is_from_account(err),
    {
        match err {
            AccountError::NotFound => AppError::NotFound,
            AccountError::Db => AppError::Internal(err.message().to_string()),
            _ => AppError::BadRequest(err.message().to_string()),
        }
    }

    pub open spec fn is_from_inventory(self, err: InventoryError) -> bool {
        match err {
            InventoryError::NotFound => self == AppError::NotFound,
            _ => self.is_bad_request(err.text()),
        }
    }

    pub fn from_inventory(err: InventoryError) -> (r: AppError)
        ensures
            r.is_from_inventory(err),
    {
        match err {
            InventoryError::NotFound => AppError::NotFound,
            _ => AppError::BadRequest(err.message().to_string()),
        }
    }

    pub open spec fn is_from_job(self, err: JobError) -> bool {
        match err {
            JobError::NotFound => self == AppError::NotFound,
            JobError::Inventory(err) => self.is_from_inventory(err),
            _ => self.is_bad_request(err.text()),
        }
    }

    pub fn from_job(err: JobError) -> (r: AppError)
        ensures
            r.is_from_job(err),
    {
        match err {
            JobError::NotFound => AppError::NotFound,
            JobError::Inventory(err) => AppError::from_inventory(err),
            other => AppError::BadRequest(other.message()),
        }
    }
}

/// What is not there is not found; what was asked for wrongly is told with its reason; what went
/// wrong inside is not told.
pub proof fn errors_are_told_as_they_should(error: AppError, a: AccountError, j: JobError, i: InventoryError)
    ensures
        error.is_from_account(AccountError::NotFound) ==> error.code() == 404,
        error.is_from_job(JobError::NotFound) ==> error.code() == 404,
        error.is_from_inventory(InventoryError::NotFound) ==> error.code() == 404,
        error.is_from_account(a) && !(a is NotFound) && !(a is Db) ==> error.code() == 400
            && error.text() == a.text(),
        error.is_from_account(a) && a is Db ==> error.code() == 500 && error.text()
            == "Something went wrong on the server."@,
        error.is_from_inventory(i) && !(i is NotFound) ==> error.code() == 400 && error.text()
            == i.text(),
        error.is_from_job(j) && !(j is NotFound) && !(j is Inventory) ==> error.code() == 400
            && error.text() == j.text(),
        error is Forbidden ==> error.code() == 403,
        error is Unavailable ==> error.code() == 503,
        error is Internal ==> error.code() == 500 && error.text()
            == "Something went wrong on the server."@,
{
}

} // verus!
