//! The error that every fallible operation of the library reports: a
//! machine-readable code, a message for the user and an optional detail.
use vstd::prelude::*;
use crate::text::{concat2, concat3, owned};

verus! {

/// What kind of failure an [`AppError`] reports.
#[derive(Clone, Copy, PartialEq, Eq, Structural, Debug)]
pub enum ErrorCode {
    NotFound,
    ValidationError,
    DatabaseError,
    IoError,
    Cancelled,
    Conflict,
    Unknown,
}

/// An error with a code, a user-facing message and an optional detail.
#[derive(Debug)]
pub struct AppError {
    pub code: ErrorCode,
    pub message: String,
    pub detail: Option<String>,
}

impl Clone for AppError {
    fn clone(&self) -> (r: Self)
        ensures
            r == *self,
    {
        let detail = match &self.detail {
            Some(d) => Some(d.clone()),
            None => None,
        };
        AppError { code: self.code, message: self.message.clone(), detail }
    }
}

/// The text under which an error code is shown (its variant name).
pub open spec fn code_name(c: ErrorCode) -> Seq<char> {
    match c {
        ErrorCode::NotFound => "NotFound"@,
        ErrorCode::ValidationError => "ValidationError"@,
        ErrorCode::DatabaseError => "DatabaseError"@,
        ErrorCode::IoError => "IoError"@,
        ErrorCode::Cancelled => "Cancelled"@,
        ErrorCode::Conflict => "Conflict"@,
        ErrorCode::Unknown => "Unknown"@,
    }
}

/// The message that the database layer gives every failed statement.
pub open spec fn database_message() -> Seq<char> {
    "数据库操作失败"@
}

/// True when `e` is a database failure whose detail is `detail`.
pub open spec fn is_database_error(e: AppError, detail: Seq<char>) -> bool {
    &&& e.code == ErrorCode::DatabaseError
    &&& e.message@ == database_message()
    &&& e.detail matches Some(d) && d@ == detail
}

/// True when `e` is a validation failure with message `msg`.
pub open spec fn is_validation(e: AppError, msg: Seq<char>) -> bool {
    &&& e.code == ErrorCode::ValidationError
    &&& e.message@ == msg
    &&& e.detail is None
}

/// True when `e` is a failed file operation with message `msg`.
pub open spec fn is_io_error(e: AppError, msg: Seq<char>) -> bool {
    &&& e.code == ErrorCode::IoError
    &&& e.message@ == msg
    &&& e.detail is None
}

/// True when `e` is a conflict with message `msg`.
pub open spec fn is_conflict(e: AppError, msg: Seq<char>) -> bool {
    &&& e.code == ErrorCode::Conflict
    &&& e.message@ == msg
    &&& e.detail is None
}

/// True when `e` reports that `entity` does not exist.
pub open spec fn is_not_found(e: AppError, entity: Seq<char>) -> bool {
    &&& e.code == ErrorCode::NotFound
    &&& e.message@ == entity + " 不存在"@
    &&& e.detail is None
}

impl AppError {
    /// `<entity> 不存在`.
    pub fn not_found(entity: &str) -> (e: Self)
        ensures
            is_not_found(e, entity@),
    {
        AppError { code: ErrorCode::NotFound, message: concat2(entity, " 不存在"), detail: None }
    }

    /// A rejected input.
    pub fn validation(msg: &str) -> (e: Self)
        ensures
            is_validation(e, msg@),
    {
        AppError { code: ErrorCode::ValidationError, message: owned(msg), detail: None }
    }

    /// A failed file operation.
    pub fn io(msg: &str) -> (e: Self)
        ensures
            e.code == ErrorCode::IoError,
            e.message@ == msg@,
            e.detail is None,
    {
        AppError { code: ErrorCode::IoError, message: owned(msg), detail: None }
    }

    /// An operation the user called off.
    pub fn cancelled(msg: &str) -> (e: Self)
        ensures
            e.code == ErrorCode::Cancelled,
            e.message@ == msg@,
            e.detail is None,
    {
        AppError { code: ErrorCode::Cancelled, message: owned(msg), detail: None }
    }

    /// A clash with existing data.
    pub fn conflict(msg: &str) -> (e: Self)
        ensures
            is_conflict(e, msg@),
    {
        AppError { code: ErrorCode::Conflict, message: owned(msg), detail: None }
    }

    /// True for a record rejected by a rule (validation or conflict): a batch
    /// can skip such a record and go on.
    pub fn is_rejectable(&self) -> (r: bool)
        ensures
            r == (self.code == ErrorCode::ValidationError || self.code == ErrorCode::Conflict),
    {
        match self.code {
            ErrorCode::ValidationError | ErrorCode::Conflict => true,
            _ => false,
        }
    }

    /// A failed database statement; `detail` is the database's own text.
    pub fn database(detail: &str) -> (e: Self)
        ensures
            is_database_error(e, detail@),
    {
        AppError {
            code: ErrorCode::DatabaseError,
            message: owned("数据库操作失败"),
            detail: Some(owned(detail)),
        }
    }

    /// A failed file operation reported by the operating system as `detail`.
    pub fn file_failure(detail: &str) -> (e: Self)
        ensures
            e.code == ErrorCode::IoError,
            e.message@ == "文件操作失败: "@ + detail@,
            e.detail is None,
    {
        AppError {
            code: ErrorCode::IoError,
            message: concat2("文件操作失败: ", detail),
            detail: None,
        }
    }

    /// Malformed JSON data, described by the parser as `detail`.
    pub fn data_format(detail: &str) -> (e: Self)
        ensures
            e.code == ErrorCode::ValidationError,
            e.message@ == "数据格式错误: "@ + detail@,
            e.detail is None,
    {
        AppError {
            code: ErrorCode::ValidationError,
            message: concat2("数据格式错误: ", detail),
            detail: None,
        }
    }

    /// A failure while writing a workbook, described as `detail`.
    pub fn excel_write(detail: &str) -> (e: Self)
        ensures
            e.code == ErrorCode::IoError,
            e.message@ == "Excel操作失败: "@ + detail@,
            e.detail is None,
    {
        AppError {
            code: ErrorCode::IoError,
            message: concat2("Excel操作失败: ", detail),
            detail: None,
        }
    }

    /// A failure while reading a workbook, described as `detail`.
    pub fn excel_read(detail: &str) -> (e: Self)
        ensures
            e.code == ErrorCode::IoError,
            e.message@ == "Excel读取失败: "@ + detail@,
            e.detail is None,
    {
        AppError {
            code: ErrorCode::IoError,
            message: concat2("Excel读取失败: ", detail),
            detail: None,
        }
    }

    /// No connection could be taken from the pool; `detail` says why.
    pub fn pool(detail: &str) -> (e: Self)
        ensures
            e.code == ErrorCode::DatabaseError,
            e.message@ == "连接池获取失败"@,
            e.detail matches Some(d) && d@ == detail@,
    {
        AppError {
            code: ErrorCode::DatabaseError,
            message: owned("连接池获取失败"),
            detail: Some(owned(detail)),
        }
    }

    /// The text an error is shown as: `[<code>] <message>`.
    pub fn to_text(&self) -> (r: String)
        ensures
            r@ == "["@ + code_name(self.code) + "] "@ + self.message@,
    {
        let name = match self.code {
            ErrorCode::NotFound => "NotFound",
            ErrorCode::ValidationError => "ValidationError",
            ErrorCode::DatabaseError => "DatabaseError",
            ErrorCode::IoError => "IoError",
            ErrorCode::Cancelled => "Cancelled",
            ErrorCode::Conflict => "Conflict",
            ErrorCode::Unknown => "Unknown",
        };
        let head = concat3("[", name, "] ");
        concat2(head.as_str(), self.message.as_str())
    }
}

} // verus!
