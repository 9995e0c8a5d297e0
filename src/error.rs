//! Errors of the library and the structured form in which a caller sees them.

use vstd::prelude::*;
use vstd::string::StringExecFns;

verus! {

/// What went wrong in a call.
#[derive(Debug)]
pub enum AppError {
    /// The store refused a write (a broken constraint) or failed.
    Database(String),
    /// The named resource with this id does not exist.
    NotFound { resource: String, id: i64 },
    /// The request's parameters are malformed.
    Validation(String),
    /// A rule of the application refused the request.
    Business(String),
    /// The configuration is missing or malformed.
    Config(String),
    /// Any other failure.
    Internal(String),
}

/// The error as it is handed to a caller: a stable machine-readable code, a
/// human-readable message, and details that expose the store's internals
/// only in a development build.
#[derive(Debug)]
pub struct ErrorResponse {
    pub code: String,
    pub message: String,
    pub details: Option<String>,
}

/// The code under which an error is reported.
pub open spec fn error_code(e: AppError) -> Seq<char> {
    match e {
        AppError::Database(_) => "DATABASE_ERROR"@,
        AppError::NotFound { .. } => "NOT_FOUND"@,
        AppError::Validation(_) => "VALIDATION_ERROR"@,
        AppError::Business(_) => "BUSINESS_ERROR"@,
        AppError::Config(_) => "CONFIG_ERROR"@,
        AppError::Internal(_) => "INTERNAL_ERROR"@,
    }
}

/// The message under which an error is reported: the caller's own words for
/// validation and business errors, fixed words that hide the cause for
/// storage, configuration and internal failures.
pub open spec fn error_message(e: AppError) -> Seq<char> {
    match e {
        AppError::Database(_) => "数据库操作失败，请稍后重试"@,
        AppError::NotFound { resource, .. } => resource@ + "不存在"@,
        AppError::Validation(msg) => msg@,
        AppError::Business(msg) => msg@,
        AppError::Config(_) => "配置错误，请检查应用配置"@,
        AppError::Internal(_) => "系统内部错误，请稍后重试"@,
    }
}

/// The character of a decimal digit.
pub open spec fn digit_char(d: int) -> char {
    if d == 0 {
        '0'
    } else if d == 1 {
        '1'
    } else if d == 2 {
        '2'
    } else if d == 3 {
        '3'
    } else if d == 4 {
        '4'
    } else if d == 5 {
        '5'
    } else if d == 6 {
        '6'
    } else if d == 7 {
        '7'
    } else if d == 8 {
        '8'
    } else {
        '9'
    }
}

/// The decimal digits of a natural number, most significant first.
pub open spec fn nat_decimal(n: nat) -> Seq<char>
    decreases n,
{
    if n < 10 {
        seq![digit_char(n as int)]
    } else {
        nat_decimal(n / 10) + seq![digit_char((n % 10) as int)]
    }
}

/// The decimal text of an integer: a minus sign before the digits of a
/// negative one.
pub open spec fn int_decimal(n: int) -> Seq<char> {
    if n < 0 {
        seq!['-'] + nat_decimal((-n) as nat)
    } else {
        nat_decimal(n as nat)
    }
}

/// The details under which an error is reported: the id that was asked for
/// when a resource is missing; the cause of a storage, configuration or
/// internal failure only in a debug build; else none.
pub open spec fn error_details(e: AppError, debug: bool) -> Option<Seq<char>> {
    match e {
        AppError::NotFound { id, .. } => Some("ID: "@ + int_decimal(id as int)),
        AppError::Database(cause) => if debug { Some(cause@) } else { None },
        AppError::Config(cause) => if debug { Some(cause@) } else { None },
        AppError::Internal(cause) => if debug { Some(cause@) } else { None },
        _ => None,
    }
}

fn digit_str(d: u64) -> (r: &'static str)
    requires
        d < 10,
    ensures
        r@ == seq![digit_char(d as int)],
{
    proof {
        reveal_strlit("0");
        reveal_strlit("1");
        reveal_strlit("2");
        reveal_strlit("3");
        reveal_strlit("4");
        reveal_strlit("5");
        reveal_strlit("6");
        reveal_strlit("7");
        reveal_strlit("8");
        reveal_strlit("9");
    }
    if d == 0 {
        "0"
    } else if d == 1 {
        "1"
    } else if d == 2 {
        "2"
    } else if d == 3 {
        "3"
    } else if d == 4 {
        "4"
    } else if d == 5 {
        "5"
    } else if d == 6 {
        "6"
    } else if d == 7 {
        "7"
    } else if d == 8 {
        "8"
    } else {
        "9"
    }
}

fn append_digits(s: &mut String, m: u64)
    ensures
        final(s)@ == old(s)@ + nat_decimal(m as nat),
    decreases m,
{
    let ghost start = s@;
    if m >= 10 {
        append_digits(s, m / 10);
    }
    s.append(digit_str(m % 10));
    proof {
        if m >= 10 {
            assert(start + nat_decimal((m / 10) as nat) + seq![digit_char((m % 10) as int)] =~= start
                + nat_decimal(m as nat));
        } else {
            assert(start + seq![digit_char((m % 10) as int)] =~= start + nat_decimal(m as nat));
        }
    }
}

/// Appends the decimal text of `n`.
pub fn append_decimal(s: &mut String, n: i64)
    ensures
        final(s)@ == old(s)@ + int_decimal(n as int),
{
    let ghost start = s@;
    if n < 0 {
        s.append("-");
        let m: u64 = (-(n as i128)) as u64;
        append_digits(s, m);
        proof {
            reveal_strlit("-");
            assert(start + "-"@ + nat_decimal(m as nat) =~= start + int_decimal(n as int));
        }
    } else {
        append_digits(s, n as u64);
    }
}

impl ErrorResponse {
    /// Turns an error into the form a caller sees. A missing resource
    /// carries the id that was asked for; the cause of a storage,
    /// configuration or internal failure is shown only when `debug` is set
    /// (a development build).
    pub fn from_error(error: &AppError, debug: bool) -> (r: ErrorResponse)
        ensures
            r.code@ == error_code(*error),
            r.message@ == error_message(*error),
            match r.details {
                Some(d) => error_details(*error, debug) == Some(d@),
                None => error_details(*error, debug) is None,
            },
    {
        proof {
            reveal_strlit("DATABASE_ERROR");
            reveal_strlit("NOT_FOUND");
            reveal_strlit("VALIDATION_ERROR");
            reveal_strlit("BUSINESS_ERROR");
            reveal_strlit("CONFIG_ERROR");
            reveal_strlit("INTERNAL_ERROR");
            reveal_strlit("数据库操作失败，请稍后重试");
            reveal_strlit("不存在");
            reveal_strlit("配置错误，请检查应用配置");
            reveal_strlit("系统内部错误，请稍后重试");
            reveal_strlit("ID: ");
        }
        match error {
            AppError::Database(cause) => ErrorResponse {
                code: String::from_str("DATABASE_ERROR"),
                message: String::from_str("数据库操作失败，请稍后重试"),
                details: if debug { Some(cause.clone()) } else { None },
            },
            AppError::NotFound { resource, id } => {
                let mut message = resource.clone();
                message.append("不存在");
                let mut details = String::from_str("ID: ");
                append_decimal(&mut details, *id);
                ErrorResponse {
                    code: String::from_str("NOT_FOUND"),
                    message,
                    details: Some(details),
                }
            },
            AppError::Validation(msg) => ErrorResponse {
                code: String::from_str("VALIDATION_ERROR"),
                message: msg.clone(),
                details: None,
            },
            AppError::Business(msg) => ErrorResponse {
                code: String::from_str("BUSINESS_ERROR"),
                message: msg.clone(),
                details: None,
            },
            AppError::Config(cause) => ErrorResponse {
                code: String::from_str("CONFIG_ERROR"),
                message: String::from_str("配置错误，请检查应用配置"),
                details: if debug { Some(cause.clone()) } else { None },
            },
            AppError::Internal(cause) => ErrorResponse {
                code: String::from_str("INTERNAL_ERROR"),
                message: String::from_str("系统内部错误，请稍后重试"),
                details: if debug { Some(cause.clone()) } else { None },
            },
        }
    }
}

impl AppError {
    /// A validation error with the given message.
    pub fn validation(message: &str) -> (r: AppError)
        ensures
            r matches AppError::Validation(m) && m@ == message@,
    {
        AppError::Validation(message.to_owned())
    }

    /// A business-rule error with the given message.
    pub fn business(message: &str) -> (r: AppError)
        ensures
            r matches AppError::Business(m) && m@ == message@,
    {
        AppError::Business(message.to_owned())
    }

    /// A not-found error for the resource of this kind and id.
    pub fn not_found(resource: &str, id: i64) -> (r: AppError)
        ensures
            r matches AppError::NotFound { resource: res, id: i } && res@ == resource@ && i == id,
    {
        AppError::NotFound { resource: resource.to_owned(), id }
    }
}

} // verus!
