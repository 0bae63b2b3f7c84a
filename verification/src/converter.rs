//! The error type of the conversion tool and the file-URL shape that the
//! browser is pointed at.  Launching the browser and printing the page are
//! I/O and live outside the library; the URL computation is pure and lives
//! here.

use crate::textops::{chars_to_string, to_chars};
use vstd::prelude::*;
use vstd::string::StringExecFns;

verus! {

/// What can go wrong while converting: a filesystem failure, a browser
/// failure, or a failure while printing the page.
#[derive(Debug, Clone)]
pub enum AppError {
    Io(String),
    Browser(String),
    Pdf(String),
}

pub open spec fn app_error_message_spec(e: AppError) -> Seq<char> {
    match e {
        AppError::Io(s) => "IO error: "@ + s@,
        AppError::Browser(s) => "Browser error: "@ + s@,
        AppError::Pdf(s) => "PDF error: "@ + s@,
    }
}

impl AppError {
    /// The display text of the error: its kind followed by the detail.
    pub fn message(&self) -> (r: String)
        ensures
            r@ == app_error_message_spec(*self),
    {
        match self {
            AppError::Io(s) => {
                let mut out = String::from_str("IO error: ");
                out.append(s.as_str());
                out
            },
            AppError::Browser(s) => {
                let mut out = String::from_str("Browser error: ");
                out.append(s.as_str());
                out
            },
            AppError::Pdf(s) => {
                let mut out = String::from_str("PDF error: ");
                out.append(s.as_str());
                out
            },
        }
    }
}

// ───────────────────────── file URLs ─────────────────────────

/// The path with every backslash turned into a forward slash.
pub open spec fn slash_path(s: Seq<char>) -> Seq<char> {
    s.map_values(
        |c: char|
            if c == '\\' {
                '/'
            } else {
                c
            },
    )
}

/// The `file:` URL for a local path: absolute paths (starting with `/`) get
/// two slashes after the scheme, others get three.
pub open spec fn file_url_spec(s: Seq<char>) -> Seq<char> {
    let p = slash_path(s);
    if p.len() > 0 && p[0] == '/' {
        "file://"@ + p
    } else {
        "file:///"@ + p
    }
}

/// Builds the `file:` URL under which the browser loads a local path.
pub fn file_url(path: &str) -> (r: String)
    ensures
        r@ == file_url_spec(path@),
{
    let v = to_chars(path);
    let mut p: Vec<char> = Vec::new();
    let mut i: usize = 0;
    while i < v.len()
        invariant
            i <= v.len(),
            p@.len() == i,
            forall|k: int|
                0 <= k < i ==> p@[k] == (if v@[k] == '\\' {
                    '/'
                } else {
                    v@[k]
                }),
        decreases v.len() - i,
    {
        if v[i] == '\\' {
            p.push('/');
        } else {
            p.push(v[i]);
        }
        i = i + 1;
    }
    proof {
        assert(p@ =~= slash_path(v@));
    }
    let mut out = if p.len() > 0 && p[0] == '/' {
        String::from_str("file://")
    } else {
        String::from_str("file:///")
    };
    let ps = chars_to_string(&p);
    out.append(ps.as_str());
    out
}

} // verus!
