//! Theme resolution: the two colors a request may override, falling back to
//! the defaults when an override is absent or blank.

use vstd::prelude::*;
use vstd::string::StringExecFns;

verus! {

/// Resolved theme colors for one render.
pub struct Theme {
    pub background_color: String,
    pub text_color: String,
}

/// The trimmed form of a character sequence, as `str::trim` computes it.
pub uninterp spec fn trim_of(s: Seq<char>) -> Seq<char>;

/// Relies on str::trim: returns the input with leading and trailing
/// whitespace removed. The result is a substring of the input and depends
/// on the characters alone; trimming an empty string yields an empty one.
#[verifier::external_body]
fn trim_string(s: &String) -> (r: String)
    ensures
        r@ == trim_of(s@),
        r@.len() <= s@.len(),
        s@.len() == 0 ==> r@.len() == 0,
{
    s.trim().to_string()
}

/// The view of an optional owned string.
pub open spec fn opt_view(o: Option<String>) -> Option<Seq<char>> {
    match o {
        Some(s) => Some(s@),
        None => None,
    }
}

/// The color a query override resolves to: the trimmed override when it is
/// present and nonempty after trimming, the default otherwise.
pub open spec fn resolved_color(given: Option<Seq<char>>, default: Seq<char>) -> Seq<char> {
    match given {
        Some(s) => if trim_of(s).len() == 0 {
            default
        } else {
            trim_of(s)
        },
        None => default,
    }
}

/// Resolve the theme from the optional background-color and text-color
/// query overrides: each override is trimmed, a missing or blank override
/// falling back to the default color.
pub fn theme_from_query(background: Option<String>, text: Option<String>) -> (r: Theme)
    ensures
        r.background_color@ == resolved_color(opt_view(background), "#F6F1D1"@),
        r.text_color@ == resolved_color(opt_view(text), "#0B2027"@),
{
    let background_color = match background {
        Some(value) => {
            let trimmed = trim_string(&value);
            if trimmed.as_str().is_empty() {
                String::from_str("#F6F1D1")
            } else {
                trimmed
            }
        },
        None => String::from_str("#F6F1D1"),
    };
    let text_color = match text {
        Some(value) => {
            let trimmed = trim_string(&value);
            if trimmed.as_str().is_empty() {
                String::from_str("#0B2027")
            } else {
                trimmed
            }
        },
        None => String::from_str("#0B2027"),
    };
    Theme { background_color, text_color }
}

} // verus!
