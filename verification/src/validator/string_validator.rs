//! String checks: regex pattern and length bounds.

use vstd::prelude::*;
use vstd::string::*;
use crate::external::{regex_accepts, regex_match};
use crate::property::{StringValidator, StringValidatorView, opt_string_validator_view};
use crate::text::{decimal_text, concat3, concat4, push_decimal};
use crate::validator::report::{ErrView, KindView, ValidationError, ErrorKind, verr, errs_view, new_error, push_error};

verus! {

/// The pattern error, if the pattern is set and does not match.
pub open spec fn pattern_errors(value: Seq<char>, regex: Option<Seq<char>>, path: Seq<char>) -> Seq<ErrView> {
    match regex {
        Some(p) => if regex_accepts(p, value) {
            Seq::empty()
        } else {
            seq![verr(path, "'"@ + value + "' doesn't match /"@ + p + "/"@, KindView::PatternMismatch(p))]
        },
        None => Seq::empty(),
    }
}

/// The minimum-length error, if the bound is set and the value is shorter.
pub open spec fn min_length_errors(value: Seq<char>, min: Option<usize>, path: Seq<char>, name: Seq<char>) -> Seq<ErrView> {
    match min {
        Some(m) => if value.len() < m {
            seq![verr(
                path,
                "'"@ + name + "' is too short: "@ + decimal_text(value.len()) + " < "@ + decimal_text(m as nat),
                KindView::ConstraintViolation("minLength="@ + decimal_text(m as nat)),
            )]
        } else {
            Seq::empty()
        },
        None => Seq::empty(),
    }
}

/// The maximum-length error, if the bound is set and the value is longer.
pub open spec fn max_length_errors(value: Seq<char>, max: Option<usize>, path: Seq<char>, name: Seq<char>) -> Seq<ErrView> {
    match max {
        Some(m) => if value.len() > m {
            seq![verr(
                path,
                "'"@ + name + "' is too long: "@ + decimal_text(value.len()) + " > "@ + decimal_text(m as nat),
                KindView::ConstraintViolation("maxLength="@ + decimal_text(m as nat)),
            )]
        } else {
            Seq::empty()
        },
        None => Seq::empty(),
    }
}

/// The errors a string value gets from a string validator: pattern, then
/// minimum length, then maximum length (lengths count characters).
pub open spec fn string_errors(value: Seq<char>, validator: Option<StringValidatorView>, path: Seq<char>, name: Seq<char>) -> Seq<ErrView> {
    match validator {
        None => Seq::empty(),
        Some(sv) => pattern_errors(value, sv.regex, path)
            + min_length_errors(value, sv.min_length, path, name)
            + max_length_errors(value, sv.max_length, path, name),
    }
}

/// Checks a string value against an optional string validator and returns
/// the errors found.
pub fn validate_string(value: &str, validator: &Option<StringValidator>, path: &str, property_name: &str) -> (r: Vec<ValidationError>)
    ensures
        errs_view(r@) == string_errors(value@, opt_string_validator_view(*validator), path@, property_name@),
{
    let mut errors: Vec<ValidationError> = Vec::new();
    let string_validator = match validator {
        Some(sv) => sv,
        None => {
            assert(errs_view(errors@) =~= Seq::<ErrView>::empty());
            return errors;
        }
    };
    assert(errs_view(errors@) =~= Seq::<ErrView>::empty());
    if let Some(pattern) = &string_validator.regex {
        if !regex_match(pattern.as_str(), value) {
            let mut message = concat4("'", value, "' doesn't match /", pattern.as_str());
            message.append("/");
            let e = new_error(
                String::from_str(path),
                message,
                ErrorKind::PatternMismatch { pattern: pattern.clone() },
            );
            push_error(&mut errors, e);
        }
    }
    let ghost after_pattern = errs_view(errors@);
    assert(after_pattern =~= pattern_errors(value@, string_validator@.regex, path@));
    let char_count = value.unicode_len();
    if let Some(min_length) = string_validator.min_length {
        if char_count < min_length {
            let mut message = concat3("'", property_name, "' is too short: ");
            push_decimal(&mut message, char_count as u64);
            message.append(" < ");
            push_decimal(&mut message, min_length as u64);
            let mut constraint = String::from_str("minLength=");
            push_decimal(&mut constraint, min_length as u64);
            let e = new_error(String::from_str(path), message, ErrorKind::ConstraintViolation { constraint });
            push_error(&mut errors, e);
        }
    }
    let ghost after_min = errs_view(errors@);
    assert(after_min =~= after_pattern + min_length_errors(value@, string_validator.min_length, path@, property_name@));
    if let Some(max_length) = string_validator.max_length {
        if char_count > max_length {
            let mut message = concat3("'", property_name, "' is too long: ");
            push_decimal(&mut message, char_count as u64);
            message.append(" > ");
            push_decimal(&mut message, max_length as u64);
            let mut constraint = String::from_str("maxLength=");
            push_decimal(&mut constraint, max_length as u64);
            let e = new_error(String::from_str(path), message, ErrorKind::ConstraintViolation { constraint });
            push_error(&mut errors, e);
        }
    }
    assert(errs_view(errors@) =~= after_min + max_length_errors(value@, string_validator.max_length, path@, property_name@));
    errors
}


/// A string that matches the pattern and whose length lies within the
/// bounds gets no error.
pub proof fn lemma_conforming_string_no_errors(value: Seq<char>, sv: StringValidatorView, path: Seq<char>, name: Seq<char>)
    requires
        sv.regex matches Some(p) ==> regex_accepts(p, value),
        sv.min_length matches Some(m) ==> value.len() >= m,
        sv.max_length matches Some(m) ==> value.len() <= m,
    ensures
        string_errors(value, Some(sv), path, name).len() == 0,
{
}


/// Each rule is checked on its own: a value that the pattern rejects gets
/// the pattern error, one shorter than the minimum gets the minimum-length
/// violation, one longer than the maximum gets the maximum-length violation
/// (each whatever the other rules are), in that order, and there are no
/// other errors. Lengths count characters.
pub proof fn lemma_string_rules_checked_independently(
    value: Seq<char>,
    sv: StringValidatorView,
    path: Seq<char>,
    name: Seq<char>,
)
    ensures
        ({
            let errs = string_errors(value, Some(sv), path, name);
            let unmatched = sv.regex matches Some(p) && !regex_accepts(p, value);
            let short = sv.min_length matches Some(m) && value.len() < m;
            let long = sv.max_length matches Some(m) && value.len() > m;
            &&& errs.len() == (if unmatched { 1int } else { 0int }) + (if short { 1int } else { 0int })
                + (if long { 1int } else { 0int })
            &&& unmatched ==> errs[0] == verr(
                path,
                "'"@ + value + "' doesn't match /"@ + sv.regex.unwrap() + "/"@,
                KindView::PatternMismatch(sv.regex.unwrap()),
            )
            &&& short ==> errs[if unmatched { 1int } else { 0int }] == verr(
                path,
                "'"@ + name + "' is too short: "@ + decimal_text(value.len()) + " < "@ + decimal_text(sv.min_length.unwrap() as nat),
                KindView::ConstraintViolation("minLength="@ + decimal_text(sv.min_length.unwrap() as nat)),
            )
            &&& long ==> errs[errs.len() - 1] == verr(
                path,
                "'"@ + name + "' is too long: "@ + decimal_text(value.len()) + " > "@ + decimal_text(sv.max_length.unwrap() as nat),
                KindView::ConstraintViolation("maxLength="@ + decimal_text(sv.max_length.unwrap() as nat)),
            )
        }),
{
}

} // verus!
