//! Numeric bound checks, shared by Integer, Long and Double.

use vstd::prelude::*;
use crate::property::{BoundValue, NumericValidator};
use crate::text::concat5;
use crate::validator::report::{ErrView, KindView, ValidationError, ErrorKind, verr, errs_view, new_error, push_error};

verus! {

/// The lower-bound error, if the bound is set and the value is below it.
pub open spec fn lower_errors<T: BoundValue>(value: T, lower: Option<T>, path: Seq<char>, label: Seq<char>) -> Seq<ErrView> {
    match lower {
        Some(l) => if value.spec_less(l) {
            seq![verr(
                path,
                "'"@ + label + "' is "@ + value.spec_text() + ", min is "@ + l.spec_text(),
                KindView::ConstraintViolation("lower="@ + l.spec_text()),
            )]
        } else {
            Seq::empty()
        },
        None => Seq::empty(),
    }
}

/// The upper-bound error, if the bound is set and the value is above it.
pub open spec fn upper_errors<T: BoundValue>(value: T, upper: Option<T>, path: Seq<char>, label: Seq<char>) -> Seq<ErrView> {
    match upper {
        Some(u) => if u.spec_less(value) {
            seq![verr(
                path,
                "'"@ + label + "' is "@ + value.spec_text() + ", max is "@ + u.spec_text(),
                KindView::ConstraintViolation("upper="@ + u.spec_text()),
            )]
        } else {
            Seq::empty()
        },
        None => Seq::empty(),
    }
}

/// The errors a number gets from an optional pair of inclusive bounds:
/// the lower bound's, then the upper bound's.
pub open spec fn numeric_errors<T: BoundValue>(value: T, validator: Option<NumericValidator<T>>, path: Seq<char>, label: Seq<char>) -> Seq<ErrView> {
    match validator {
        None => Seq::empty(),
        Some(nv) => lower_errors(value, nv.lower, path, label) + upper_errors(value, nv.upper, path, label),
    }
}

/// Checks a number against optional inclusive bounds and returns the
/// errors found.
pub fn validate_numeric<T: BoundValue>(value: T, validator: &Option<NumericValidator<T>>, path: &str, label: &str) -> (r: Vec<ValidationError>)
    ensures
        errs_view(r@) == numeric_errors(value, *validator, path@, label@),
{
    let mut errors: Vec<ValidationError> = Vec::new();
    assert(errs_view(errors@) =~= Seq::<ErrView>::empty());
    let numeric_validator = match validator {
        Some(nv) => nv,
        None => return errors,
    };
    if let Some(lower) = numeric_validator.lower {
        if value.less(&lower) {
            let vt = value.text();
            let lt = lower.text();
            let mut message = concat5("'", label, "' is ", vt.as_str(), ", min is ");
            message.append(lt.as_str());
            let mut constraint = String::from_str("lower=");
            constraint.append(lt.as_str());
            let e = new_error(String::from_str(path), message, ErrorKind::ConstraintViolation { constraint });
            push_error(&mut errors, e);
        }
    }
    let ghost after_lower = errs_view(errors@);
    assert(after_lower =~= lower_errors(value, numeric_validator.lower, path@, label@));
    if let Some(upper) = numeric_validator.upper {
        if upper.less(&value) {
            let vt = value.text();
            let ut = upper.text();
            let mut message = concat5("'", label, "' is ", vt.as_str(), ", max is ");
            message.append(ut.as_str());
            let mut constraint = String::from_str("upper=");
            constraint.append(ut.as_str());
            let e = new_error(String::from_str(path), message, ErrorKind::ConstraintViolation { constraint });
            push_error(&mut errors, e);
        }
    }
    assert(errs_view(errors@) =~= after_lower + upper_errors(value, numeric_validator.upper, path@, label@));
    errors
}


/// A number within both inclusive bounds gets no error.
pub proof fn lemma_within_bounds_no_errors<T: BoundValue>(value: T, nv: NumericValidator<T>, path: Seq<char>, label: Seq<char>)
    requires
        nv.lower matches Some(l) ==> !value.spec_less(l),
        nv.upper matches Some(u) ==> !u.spec_less(value),
    ensures
        numeric_errors(value, Some(nv), path, label).len() == 0,
{
}


/// Each bound is checked on its own: a number below the lower bound gets
/// the lower-bound violation (whatever the upper bound), one above the
/// upper bound gets the upper-bound violation (whatever the lower bound),
/// lower before upper, and there are no other errors.
pub proof fn lemma_bounds_checked_independently<T: BoundValue>(
    value: T,
    nv: NumericValidator<T>,
    path: Seq<char>,
    label: Seq<char>,
)
    ensures
        ({
            let errs = numeric_errors(value, Some(nv), path, label);
            let below = nv.lower matches Some(l) && value.spec_less(l);
            let above = nv.upper matches Some(u) && u.spec_less(value);
            &&& errs.len() == (if below { 1int } else { 0int }) + (if above { 1int } else { 0int })
            &&& below ==> errs[0] == verr(
                path,
                "'"@ + label + "' is "@ + value.spec_text() + ", min is "@ + nv.lower.unwrap().spec_text(),
                KindView::ConstraintViolation("lower="@ + nv.lower.unwrap().spec_text()),
            )
            &&& above ==> errs[errs.len() - 1] == verr(
                path,
                "'"@ + label + "' is "@ + value.spec_text() + ", max is "@ + nv.upper.unwrap().spec_text(),
                KindView::ConstraintViolation("upper="@ + nv.upper.unwrap().spec_text()),
            )
        }),
{
}

} // verus!
