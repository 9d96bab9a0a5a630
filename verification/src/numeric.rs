use vstd::prelude::*;

use crate::fractions::reduce_fraction;
use crate::integers::integer_value;
use crate::scalars::canonical_integer;
use crate::text::owned;

verus! {

/// An exact rational number in lowest terms with a positive denominator,
/// with its canonical text: the numerator alone for an integer, else
/// `numerator/denominator`.
#[derive(Debug, PartialEq, Eq)]
pub struct Fraction {
    numerator: String,
    denominator: String,
    canonical: String,
}

/// The canonical text of a fraction in lowest terms.
pub open spec fn fraction_text(numerator: Seq<char>, denominator: Seq<char>) -> Seq<char> {
    if denominator == "1"@ {
        numerator
    } else {
        numerator + "/"@ + denominator
    }
}

impl Fraction {
    /// Both parts are canonical integer texts and the denominator is
    /// positive.
    #[verifier::type_invariant]
    closed spec fn inv(&self) -> bool {
        &&& canonical_integer(self.numerator@)
        &&& canonical_integer(self.denominator@)
        &&& integer_value(self.denominator@) > 0
    }

    pub closed spec fn spec_numerator(&self) -> Seq<char> {
        self.numerator@
    }

    pub closed spec fn spec_denominator(&self) -> Seq<char> {
        self.denominator@
    }

    pub closed spec fn spec_text(&self) -> Seq<char> {
        self.canonical@
    }

    /// The fraction of two integers, written as canonical decimal texts, in
    /// lowest terms; a zero denominator is refused.
    pub fn new(numerator: &str, denominator: &str) -> (r: Result<Fraction, FractionError>)
        requires
            canonical_integer(numerator@),
            canonical_integer(denominator@),
        ensures
            r is Err <==> integer_value(denominator@) == 0,
            r matches Ok(f) ==> (f.spec_numerator(), f.spec_denominator()) == crate::fractions::reduced_fraction(
                numerator@,
                denominator@,
            ) && f.spec_text() == fraction_text(f.spec_numerator(), f.spec_denominator()),
            r matches Ok(f) ==> integer_value(f.spec_denominator()) > 0 && integer_value(f.spec_numerator())
                * integer_value(denominator@) == integer_value(numerator@) * integer_value(f.spec_denominator()),
            r matches Ok(f) ==> canonical_integer(f.spec_numerator()) && canonical_integer(f.spec_denominator()),
            r matches Ok(f) ==> forall|k: int|
                k > 1 ==> !(#[trigger] (integer_value(f.spec_numerator()) % k) == 0 && integer_value(
                    f.spec_denominator(),
                ) % k == 0),
    {
        proof {
            reveal_strlit("0");
            assert(integer_value("0"@) == 0) by {
                assert("0"@ =~= seq!['0']);
                reveal_with_fuel(crate::integers::digits_value, 2);
            }
            if integer_value(denominator@) == 0 {
                crate::decimals::lemma_zero_text(denominator@);
            }
        }
        if crate::text::str_equal(denominator, "0") {
            return Err(FractionError);
        }
        let (n, d) = reduce_fraction(numerator, denominator);
        Ok(Fraction::from_parts(n, d))
    }

    /// The fraction of a numerator and a positive denominator in lowest
    /// terms, with its canonical text.
    fn from_parts(numerator: String, denominator: String) -> (r: Fraction)
        requires
            canonical_integer(numerator@),
            canonical_integer(denominator@),
            integer_value(denominator@) > 0,
        ensures
            r.spec_numerator() == numerator@,
            r.spec_denominator() == denominator@,
            r.spec_text() == fraction_text(numerator@, denominator@),
    {
        let canonical = if crate::text::str_equal(denominator.as_str(), "1") {
            owned(numerator.as_str())
        } else {
            let mut text = owned(numerator.as_str());
            text.append("/");
            text.append(denominator.as_str());
            text
        };
        Fraction { numerator, denominator, canonical }
    }

    pub fn numerator(&self) -> (r: &str)
        ensures
            r@ == self.spec_numerator(),
            canonical_integer(r@),
    {
        proof {
            use_type_invariant(self);
        }
        self.numerator.as_str()
    }

    pub fn denominator(&self) -> (r: &str)
        ensures
            r@ == self.spec_denominator(),
            canonical_integer(r@),
            integer_value(r@) > 0,
    {
        proof {
            use_type_invariant(self);
        }
        self.denominator.as_str()
    }

    /// The canonical text: the numerator alone for an integer, else
    /// `numerator/denominator`.
    pub fn text(&self) -> (r: &str)
        ensures
            r@ == self.spec_text(),
    {
        self.canonical.as_str()
    }
}

impl Clone for Fraction {
    fn clone(&self) -> (r: Fraction)
        ensures
            r.spec_numerator() == self.spec_numerator(),
            r.spec_denominator() == self.spec_denominator(),
            r.spec_text() == self.spec_text(),
    {
        proof {
            use_type_invariant(self);
        }
        Fraction {
            numerator: self.numerator.clone(),
            denominator: self.denominator.clone(),
            canonical: self.canonical.clone(),
        }
    }
}

/// A fraction with a zero denominator.
#[derive(Clone, Copy, Debug, PartialEq, Eq, Structural)]
pub struct FractionError;

impl FractionError {
    /// The human-readable description of the error.
    pub fn message(&self) -> (r: &'static str)
        ensures
            r@ == "fraction denominator must not be zero"@,
    {
        "fraction denominator must not be zero"
    }
}

} // verus!
