//! What can be wrong with a schedule expression.

use vstd::prelude::*;
use vstd::string::*;

verus! {

/// Error raised when parsing a schedule expression.
///
/// Every variant carries the whole expression and the part of it that was
/// refused.
#[derive(Debug, Clone)]
pub enum ParsingError {
    /// The expression has too many or too few components.
    InvalidExpressionLength { expression: String, expected: usize, got: usize },
    /// A number cannot be read, or lies outside its field.
    InvalidNumber { expression: String, number: String },
    /// A list has an empty item.
    InvalidList { expression: String, list: String },
    /// A range is malformed, runs backwards or ends outside its field.
    InvalidRange { expression: String, range: String },
    /// A step is malformed or does not start from `*`.
    InvalidModulo { expression: String, modulo: String },
}

/// A [`ParsingError`] with its texts as sequences of characters.
pub enum ParsingErrorView {
    InvalidExpressionLength { expression: Seq<char>, expected: nat, got: nat },
    InvalidNumber { expression: Seq<char>, number: Seq<char> },
    InvalidList { expression: Seq<char>, list: Seq<char> },
    InvalidRange { expression: Seq<char>, range: Seq<char> },
    InvalidModulo { expression: Seq<char>, modulo: Seq<char> },
}

impl View for ParsingError {
    type V = ParsingErrorView;

    open spec fn view(&self) -> ParsingErrorView {
        match self {
            ParsingError::InvalidExpressionLength { expression, expected, got } => {
                ParsingErrorView::InvalidExpressionLength {
                    expression: expression@,
                    expected: *expected as nat,
                    got: *got as nat,
                }
            },
            ParsingError::InvalidNumber { expression, number } => {
                ParsingErrorView::InvalidNumber { expression: expression@, number: number@ }
            },
            ParsingError::InvalidList { expression, list } => {
                ParsingErrorView::InvalidList { expression: expression@, list: list@ }
            },
            ParsingError::InvalidRange { expression, range } => {
                ParsingErrorView::InvalidRange { expression: expression@, range: range@ }
            },
            ParsingError::InvalidModulo { expression, modulo } => {
                ParsingErrorView::InvalidModulo { expression: expression@, modulo: modulo@ }
            },
        }
    }
}

/// The character that writes the digit `d`.
pub open spec fn digit_char(d: nat) -> char {
    ('0' as nat + d) as char
}

/// `n` written in decimal digits, without leading zeros.
pub open spec fn decimal_text(n: nat) -> Seq<char>
    decreases n,
{
    if n < 10 {
        seq![digit_char(n)]
    } else {
        decimal_text(n / 10).push(digit_char(n % 10))
    }
}

/// The sentence that describes an error.
pub open spec fn message_text(error: ParsingErrorView) -> Seq<char> {
    match error {
        ParsingErrorView::InvalidExpressionLength { expression, expected, got } => {
            "The expression \""@ + expression + "\" is invalid : it must contain "@
                + decimal_text(expected) + " components, but you provided "@ + decimal_text(got)
                + "."@
        },
        ParsingErrorView::InvalidNumber { expression, number } => {
            "The expression \""@ + expression + "\" is invalid : the number \""@ + number
                + "\" cannot be parsed."@
        },
        ParsingErrorView::InvalidList { expression, list } => {
            "The expression \""@ + expression + "\" is invalid : the list \""@ + list
                + "\" is not a correct list."@
        },
        ParsingErrorView::InvalidRange { expression, range } => {
            "The expression \""@ + expression + "\" is invalid : the range "@ + range
                + " is not a correct range."@
        },
        ParsingErrorView::InvalidModulo { expression, modulo } => {
            "The expression \""@ + expression + "\" is invalid : the modulo "@ + modulo
                + " is not a correct modulo."@
        },
    }
}

/// The text of one decimal digit.
fn digit_str(d: usize) -> (r: &'static str)
    requires
        d < 10,
    ensures
        r@ == seq![digit_char(d as nat)],
{
    proof {
        reveal_strlit("0");
        reveal_strlit("1");
        reveal_strlit("2");
        reveal_strlit("3");
        reveal_strlit("4");
        reveal_strlit("5");
        reveal_strlit("6");
        reveal_strlit("7");
        reveal_strlit("8");
        reveal_strlit("9");
    }
    let r = match d {
        0 => "0",
        1 => "1",
        2 => "2",
        3 => "3",
        4 => "4",
        5 => "5",
        6 => "6",
        7 => "7",
        8 => "8",
        _ => "9",
    };
    assert(r@ =~= seq![digit_char(d as nat)]);
    r
}

/// Writes `n` in decimal digits.
pub fn decimal(n: usize) -> (r: String)
    ensures
        r@ == decimal_text(n as nat),
    decreases n,
{
    if n < 10 {
        digit_str(n).to_owned()
    } else {
        let mut r = decimal(n / 10);
        r.append(digit_str(n % 10));
        assert(r@ =~= decimal_text(n as nat));
        r
    }
}

impl ParsingError {
    /// The sentence that describes this error.
    pub fn message(&self) -> (r: String)
        ensures
            r@ == message_text(self@),
    {
        match self {
            ParsingError::InvalidExpressionLength { expression, expected, got } => {
                let mut r = "The expression \"".to_owned();
                r.append(expression.as_str());
                r.append("\" is invalid : it must contain ");
                r.append(decimal(*expected).as_str());
                r.append(" components, but you provided ");
                r.append(decimal(*got).as_str());
                r.append(".");
                r
            },
            ParsingError::InvalidNumber { expression, number } => {
                let mut r = "The expression \"".to_owned();
                r.append(expression.as_str());
                r.append("\" is invalid : the number \"");
                r.append(number.as_str());
                r.append("\" cannot be parsed.");
                r
            },
            ParsingError::InvalidList { expression, list } => {
                let mut r = "The expression \"".to_owned();
                r.append(expression.as_str());
                r.append("\" is invalid : the list \"");
                r.append(list.as_str());
                r.append("\" is not a correct list.");
                r
            },
            ParsingError::InvalidRange { expression, range } => {
                let mut r = "The expression \"".to_owned();
                r.append(expression.as_str());
                r.append("\" is invalid : the range ");
                r.append(range.as_str());
                r.append(" is not a correct range.");
                r
            },
            ParsingError::InvalidModulo { expression, modulo } => {
                let mut r = "The expression \"".to_owned();
                r.append(expression.as_str());
                r.append("\" is invalid : the modulo ");
                r.append(modulo.as_str());
                r.append(" is not a correct modulo.");
                r
            },
        }
    }
}

} // verus!
