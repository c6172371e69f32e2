//! Compiling one field of a schedule expression into a set of numbers.
//!
//! A field is a list of items separated by commas.  An item is `*`, a number,
//! a range `a-b` or a step `*/m`; a field of width `n` holds numbers below `n`.

use vstd::prelude::*;
use crate::bits::{below, fill_below, fill_multiples, fill_span, members, multiples, span, union};
use crate::bits::{lemma_members_of_zero, with_bit};
use crate::error::{ParsingError, ParsingErrorView};
use crate::text::{contains_char, is_char, number_text, parse_number, split, split_text, texts};

verus! {

/// What the range `item` of a field of width `n` selects: it has two sides,
/// both numbers, the first no greater than the second and the second below
/// `n`.
pub open spec fn range_values(expression: Seq<char>, item: Seq<char>, n: nat) -> Result<
    Set<nat>,
    ParsingErrorView,
> {
    let sides = split_text(item, '-');
    if sides.len() != 2 {
        Err(ParsingErrorView::InvalidRange { expression, range: item })
    } else {
        match (number_text(sides[0]), number_text(sides[1])) {
            (None, _) => Err(ParsingErrorView::InvalidNumber { expression, number: sides[0] }),
            (Some(_), None) => Err(
                ParsingErrorView::InvalidNumber { expression, number: sides[1] },
            ),
            (Some(start), Some(end)) => {
                if start > end || end >= n {
                    Err(ParsingErrorView::InvalidRange { expression, range: item })
                } else {
                    Ok(span(start, end))
                }
            },
        }
    }
}

/// What the step `item` of a field of width `n` selects: it has two sides,
/// the first `*` and the second a positive number.
pub open spec fn step_values(expression: Seq<char>, item: Seq<char>, n: nat) -> Result<
    Set<nat>,
    ParsingErrorView,
> {
    let sides = split_text(item, '/');
    if sides.len() != 2 || sides[0] != seq!['*'] {
        Err(ParsingErrorView::InvalidModulo { expression, modulo: item })
    } else {
        match number_text(sides[1]) {
            Some(m) if m > 0 => Ok(multiples(m, n)),
            _ => Err(ParsingErrorView::InvalidNumber { expression, number: sides[1] }),
        }
    }
}

/// What a single number selects in a field of width `n`: itself, if it is
/// below `n`.
pub open spec fn single_value(expression: Seq<char>, item: Seq<char>, n: nat) -> Result<
    Set<nat>,
    ParsingErrorView,
> {
    match number_text(item) {
        Some(v) if v < n => Ok(set![v]),
        _ => Err(ParsingErrorView::InvalidNumber { expression, number: item }),
    }
}

/// What one item of a field of width `n` selects, or why it is refused.
pub open spec fn item_values(expression: Seq<char>, item: Seq<char>, n: nat) -> Result<
    Set<nat>,
    ParsingErrorView,
> {
    if item == seq!['*'] {
        Ok(below(n))
    } else if item.contains('-') {
        range_values(expression, item, n)
    } else if item.contains('/') {
        step_values(expression, item, n)
    } else {
        single_value(expression, item, n)
    }
}

/// What the items of the field `component` select together.  The first item
/// that is empty or refused decides the error.
pub open spec fn list_values(
    expression: Seq<char>,
    component: Seq<char>,
    items: Seq<Seq<char>>,
    n: nat,
) -> Result<Set<nat>, ParsingErrorView>
    decreases items.len(),
{
    if items.len() == 0 {
        Ok(Set::empty())
    } else {
        match list_values(expression, component, items.drop_last(), n) {
            Err(e) => Err(e),
            Ok(before) => {
                if items.last().len() == 0 {
                    Err(ParsingErrorView::InvalidList { expression, list: component })
                } else {
                    match item_values(expression, items.last(), n) {
                        Err(e) => Err(e),
                        Ok(selected) => Ok(before.union(selected)),
                    }
                }
            },
        }
    }
}

/// What the field `component` of width `n` selects, or why it is refused.
pub open spec fn component_values(expression: Seq<char>, component: Seq<char>, n: nat) -> Result<
    Set<nat>,
    ParsingErrorView,
> {
    list_values(expression, component, split_text(component, ','), n)
}

/// An error among the first items of a list is the error of the whole list.
pub proof fn lemma_list_error_stays(
    expression: Seq<char>,
    component: Seq<char>,
    items: Seq<Seq<char>>,
    n: nat,
    k: int,
)
    requires
        0 <= k <= items.len(),
        list_values(expression, component, items.take(k), n) is Err,
    ensures
        list_values(expression, component, items, n) == list_values(
            expression,
            component,
            items.take(k),
            n,
        ),
    decreases items.len(),
{
    if k == items.len() {
        assert(items.take(k) =~= items);
    } else {
        assert(items.drop_last().take(k) =~= items.take(k));
        lemma_list_error_stays(expression, component, items.drop_last(), n, k);
    }
}

/// Compiles one item of a field of width `n` into a bit vector.
pub fn parse_item(expression: &str, item: &str, n: usize) -> (r: Result<u64, ParsingError>)
    requires
        n <= 64,
    ensures
        match item_values(expression@, item@, n as nat) {
            Ok(selected) => r matches Ok(v) && members(v) == selected,
            Err(e) => r matches Err(x) && x@ == e,
        },
{
    if is_char(item, '*') {
        return Ok(fill_below(n as u64));
    }
    if contains_char(item, '-') {
        let sides = split(item, '-');
        if sides.len() != 2 {
            return Err(
                ParsingError::InvalidRange {
                    expression: expression.to_owned(),
                    range: item.to_owned(),
                },
            );
        }
        assert(texts(sides@)[0] == sides[0]@ && texts(sides@)[1] == sides[1]@);
        let start = match parse_number(sides[0]) {
            Some(v) => v,
            None => {
                return Err(
                    ParsingError::InvalidNumber {
                        expression: expression.to_owned(),
                        number: sides[0].to_owned(),
                    },
                );
            },
        };
        let end = match parse_number(sides[1]) {
            Some(v) => v,
            None => {
                return Err(
                    ParsingError::InvalidNumber {
                        expression: expression.to_owned(),
                        number: sides[1].to_owned(),
                    },
                );
            },
        };
        if start > end || end >= n {
            return Err(
                ParsingError::InvalidRange {
                    expression: expression.to_owned(),
                    range: item.to_owned(),
                },
            );
        }
        return Ok(fill_span(start as u64, end as u64));
    }
    if contains_char(item, '/') {
        let sides = split(item, '/');
        if sides.len() != 2 {
            return Err(
                ParsingError::InvalidModulo {
                    expression: expression.to_owned(),
                    modulo: item.to_owned(),
                },
            );
        }
        assert(texts(sides@)[0] == sides[0]@ && texts(sides@)[1] == sides[1]@);
        if !is_char(sides[0], '*') {
            return Err(
                ParsingError::InvalidModulo {
                    expression: expression.to_owned(),
                    modulo: item.to_owned(),
                },
            );
        }
        let modulo = match parse_number(sides[1]) {
            Some(v) if v > 0 => v,
            _ => {
                return Err(
                    ParsingError::InvalidNumber {
                        expression: expression.to_owned(),
                        number: sides[1].to_owned(),
                    },
                );
            },
        };
        return Ok(fill_multiples(modulo as u64, n as u64));
    }
    let index = match parse_number(item) {
        Some(v) if v < n => v,
        _ => {
            return Err(
                ParsingError::InvalidNumber {
                    expression: expression.to_owned(),
                    number: item.to_owned(),
                },
            );
        },
    };
    proof {
        lemma_members_of_zero();
    }
    Ok(with_bit(0, index as u64))
}

/// Compiles the field `component` of width `n` into a bit vector.
pub fn parse_component(expression: &str, component: &str, n: usize) -> (r: Result<
    u64,
    ParsingError,
>)
    requires
        n <= 64,
    ensures
        match component_values(expression@, component@, n as nat) {
            Ok(selected) => r matches Ok(v) && members(v) == selected,
            Err(e) => r matches Err(x) && x@ == e,
        },
{
    let items = split(component, ',');
    let ghost all = texts(items@);
    let mut bitfield: u64 = 0;
    let mut k: usize = 0;
    proof {
        lemma_members_of_zero();
        assert(all.take(0).len() == 0);
    }
    while k < items.len()
        invariant
            n <= 64,
            k <= items.len(),
            all == texts(items@),
            all == split_text(component@, ','),
            list_values(expression@, component@, all.take(k as int), n as nat) == Ok::<
                Set<nat>,
                ParsingErrorView,
            >(members(bitfield)),
        decreases items.len() - k,
    {
        let item = items[k];
        proof {
            assert(all.take(k + 1).drop_last() =~= all.take(k as int));
            assert(all.take(k + 1).last() == item@);
        }
        if item.is_empty() {
            proof {
                lemma_list_error_stays(expression@, component@, all, n as nat, k + 1);
            }
            return Err(
                ParsingError::InvalidList {
                    expression: expression.to_owned(),
                    list: component.to_owned(),
                },
            );
        }
        match parse_item(expression, item, n) {
            Err(e) => {
                proof {
                    lemma_list_error_stays(expression@, component@, all, n as nat, k + 1);
                }
                return Err(e);
            },
            Ok(selected) => {
                bitfield = union(bitfield, selected);
            },
        }
        k += 1;
    }
    proof {
        assert(all.take(k as int) =~= all);
    }
    Ok(bitfield)
}

} // verus!
