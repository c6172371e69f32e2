//! Laws of the expression grammar and of the search, proved from the
//! definitions that the contracts use.

use vstd::prelude::*;
use crate::bits::{below, multiples, span};
use crate::error::ParsingErrorView;
use crate::moment::{lemma_minutes_within_hour, lemma_same_minute_until_next, Moment};
use crate::parser::{component_values, item_values, lemma_list_error_stays, list_values};
use crate::schedule::{schedule_of, ScheduleView, DAYS_OF_MONTH, FIELDS, HOURS, MINUTES, MONTHS};
use crate::text::{
    is_digit, lemma_split_text_joined, lemma_split_text_nonempty, lemma_split_text_plain,
    number_text, split_text, unsigned_part,
};

verus! {

/// A text that writes a number holds nothing but digits and a plus sign.
pub proof fn lemma_number_text_chars(s: Seq<char>, c: char)
    requires
        number_text(s) is Some,
        c != '+',
        !is_digit(c),
    ensures
        !s.contains(c),
{
    if s.contains(c) {
        let i = choose|i: int| 0 <= i < s.len() && s[i] == c;
        let digits = unsigned_part(s);
        if s[0] == '+' {
            assert(digits[i - 1] == s[i]);
        } else {
            assert(digits[i] == s[i]);
        }
    }
}

/// In a field of any width, `*` selects exactly the numbers below the width.
pub proof fn law_wildcard_selects_all(expression: Seq<char>, n: nat)
    ensures
        component_values(expression, seq!['*'], n) == Ok::<Set<nat>, ParsingErrorView>(below(n)),
{
    let star = seq!['*'];
    assert(!star.contains(',')) by {
        if star.contains(',') {
            let i = choose|i: int| 0 <= i < star.len() && star[i] == ',';
            assert(star[i] == '*');
        }
    }
    lemma_split_text_plain(star, ',');
    let items = seq![star];
    assert(items.drop_last() =~= Seq::<Seq<char>>::empty());
    assert(items.last() == star);
    assert(list_values(expression, star, items.drop_last(), n) == Ok::<
        Set<nat>,
        ParsingErrorView,
    >(Set::empty()));
    assert(Set::<nat>::empty().union(below(n)) =~= below(n));
}

/// A range between two numbers is refused as a range when it runs backwards
/// or ends at or above the width of the field; otherwise it selects the
/// numbers from the first to the second, both included, and no others.
pub proof fn law_range(expression: Seq<char>, first: Seq<char>, last: Seq<char>, n: nat)
    requires
        number_text(first) is Some,
        number_text(last) is Some,
    ensures
        ({
            let item = first + seq!['-'] + last;
            let start = number_text(first).unwrap();
            let end = number_text(last).unwrap();
            item_values(expression, item, n) == if start > end || end >= n {
                Err::<Set<nat>, ParsingErrorView>(
                    ParsingErrorView::InvalidRange { expression, range: item },
                )
            } else {
                Ok(span(start, end))
            }
        }),
{
    let item = first + seq!['-'] + last;
    assert(item[first.len() as int] == '-');
    assert(item.contains('-'));
    assert(item != seq!['*']) by {
        if item.len() == 1 {
            assert(item[0] == '-');
            assert(seq!['*'][0] == '*');
        }
    }
    lemma_number_text_chars(first, '-');
    lemma_number_text_chars(last, '-');
    lemma_split_text_plain(first, '-');
    lemma_split_text_plain(last, '-');
    lemma_split_text_joined(first, last, '-');
    assert(split_text(item, '-') =~~= seq![first, last]);
}

/// A step from `*` by a positive number selects exactly the multiples of
/// that number below the width of the field.
pub proof fn law_step(expression: Seq<char>, count: Seq<char>, n: nat)
    requires
        number_text(count) is Some,
        number_text(count).unwrap() > 0,
    ensures
        item_values(expression, seq!['*'] + seq!['/'] + count, n) == Ok::<
            Set<nat>,
            ParsingErrorView,
        >(multiples(number_text(count).unwrap(), n)),
{
    let star = seq!['*'];
    let item = star + seq!['/'] + count;
    assert(item.len() >= 2);
    assert(item != star);
    assert(item[1] == '/');
    lemma_number_text_chars(count, '-');
    lemma_number_text_chars(count, '/');
    assert(!item.contains('-')) by {
        if item.contains('-') {
            let i = choose|i: int| 0 <= i < item.len() && item[i] == '-';
            if i >= 2 {
                assert(count[i - 2] == item[i]);
            }
        }
    }
    assert(!star.contains('/')) by {
        if star.contains('/') {
            let i = choose|i: int| 0 <= i < star.len() && star[i] == '/';
            assert(star[i] == '*');
        }
    }
    lemma_split_text_plain(star, '/');
    lemma_split_text_plain(count, '/');
    lemma_split_text_joined(star, count, '/');
    assert(split_text(item, '/') =~~= seq![star, count]);
}

/// A text that holds the separator has at least two pieces.
proof fn lemma_split_text_cut(s: Seq<char>, sep: char)
    requires
        s.contains(sep),
    ensures
        split_text(s, sep).len() >= 2,
{
    let i = choose|i: int| 0 <= i < s.len() && s[i] == sep;
    assert(s =~= s.take(i) + seq![sep] + s.skip(i + 1));
    lemma_split_text_joined(s.take(i), s.skip(i + 1), sep);
    lemma_split_text_nonempty(s.take(i), sep);
    lemma_split_text_nonempty(s.skip(i + 1), sep);
}

/// A step whose left side is not `*` is refused as a step.
pub proof fn law_step_needs_wildcard(
    expression: Seq<char>,
    left: Seq<char>,
    right: Seq<char>,
    n: nat,
)
    requires
        left != seq!['*'],
        !(left + seq!['/'] + right).contains('-'),
    ensures
        item_values(expression, left + seq!['/'] + right, n) == Err::<Set<nat>, ParsingErrorView>(
            ParsingErrorView::InvalidModulo { expression, modulo: left + seq!['/'] + right },
        ),
{
    let item = left + seq!['/'] + right;
    assert(item[left.len() as int] == '/');
    assert(item.contains('/'));
    assert(item != seq!['*']) by {
        if item.len() == 1 {
            assert(item[0] == '/');
            assert(seq!['*'][0] == '*');
        }
    }
    lemma_split_text_joined(left, right, '/');
    lemma_split_text_nonempty(left, '/');
    lemma_split_text_nonempty(right, '/');
    if left.contains('/') {
        lemma_split_text_cut(left, '/');
    } else if right.contains('/') {
        lemma_split_text_cut(right, '/');
    } else {
        lemma_split_text_plain(left, '/');
        lemma_split_text_plain(right, '/');
        assert(split_text(item, '/')[0] == left);
    }
}

/// While no item is empty or refused, a list compiles.
proof fn lemma_list_of_good_items(
    expression: Seq<char>,
    component: Seq<char>,
    items: Seq<Seq<char>>,
    n: nat,
)
    requires
        forall|i: int|
            0 <= i < items.len() ==> (#[trigger] items[i]).len() > 0 && item_values(
                expression,
                items[i],
                n,
            ) is Ok,
    ensures
        list_values(expression, component, items, n) is Ok,
    decreases items.len(),
{
    if items.len() > 0 {
        assert forall|i: int| 0 <= i < items.drop_last().len() implies (
        #[trigger] items.drop_last()[i]).len() > 0 && item_values(
            expression,
            items.drop_last()[i],
            n,
        ) is Ok by {
            assert(items.drop_last()[i] == items[i]);
        }
        lemma_list_of_good_items(expression, component, items.drop_last(), n);
        assert(items.last() == items[items.len() - 1]);
    }
}

/// A field with an empty item, whose items before it are all accepted, is
/// refused as a list.
pub proof fn law_empty_item(expression: Seq<char>, component: Seq<char>, n: nat, at: int)
    requires
        0 <= at < split_text(component, ',').len(),
        split_text(component, ',')[at].len() == 0,
        forall|i: int|
            0 <= i < at ==> (#[trigger] split_text(component, ',')[i]).len() > 0 && item_values(
                expression,
                split_text(component, ',')[i],
                n,
            ) is Ok,
    ensures
        component_values(expression, component, n) == Err::<Set<nat>, ParsingErrorView>(
            ParsingErrorView::InvalidList { expression, list: component },
        ),
{
    let items = split_text(component, ',');
    let upto = items.take(at + 1);
    assert(upto.drop_last() =~= items.take(at));
    assert(upto.last() == items[at]);
    assert forall|i: int| 0 <= i < items.take(at).len() implies (#[trigger] items.take(
        at,
    )[i]).len() > 0 && item_values(expression, items.take(at)[i], n) is Ok by {
        assert(items.take(at)[i] == items[i]);
    }
    lemma_list_of_good_items(expression, component, items.take(at), n);
    lemma_list_error_stays(expression, component, items, n, at + 1);
}

/// What a list selects lies below the width of its field.
proof fn lemma_list_within_width(
    expression: Seq<char>,
    component: Seq<char>,
    items: Seq<Seq<char>>,
    n: nat,
)
    ensures
        list_values(expression, component, items, n) matches Ok(selected) ==> selected.subset_of(
            below(n),
        ),
    decreases items.len(),
{
    if items.len() > 0 {
        lemma_list_within_width(expression, component, items.drop_last(), n);
    }
}

/// A field selects only numbers below its width.
pub proof fn law_values_within_width(expression: Seq<char>, component: Seq<char>, n: nat)
    ensures
        component_values(expression, component, n) matches Ok(selected) ==> forall|i: nat|
            selected.contains(i) ==> i < n,
{
    lemma_list_within_width(expression, component, split_text(component, ','), n);
}

/// The width of the field at position `i` of an expression.
pub open spec fn width(i: int) -> nat {
    if i == 0 {
        MINUTES as nat
    } else if i == 1 {
        HOURS as nat
    } else if i == 2 {
        DAYS_OF_MONTH as nat
    } else {
        MONTHS as nat
    }
}

/// An expression of five fields is accepted exactly when each of its first
/// four fields is, whatever the order in which they are compiled, and the
/// schedule then holds what each field selects.
pub proof fn law_fields_are_independent(expression: Seq<char>)
    requires
        split_text(expression, ' ').len() == FIELDS,
    ensures
        schedule_of(expression) is Ok <==> forall|i: int|
            0 <= i < 4 ==> (#[trigger] component_values(
                expression,
                split_text(expression, ' ')[i],
                width(i),
            )) is Ok,
        schedule_of(expression) matches Ok(schedule) ==> {
            &&& Ok::<Set<nat>, ParsingErrorView>(schedule.minutes) == component_values(
                expression,
                split_text(expression, ' ')[0],
                width(0),
            )
            &&& Ok::<Set<nat>, ParsingErrorView>(schedule.hours) == component_values(
                expression,
                split_text(expression, ' ')[1],
                width(1),
            )
            &&& Ok::<Set<nat>, ParsingErrorView>(schedule.days_of_month) == component_values(
                expression,
                split_text(expression, ' ')[2],
                width(2),
            )
            &&& Ok::<Set<nat>, ParsingErrorView>(schedule.months) == component_values(
                expression,
                split_text(expression, ' ')[3],
                width(3),
            )
        },
{
    let fields = split_text(expression, ' ');
    if schedule_of(expression) is Ok {
        assert forall|i: int| 0 <= i < 4 implies (#[trigger] component_values(
            expression,
            fields[i],
            width(i),
        )) is Ok by {
            assert(i == 0 || i == 1 || i == 2 || i == 3);
        }
    }
    if forall|i: int|
        0 <= i < 4 ==> (#[trigger] component_values(expression, fields[i], width(i))) is Ok {
        assert(component_values(expression, fields[3], width(3)) is Ok);
        assert(component_values(expression, fields[2], width(2)) is Ok);
        assert(component_values(expression, fields[1], width(1)) is Ok);
        assert(component_values(expression, fields[0], width(0)) is Ok);
    }
}

/// The error of an expression of five fields is the error of the first field
/// that is refused, the fields taken from the month back to the minute.
pub proof fn law_first_refused_field_decides(expression: Seq<char>, at: int)
    requires
        split_text(expression, ' ').len() == FIELDS,
        0 <= at < 4,
        component_values(expression, split_text(expression, ' ')[at], width(at)) is Err,
        forall|i: int|
            at < i < 4 ==> (#[trigger] component_values(
                expression,
                split_text(expression, ' ')[i],
                width(i),
            )) is Ok,
    ensures
        schedule_of(expression) is Err,
        Err::<Set<nat>, ParsingErrorView>(schedule_of(expression)->Err_0) == component_values(
            expression,
            split_text(expression, ' ')[at],
            width(at),
        ),
{
    let fields = split_text(expression, ' ');
    if at < 3 {
        assert(component_values(expression, fields[3], width(3)) is Ok);
    }
    if at < 2 {
        assert(component_values(expression, fields[2], width(2)) is Ok);
    }
    if at < 1 {
        assert(component_values(expression, fields[1], width(1)) is Ok);
    }
}

/// No field is refused for the number of fields of the expression.
proof fn lemma_list_error_kind(
    expression: Seq<char>,
    component: Seq<char>,
    items: Seq<Seq<char>>,
    n: nat,
)
    ensures
        list_values(expression, component, items, n) matches Err(e) ==> !(e
            is InvalidExpressionLength),
    decreases items.len(),
{
    if items.len() > 0 {
        lemma_list_error_kind(expression, component, items.drop_last(), n);
    }
}

/// An expression is refused for its length exactly when it does not have
/// five fields between single spaces, and the error then tells how many it
/// has.
pub proof fn law_component_count(expression: Seq<char>)
    ensures
        split_text(expression, ' ').len() != FIELDS ==> schedule_of(expression) == Err::<
            ScheduleView,
            ParsingErrorView,
        >(
            ParsingErrorView::InvalidExpressionLength {
                expression,
                expected: 5,
                got: split_text(expression, ' ').len(),
            },
        ),
        split_text(expression, ' ').len() == FIELDS ==> !(schedule_of(expression) matches Err(e)
            && e is InvalidExpressionLength),
{
    let fields = split_text(expression, ' ');
    if fields.len() == FIELDS {
        lemma_list_error_kind(expression, fields[3], split_text(fields[3], ','), MONTHS as nat);
        lemma_list_error_kind(
            expression,
            fields[2],
            split_text(fields[2], ','),
            DAYS_OF_MONTH as nat,
        );
        lemma_list_error_kind(expression, fields[1], split_text(fields[1], ','), HOURS as nat);
        lemma_list_error_kind(expression, fields[0], split_text(fields[0], ','), MINUTES as nat);
    }
}

/// The schedule whose every field is `*`.
pub open spec fn every_minute() -> ScheduleView {
    ScheduleView {
        months: below(MONTHS as nat),
        days_of_month: below(DAYS_OF_MONTH as nat),
        hours: below(HOURS as nat),
        minutes: below(MINUTES as nat),
    }
}

/// The expression of five `*` compiles to the schedule whose every field is
/// `*`.
pub proof fn law_every_minute_expression()
    ensures
        schedule_of("* * * * *"@) == Ok::<ScheduleView, ParsingErrorView>(every_minute()),
{
    reveal_strlit("* * * * *");
    let expression = "* * * * *"@;
    let star = seq!['*'];
    let space = seq![' '];
    assert(!star.contains(' ')) by {
        if star.contains(' ') {
            let i = choose|i: int| 0 <= i < star.len() && star[i] == ' ';
            assert(star[i] == '*');
        }
    }
    lemma_split_text_plain(star, ' ');
    let two = star + space + star;
    let three = star + space + two;
    let four = star + space + three;
    lemma_split_text_joined(star, star, ' ');
    lemma_split_text_joined(star, two, ' ');
    lemma_split_text_joined(star, three, ' ');
    lemma_split_text_joined(star, four, ' ');
    assert(expression =~= star + space + four);
    assert(split_text(expression, ' ') =~~= seq![star, star, star, star, star]);
    law_wildcard_selects_all(expression, MONTHS as nat);
    law_wildcard_selects_all(expression, DAYS_OF_MONTH as nat);
    law_wildcard_selects_all(expression, HOURS as nat);
    law_wildcard_selects_all(expression, MINUTES as nat);
}

/// Under the schedule whose every field is `*`, the next match after an
/// instant is the start of the next minute, which is the start of the
/// instant's own minute and one minute more, unless that minute falls in the
/// twelfth month or on the thirty-first day, which `*` does not select.
pub proof fn law_every_minute(from: Moment)
    requires
        from.valid(),
        from.next_minute_start() is Some,
        from.next_minute_start().unwrap().month < MONTHS,
        from.next_minute_start().unwrap().day < DAYS_OF_MONTH,
    ensures
        every_minute().is_next_match(from, from.next_minute_start().unwrap()),
        from.next_minute_start() == from.start_of_minute().plus_minutes(1),
{
    let next = from.next_minute_start().unwrap();
    lemma_minutes_within_hour(from.start_of_minute(), 0);
    assert forall|x: Moment|
        x.valid() && x.on_minute() && from.earlier_than(x) && x.earlier_than(
            next,
        ) implies !every_minute().permits(x) by {
        lemma_same_minute_until_next(from, x);
    }
}

/// At most one instant is the next match after another.
pub proof fn law_next_match_unique(schedule: ScheduleView, from: Moment, a: Moment, b: Moment)
    requires
        schedule.is_next_match(from, a),
        schedule.is_next_match(from, b),
    ensures
        a == b,
{
}

} // verus!
