//! What the parts of a snippet stand for.

use vstd::prelude::*;
use crate::snippet::{
    choice_goes_on, choices_at, digits_end, digits_value, final_stops, int_at, is_digit, is_parsed,
    optional_choices, range_list, snippet_at, stop_models, stop_slot, tabstop_at, text_end,
    with_range, ChoiceState, Snippet, SnippetError, SnippetState, Stop, TabStop,
};
use crate::text::{byte_len, decimal, joined, lemma_byte_len_bounds, lemma_byte_len_concat, texts};

verus! {

/// Whether a text holds nothing that means something in a snippet.
pub open spec fn is_plain(text: Seq<char>) -> bool {
    forall|i: int|
        0 <= i < text.len() ==> (#[trigger] text[i]) != '$' && text[i] != '\\' && text[i] != '}'
}

/// Whether a text can be a choice: it holds nothing that ends a choice.
pub open spec fn is_choice(text: Seq<char>) -> bool {
    forall|i: int|
        0 <= i < text.len() ==> (#[trigger] text[i]) != ',' && text[i] != '|' && text[i] != '\\'
}

/// Whether a text does not go on with a digit.
pub open spec fn no_digit_first(text: Seq<char>) -> bool {
    text.len() > 0 ==> !('0' <= text[0] && text[0] <= '9')
}

/// Whether a tab stop stands at some places, and offers some choices or none.
pub open spec fn is_stop(
    stop: TabStop,
    ranges: Seq<(isize, isize)>,
    choices: Option<Seq<Seq<char>>>,
) -> bool {
    &&& range_list(stop.ranges) == ranges
    &&& match choices {
        None => stop.choices is None,
        Some(choices) => stop.choices is Some && stop.choices->0@.len() == choices.len()
            && forall|i: int|
            0 <= i < choices.len() ==> (#[trigger] stop.choices->0@[i])@ == choices[i],
    }
}

spec fn stands(source: Seq<char>, pos: nat, part: Seq<char>) -> bool {
    pos + part.len() <= source.len() && source.subrange(pos as int, (pos + part.len()) as int)
        == part
}

proof fn lemma_stands(before: Seq<char>, part: Seq<char>, after: Seq<char>)
    ensures
        stands(before + part + after, before.len(), part),
        forall|k: int|
            0 <= k < part.len() ==> (before + part + after)[before.len() + k] == #[trigger] part[k],
        forall|k: int|
            0 <= k < after.len() ==> (before + part + after)[before.len() + part.len() + k]
                == #[trigger] after[k],
{
    assert((before + part + after).subrange(
        before.len() as int,
        (before.len() + part.len()) as int,
    ) =~= part);
}

proof fn lemma_plain_run(source: Seq<char>, pos: nat, text: Seq<char>, nested: bool, state: SnippetState)
    requires
        stands(source, pos, text),
        is_plain(text),
    ensures
        snippet_at(source, pos, nested, state) == snippet_at(
            source,
            pos + text.len(),
            nested,
            SnippetState { text: state.text + text, ..state },
        ),
    decreases text.len(),
{
    if text.len() == 0 {
        assert(state.text + text =~= state.text);
    } else {
        let rest = text.drop_first();
        assert(source[pos as int] == text[0]) by {
            assert(source.subrange(pos as int, (pos + text.len()) as int)[0] == source[pos as int]);
        }
        assert(source.subrange((pos + 1) as int, (pos + 1 + rest.len()) as int) =~= rest) by {
            assert forall|k: int| 0 <= k < rest.len() implies source[pos + 1 + k] == rest[k] by {
                assert(source.subrange(pos as int, (pos + text.len()) as int)[k + 1] == text[k + 1]);
            }
        }
        let next = SnippetState { text: state.text.push(text[0]), ..state };
        assert(is_plain(rest)) by {
            assert forall|i: int| 0 <= i < rest.len() implies (#[trigger] rest[i]) != '$' && rest[i]
                != '\\' && rest[i] != '}' by {
                assert(rest[i] == text[i + 1]);
            }
        }
        lemma_plain_run(source, pos + 1, rest, nested, next);
        assert(state.text.push(text[0]) + rest =~= state.text + text);
    }
}

proof fn lemma_decimal(n: nat)
    ensures
        decimal(n).len() > 0,
        forall|i: int| 0 <= i < decimal(n).len() ==> is_digit(#[trigger] decimal(n)[i]),
        digits_value(decimal(n)) == n,
    decreases n,
{
    reveal_with_fuel(digits_value, 2);
    if n < 10 {
        assert(decimal(n).drop_last() =~= Seq::empty());
    } else {
        lemma_decimal(n / 10);
        assert(decimal(n).drop_last() =~= decimal(n / 10));
    }
}

proof fn lemma_digits_end_is(source: Seq<char>, pos: nat, end: nat)
    requires
        pos <= end <= source.len(),
        forall|k: int| pos <= k < end ==> is_digit(#[trigger] source[k]),
        end < source.len() ==> !is_digit(source[end as int]),
    ensures
        digits_end(source, pos) == end,
    decreases end - pos,
{
    if pos < end {
        lemma_digits_end_is(source, pos + 1, end);
    }
}

proof fn lemma_number(source: Seq<char>, pos: nat, n: usize)
    requires
        stands(source, pos, decimal(n as nat)),
        pos + decimal(n as nat).len() < source.len() ==> !is_digit(
            source[(pos + decimal(n as nat).len()) as int],
        ),
    ensures
        int_at(source, pos) == Ok::<(usize, nat), SnippetError>(
            (n, pos + decimal(n as nat).len()),
        ),
        decimal(n as nat).len() > 0,
{
    let digits = decimal(n as nat);
    let end = pos + digits.len();
    lemma_decimal(n as nat);
    assert forall|k: int| pos <= k < end implies is_digit(#[trigger] source[k]) by {
        assert(source.subrange(pos as int, end as int)[k - pos] == digits[k - pos]);
    }
    lemma_digits_end_is(source, pos, end);
}

proof fn lemma_goes_on(source: Seq<char>, pos: nat, later: nat)
    requires
        pos <= later < source.len(),
        source[later as int] == '|',
    ensures
        choice_goes_on(source, pos),
    decreases later - pos,
{
    if pos < later {
        lemma_goes_on(source, pos + 1, later);
    }
}

proof fn lemma_choice_run(source: Seq<char>, pos: nat, text: Seq<char>, later: nat, state: ChoiceState)
    requires
        stands(source, pos, text),
        is_choice(text),
        pos + text.len() <= later < source.len(),
        source[later as int] == '|',
    ensures
        choices_at(source, pos, state) == choices_at(
            source,
            pos + text.len(),
            ChoiceState {
                text: if state.found_default {
                    state.text
                } else {
                    state.text + text
                },
                current: state.current + text,
                ..state
            },
        ),
    decreases text.len(),
{
    if text.len() == 0 {
        assert(state.text + text =~= state.text);
        assert(state.current + text =~= state.current);
    } else {
        let rest = text.drop_first();
        assert(source[pos as int] == text[0]) by {
            assert(source.subrange(pos as int, (pos + text.len()) as int)[0] == source[pos as int]);
        }
        assert(source.subrange((pos + 1) as int, (pos + 1 + rest.len()) as int) =~= rest) by {
            assert forall|k: int| 0 <= k < rest.len() implies source[pos + 1 + k] == rest[k] by {
                assert(source.subrange(pos as int, (pos + text.len()) as int)[k + 1] == text[k + 1]);
            }
        }
        assert(is_choice(rest)) by {
            assert forall|i: int| 0 <= i < rest.len() implies (#[trigger] rest[i]) != ',' && rest[i]
                != '|' && rest[i] != '\\' by {
                assert(rest[i] == text[i + 1]);
            }
        }
        lemma_goes_on(source, pos, later);
        let next = ChoiceState {
            text: if state.found_default {
                state.text
            } else {
                state.text.push(text[0])
            },
            current: state.current.push(text[0]),
            ..state
        };
        lemma_choice_run(source, pos + 1, rest, later, next);
        assert(state.text.push(text[0]) + rest =~= state.text + text);
        assert(state.current.push(text[0]) + rest =~= state.current + text);
    }
}

proof fn lemma_joined_first(parts: Seq<Seq<char>>, separator: Seq<char>)
    requires
        parts.len() > 1,
    ensures
        joined(parts, separator) == parts[0] + separator + joined(parts.drop_first(), separator),
    decreases parts.len(),
{
    let rest = parts.drop_first();
    let init = parts.drop_last();
    if parts.len() == 2 {
        assert(init =~= seq![parts[0]]);
        assert(rest =~= seq![parts[1]]);
        assert(joined(init, separator) == parts[0]);
        assert(joined(rest, separator) == parts[1]);
    } else {
        lemma_joined_first(init, separator);
        assert(init.drop_first() =~= rest.drop_last());
        assert(rest.last() == parts.last());
        assert(joined(parts, separator) =~= parts[0] + separator + joined(rest, separator));
    }
}

proof fn lemma_choice_list(source: Seq<char>, pos: nat, choices: Seq<Seq<char>>, state: ChoiceState)
    requires
        choices.len() > 0,
        forall|i: int| 0 <= i < choices.len() ==> is_choice(#[trigger] choices[i]),
        state.current.len() == 0,
        stands(source, pos, joined(choices, ","@)),
        pos + joined(choices, ","@).len() < source.len(),
        source[(pos + joined(choices, ","@).len()) as int] == '|',
    ensures
        choices_at(source, pos, state) == Ok::<(nat, Seq<char>, Seq<Seq<char>>), SnippetError>(
            (
                pos + joined(choices, ","@).len() + 1,
                if state.found_default {
                    state.text
                } else {
                    state.text + choices[0]
                },
                state.choices + choices,
            ),
        ),
    decreases choices.len(),
{
    reveal_strlit(",");
    let list = joined(choices, ","@);
    let bar = pos + list.len();
    let first = choices[0];
    if choices.len() == 1 {
        assert(list == first);
        lemma_choice_run(source, pos, first, bar, state);
        assert(state.current + first =~= first);
        assert(state.choices.push(first) =~= state.choices + choices);
    } else {
        let rest = choices.drop_first();
        lemma_joined_first(choices, ","@);
        let more = joined(rest, ","@);
        assert(list == first + ","@ + more);
        assert forall|k: int| 0 <= k < list.len() implies source[pos + k] == #[trigger] list[k] by {
            assert(source.subrange(pos as int, bar as int)[k] == list[k]);
        }
        assert(source.subrange(pos as int, (pos + first.len()) as int) =~= first) by {
            assert forall|k: int| 0 <= k < first.len() implies source[pos + k] == first[k] by {
                assert(list[k] == first[k]);
            }
        }
        let comma = pos + first.len();
        assert(source[comma as int] == ',') by {
            assert(list[first.len() as int] == ","@[0]);
        }
        assert(source.subrange((comma + 1) as int, (comma + 1 + more.len()) as int) =~= more) by {
            assert forall|k: int| 0 <= k < more.len() implies source[comma + 1 + k] == more[k] by {
                assert(list[first.len() + 1 + k] == more[k]);
            }
        }
        lemma_choice_run(source, pos, first, bar, state);
        assert(state.current + first =~= first);
        let text = if state.found_default {
            state.text
        } else {
            state.text + first
        };
        let next = ChoiceState {
            text,
            choices: state.choices.push(first),
            current: Seq::empty(),
            found_default: true,
        };
        assert forall|i: int| 0 <= i < rest.len() implies is_choice(#[trigger] rest[i]) by {
            assert(rest[i] == choices[i + 1]);
        }
        lemma_choice_list(source, comma + 1, rest, next);
        assert(state.choices.push(first) + rest =~= state.choices + choices);
    }
}

proof fn lemma_one_stop(number: usize, stop: Stop, end: isize)
    ensures
        final_stops(seq![(number, stop)], end) == (if number == 0 || (stop.ranges == seq![
            (end, end),
        ] && stop.choices is None) {
            seq![stop]
        } else {
            seq![stop, Stop { ranges: seq![(end, end)], choices: None }]
        }),
        with_range(Seq::<(usize, Stop)>::empty(), number, stop.choices, (end, end)) == seq![
            (number, Stop { ranges: seq![(end, end)], choices: stop.choices }),
        ],
{
    let stops = seq![(number, stop)];
    let values = Seq::new(stops.len(), |i: int| stops[i].1);
    assert(values =~= seq![stop]);
    assert(values.drop_first().push(values[0]) =~= seq![stop]);
    assert(values.push(Stop { ranges: seq![(end, end)], choices: None }) =~= seq![
        stop,
        Stop { ranges: seq![(end, end)], choices: None },
    ]);
    assert(with_range(Seq::<(usize, Stop)>::empty(), number, stop.choices, (end, end)) =~= seq![
        (number, Stop { ranges: seq![(end, end)], choices: stop.choices }),
    ]);
}

proof fn lemma_first_range(number: usize, choices: Option<Seq<Seq<char>>>, range: (isize, isize))
    ensures
        with_range(Seq::<(usize, Stop)>::empty(), number, choices, range) == seq![
            (number, Stop { ranges: seq![range], choices }),
        ],
{
    assert(with_range(Seq::<(usize, Stop)>::empty(), number, choices, range) =~= seq![
        (number, Stop { ranges: seq![range], choices }),
    ]);
}

proof fn lemma_models(tabstops: Seq<TabStop>, i: int)
    requires
        0 <= i < tabstops.len(),
    ensures
        stop_models(tabstops)[i] == tabstops[i]@,
        is_stop(
            tabstops[i],
            stop_models(tabstops)[i].ranges,
            stop_models(tabstops)[i].choices,
        ),
{
    if let Some(choices) = tabstops[i].choices {
        assert(tabstops[i]@.choices == Some(texts(choices@)));
    }
}

proof fn lemma_choices_stop(
    all: Seq<char>,
    before: Seq<char>,
    n: usize,
    choices: Seq<Seq<char>>,
    after: Seq<char>,
)
    requires
        all == before + ("${"@ + decimal(n as nat) + "|"@ + joined(choices, ","@) + "|}"@) + after,
        choices.len() > 0,
        forall|i: int| 0 <= i < choices.len() ==> is_choice(#[trigger] choices[i]),
    ensures
        tabstop_at(
            all,
            before.len() + 1,
            SnippetState { text: before, stops: Seq::<(usize, Stop)>::empty() },
        ) == Ok::<(nat, SnippetState), SnippetError>(
            (
                before.len() + ("${"@ + decimal(n as nat) + "|"@ + joined(choices, ","@)
                    + "|}"@).len(),
                SnippetState {
                    text: before + choices[0],
                    stops: seq![
                        (
                            n,
                            Stop {
                                ranges: seq![(text_end(before), text_end(before + choices[0]))],
                                choices: Some(choices),
                            },
                        ),
                    ],
                },
            ),
        ),
{
    reveal_strlit("${");
    reveal_strlit("|");
    reveal_strlit("|}");
    let number = decimal(n as nat);
    let list = joined(choices, ","@);
    let middle = "${"@ + number + "|"@ + list + "|}"@;
    lemma_stands(before, middle, after);
    let read = SnippetState { text: before, stops: Seq::<(usize, Stop)>::empty() };
    let at = before.len();
    assert(all[(at + 1) as int] == '{') by {
        assert(middle[1] == "${"@[1]);
    }
    assert(all.subrange((at + 2) as int, (at + 2 + number.len()) as int) =~= number) by {
        assert forall|k: int| 0 <= k < number.len() implies all[at + 2 + k] == number[k] by {
            assert(middle[2 + k] == number[k]);
        }
    }
    let bar = at + 2 + number.len();
    assert(all[bar as int] == '|') by {
        assert(middle[(2 + number.len()) as int] == "|"@[0]);
    }
    assert(all.subrange((bar + 1) as int, (bar + 1 + list.len()) as int) =~= list) by {
        assert forall|k: int| 0 <= k < list.len() implies all[bar + 1 + k] == list[k] by {
            assert(middle[3 + number.len() + k] == list[k]);
        }
    }
    let close = bar + 1 + list.len();
    assert(all[close as int] == '|') by {
        assert(middle[(3 + number.len() + list.len()) as int] == "|}"@[0]);
    }
    assert(all[(close + 1) as int] == '}') by {
        assert(middle[(4 + number.len() + list.len()) as int] == "|}"@[1]);
    }
    lemma_number(all, at + 2, n);
    lemma_choice_list(
        all,
        bar + 1,
        choices,
        ChoiceState {
            text: before,
            choices: Seq::empty(),
            current: Seq::empty(),
            found_default: false,
        },
    );
    assert(Seq::<Seq<char>>::empty() + choices =~= choices);
    let filled = before + choices[0];
    let range = (text_end(before), text_end(filled));
    assert(optional_choices(all, bar, before) == Ok::<
        (nat, Seq<char>, Option<Seq<Seq<char>>>),
        SnippetError,
    >((close + 1, filled, Some(choices))));
    lemma_first_range(n, Some(choices), range);
}

proof fn lemma_filled_stop(
    all: Seq<char>,
    before: Seq<char>,
    n: usize,
    inner: Seq<char>,
    after: Seq<char>,
)
    requires
        all == before + ("${"@ + decimal(n as nat) + ":"@ + inner + "}"@) + after,
        is_plain(inner),
    ensures
        tabstop_at(
            all,
            before.len() + 1,
            SnippetState { text: before, stops: Seq::<(usize, Stop)>::empty() },
        ) == Ok::<(nat, SnippetState), SnippetError>(
            (
                before.len() + ("${"@ + decimal(n as nat) + ":"@ + inner + "}"@).len(),
                SnippetState {
                    text: before + inner,
                    stops: seq![
                        (
                            n,
                            Stop {
                                ranges: seq![(text_end(before), text_end(before + inner))],
                                choices: None,
                            },
                        ),
                    ],
                },
            ),
        ),
{
    reveal_strlit("${");
    reveal_strlit(":");
    reveal_strlit("}");
    let number = decimal(n as nat);
    let middle = "${"@ + number + ":"@ + inner + "}"@;
    lemma_stands(before, middle, after);
    let read = SnippetState { text: before, stops: Seq::<(usize, Stop)>::empty() };
    let at = before.len();
    assert(all[(at + 1) as int] == '{') by {
        assert(middle[1] == "${"@[1]);
    }
    assert(all.subrange((at + 2) as int, (at + 2 + number.len()) as int) =~= number) by {
        assert forall|k: int| 0 <= k < number.len() implies all[at + 2 + k] == number[k] by {
            assert(middle[2 + k] == number[k]);
        }
    }
    let colon = at + 2 + number.len();
    assert(all[colon as int] == ':') by {
        assert(middle[(2 + number.len()) as int] == ":"@[0]);
    }
    assert(all.subrange((colon + 1) as int, (colon + 1 + inner.len()) as int) =~= inner) by {
        assert forall|k: int| 0 <= k < inner.len() implies all[colon + 1 + k] == inner[k] by {
            assert(middle[3 + number.len() + k] == inner[k]);
        }
    }
    let close = colon + 1 + inner.len();
    assert(all[close as int] == '}') by {
        assert(middle[(3 + number.len() + inner.len()) as int] == "}"@[0]);
    }
    lemma_number(all, at + 2, n);
    let filled = before + inner;
    lemma_plain_run(all, colon + 1, inner, true, read);
    let read_inner = SnippetState { text: filled, stops: Seq::<(usize, Stop)>::empty() };
    assert(snippet_at(all, close, true, read_inner) == Ok::<(nat, SnippetState), SnippetError>(
        (close, read_inner),
    ));
    lemma_first_range(n, None, (text_end(before), text_end(filled)));
}

proof fn lemma_bare_stop(all: Seq<char>, before: Seq<char>, n: usize, after: Seq<char>)
    requires
        all == before + ("$"@ + decimal(n as nat)) + after,
        no_digit_first(after),
    ensures
        tabstop_at(
            all,
            before.len() + 1,
            SnippetState { text: before, stops: Seq::<(usize, Stop)>::empty() },
        ) == Ok::<(nat, SnippetState), SnippetError>(
            (
                before.len() + ("$"@ + decimal(n as nat)).len(),
                SnippetState {
                    text: before,
                    stops: seq![
                        (
                            n,
                            Stop {
                                ranges: seq![(text_end(before), text_end(before))],
                                choices: None,
                            },
                        ),
                    ],
                },
            ),
        ),
{
    reveal_strlit("$");
    let number = decimal(n as nat);
    let middle = "$"@ + number;
    lemma_stands(before, middle, after);
    let at = before.len();
    assert(all.subrange((at + 1) as int, (at + 1 + number.len()) as int) =~= number) by {
        assert forall|k: int| 0 <= k < number.len() implies all[at + 1 + k] == number[k] by {
            assert(middle[1 + k] == number[k]);
        }
    }
    let stop_end = at + 1 + number.len();
    lemma_decimal(n as nat);
    assert(stop_end < all.len() ==> all[stop_end as int] == after[0]);
    lemma_number(all, at + 1, n);
    assert(all[(at + 1) as int] != '{') by {
        assert(is_digit(number[0]));
        assert(middle[1] == number[0]);
    }
    lemma_first_range(n, None, (text_end(before), text_end(before)));
}

proof fn lemma_around(
    all: Seq<char>,
    before: Seq<char>,
    middle: Seq<char>,
    after: Seq<char>,
    after_stop: SnippetState,
    r: Result<Snippet, SnippetError>,
)
    requires
        is_parsed(all, r),
        all == before + middle + after,
        is_plain(before),
        is_plain(after),
        middle.len() > 0,
        middle[0] == '$',
        tabstop_at(
            all,
            before.len() + 1,
            SnippetState { text: before, stops: Seq::<(usize, Stop)>::empty() },
        ) == Ok::<(nat, SnippetState), SnippetError>((before.len() + middle.len(), after_stop)),
    ensures
        r matches Ok(snippet) && snippet.text@ == after_stop.text + after && stop_models(
            snippet.tabstops@,
        ) == final_stops(after_stop.stops, text_end(after_stop.text + after)),
{
    lemma_stands(before, middle, after);
    lemma_stands(Seq::empty(), before, middle + after);
    assert(Seq::<char>::empty() + before + (middle + after) =~= all);
    let begin = SnippetState { text: Seq::<char>::empty(), stops: Seq::<(usize, Stop)>::empty() };
    let read = SnippetState { text: before, stops: Seq::<(usize, Stop)>::empty() };
    lemma_plain_run(all, 0, before, false, begin);
    assert(Seq::<char>::empty() + before =~= before);
    assert(snippet_at(all, 0, false, begin) == snippet_at(all, before.len(), false, read));
    let at = before.len();
    let stop_end = before.len() + middle.len();
    assert(all[at as int] == middle[0]);
    assert(snippet_at(all, at, false, read) == snippet_at(all, stop_end, false, after_stop));
    lemma_stands(before + middle, after, Seq::empty());
    assert(before + middle + after + Seq::<char>::empty() =~= all);
    lemma_plain_run(all, stop_end, after, false, after_stop);
    let last = SnippetState { text: after_stop.text + after, ..after_stop };
    assert(stop_end + after.len() == all.len());
    assert(snippet_at(all, all.len(), false, last) == Ok::<(nat, SnippetState), SnippetError>(
        (all.len(), last),
    ));
}

/// A tab stop that is written with choices offers exactly those choices, in their order,
/// however many they are. The first of them stands in the text.
pub proof fn law_choices_are_offered(
    source: &str,
    before: Seq<char>,
    n: usize,
    choices: Seq<Seq<char>>,
    after: Seq<char>,
    r: Result<Snippet, SnippetError>,
)
    requires
        call_ensures(Snippet::parse, (source,), r),
        source@ == before + ("${"@ + decimal(n as nat) + "|"@ + joined(choices, ","@) + "|}"@)
            + after,
        byte_len(source@) <= isize::MAX,
        is_plain(before),
        is_plain(after),
        choices.len() > 0,
        forall|i: int| 0 <= i < choices.len() ==> is_choice(#[trigger] choices[i]),
    ensures
        r matches Ok(snippet) && {
            let start = byte_len(before) as isize;
            let end = (byte_len(before) + byte_len(choices[0])) as isize;
            &&& snippet.text@ == before + choices[0] + after
            &&& snippet.tabstops@.len() == (if n == 0 {
                1int
            } else {
                2
            })
            &&& is_stop(snippet.tabstops@[0], seq![(start, end)], Some(choices))
            &&& n != 0 ==> is_stop(
                snippet.tabstops@[1],
                seq![
                    (
                        byte_len(before + choices[0] + after) as isize,
                        byte_len(before + choices[0] + after) as isize,
                    ),
                ],
                None,
            )
        },
{
    let all = source@;
    let number = decimal(n as nat);
    let list = joined(choices, ","@);
    let middle = "${"@ + number + "|"@ + list + "|}"@;
    let filled = before + choices[0];
    let range = (text_end(before), text_end(filled));
    let stop = Stop { ranges: seq![range], choices: Some(choices) };
    lemma_choices_stop(all, before, n, choices, after);
    reveal_strlit("${");
    assert(middle[0] == "${"@[0]);
    lemma_around(
        all,
        before,
        middle,
        after,
        SnippetState { text: filled, stops: seq![(n, stop)] },
        r,
    );
    lemma_one_stop(n, stop, text_end(filled + after));
    lemma_byte_len_concat(before, choices[0]);
    if let Ok(snippet) = r {
        assert(stop_models(snippet.tabstops@).len() == snippet.tabstops@.len());
        lemma_models(snippet.tabstops@, 0);
        if n != 0 {
            lemma_models(snippet.tabstops@, 1);
        }
    }
}

/// A tab stop that is written with a text is filled with that text.
pub proof fn law_placeholder_is_filled(
    source: &str,
    before: Seq<char>,
    n: usize,
    inner: Seq<char>,
    after: Seq<char>,
    r: Result<Snippet, SnippetError>,
)
    requires
        call_ensures(Snippet::parse, (source,), r),
        source@ == before + ("${"@ + decimal(n as nat) + ":"@ + inner + "}"@) + after,
        byte_len(source@) <= isize::MAX,
        is_plain(before),
        is_plain(inner),
        is_plain(after),
        inner.len() > 0,
    ensures
        r matches Ok(snippet) && {
            let start = byte_len(before) as isize;
            let end = (byte_len(before) + byte_len(inner)) as isize;
            &&& snippet.text@ == before + inner + after
            &&& snippet.tabstops@.len() == (if n == 0 {
                1int
            } else {
                2
            })
            &&& is_stop(snippet.tabstops@[0], seq![(start, end)], None)
            &&& n != 0 ==> is_stop(
                snippet.tabstops@[1],
                seq![
                    (
                        byte_len(before + inner + after) as isize,
                        byte_len(before + inner + after) as isize,
                    ),
                ],
                None,
            )
        },
{
    let all = source@;
    let number = decimal(n as nat);
    let middle = "${"@ + number + ":"@ + inner + "}"@;
    let filled = before + inner;
    let range = (text_end(before), text_end(filled));
    let stop = Stop { ranges: seq![range], choices: None };
    lemma_filled_stop(all, before, n, inner, after);
    reveal_strlit("${");
    assert(middle[0] == "${"@[0]);
    lemma_around(
        all,
        before,
        middle,
        after,
        SnippetState { text: filled, stops: seq![(n, stop)] },
        r,
    );
    let end = text_end(filled + after);
    lemma_one_stop(n, stop, end);
    lemma_byte_len_concat(before, inner);
    lemma_byte_len_concat(filled, after);
    lemma_byte_len_bounds(inner);
    lemma_text_fits(all, before, middle, after, inner, number);
    assert(range != (end, end));
    assert(seq![range][0] == range && seq![(end, end)][0] == (end, end));
    if let Ok(snippet) = r {
        assert(stop_models(snippet.tabstops@).len() == snippet.tabstops@.len());
        lemma_models(snippet.tabstops@, 0);
        if n != 0 {
            lemma_models(snippet.tabstops@, 1);
        }
    }
}

proof fn lemma_text_fits(
    all: Seq<char>,
    before: Seq<char>,
    middle: Seq<char>,
    after: Seq<char>,
    inner: Seq<char>,
    number: Seq<char>,
)
    requires
        all == before + middle + after,
        middle == "${"@ + number + ":"@ + inner + "}"@,
    ensures
        byte_len(before) + byte_len(inner) + byte_len(after) <= byte_len(all),
{
    lemma_byte_len_concat(before + middle, after);
    lemma_byte_len_concat(before, middle);
    lemma_byte_len_concat("${"@ + number + ":"@ + inner, "}"@);
    lemma_byte_len_concat("${"@ + number + ":"@, inner);
}

/// A number behind a dollar sign is a tab stop that adds nothing to the text.
pub proof fn law_bare_stop_adds_nothing(
    source: &str,
    before: Seq<char>,
    n: usize,
    after: Seq<char>,
    r: Result<Snippet, SnippetError>,
)
    requires
        call_ensures(Snippet::parse, (source,), r),
        source@ == before + ("$"@ + decimal(n as nat)) + after,
        byte_len(source@) <= isize::MAX,
        is_plain(before),
        is_plain(after),
        no_digit_first(after),
    ensures
        r matches Ok(snippet) && {
            let at = byte_len(before) as isize;
            let end = byte_len(before + after) as isize;
            &&& snippet.text@ == before + after
            &&& is_stop(snippet.tabstops@[0], seq![(at, at)], None)
            &&& snippet.tabstops@.len() == (if n == 0 || after.len() == 0 {
                1int
            } else {
                2
            })
            &&& n != 0 && after.len() > 0 ==> is_stop(snippet.tabstops@[1], seq![(end, end)], None)
        },
{
    let all = source@;
    let middle = "$"@ + decimal(n as nat);
    let range = (text_end(before), text_end(before));
    let stop = Stop { ranges: seq![range], choices: None };
    lemma_bare_stop(all, before, n, after);
    reveal_strlit("$");
    assert(middle[0] == "$"@[0]);
    lemma_around(
        all,
        before,
        middle,
        after,
        SnippetState { text: before, stops: seq![(n, stop)] },
        r,
    );
    let end = text_end(before + after);
    lemma_one_stop(n, stop, end);
    lemma_byte_len_concat(before, after);
    lemma_byte_len_concat(before + middle, after);
    lemma_byte_len_concat(before, middle);
    lemma_byte_len_bounds(after);
    assert(seq![range][0] == range && seq![(end, end)][0] == (end, end));
    if after.len() == 0 {
        assert(before + after =~= before);
    }
    if let Ok(snippet) = r {
        assert(stop_models(snippet.tabstops@).len() == snippet.tabstops@.len());
        lemma_models(snippet.tabstops@, 0);
        if n != 0 && after.len() > 0 {
            lemma_models(snippet.tabstops@, 1);
        }
    }
}

proof fn lemma_bare_stop_in(all: Seq<char>, at: nat, n: usize, state: SnippetState)
    requires
        stands(all, at + 1, decimal(n as nat)),
        at + 1 + decimal(n as nat).len() < all.len() ==> !is_digit(
            all[(at + 1 + decimal(n as nat).len()) as int],
        ),
    ensures
        tabstop_at(all, at + 1, state) == Ok::<(nat, SnippetState), SnippetError>(
            (
                at + 1 + decimal(n as nat).len(),
                SnippetState {
                    text: state.text,
                    stops: with_range(
                        state.stops,
                        n,
                        None,
                        (text_end(state.text), text_end(state.text)),
                    ),
                },
            ),
        ),
{
    let number = decimal(n as nat);
    lemma_decimal(n as nat);
    lemma_number(all, at + 1, n);
    assert(all[(at + 1) as int] != '{') by {
        assert(is_digit(number[0]));
        assert(all.subrange((at + 1) as int, (at + 1 + number.len()) as int)[0] == number[0]);
    }
}

proof fn lemma_two_stops(m: usize, n: usize, first: (isize, isize), second: (isize, isize))
    ensures
        ({
            let one = seq![(m, Stop { ranges: seq![first], choices: None })];
            let both = with_range(one, n, None, second);
            &&& m == n ==> both == seq![
                (m, Stop { ranges: seq![first, second], choices: None }),
            ]
            &&& m < n ==> both == seq![
                (m, Stop { ranges: seq![first], choices: None }),
                (n, Stop { ranges: seq![second], choices: None }),
            ]
            &&& n < m ==> both == seq![
                (n, Stop { ranges: seq![second], choices: None }),
                (m, Stop { ranges: seq![first], choices: None }),
            ]
        }),
{
    reveal_with_fuel(stop_slot, 3);
    let one = seq![(m, Stop { ranges: seq![first], choices: None })];
    let both = with_range(one, n, None, second);
    assert(one.drop_first() =~= Seq::empty());
    assert(seq![first].push(second) =~= seq![first, second]);
    if m == n {
        assert(both =~= seq![(m, Stop { ranges: seq![first, second], choices: None })]);
    } else if m < n {
        assert(both =~= seq![
            (m, Stop { ranges: seq![first], choices: None }),
            (n, Stop { ranges: seq![second], choices: None }),
        ]);
    } else {
        assert(both =~= seq![
            (n, Stop { ranges: seq![second], choices: None }),
            (m, Stop { ranges: seq![first], choices: None }),
        ]);
    }
}

proof fn lemma_final_two(a: usize, x: Stop, b: usize, y: Stop, end: isize)
    requires
        a < b,
    ensures
        ({
            let all = final_stops(seq![(a, x), (b, y)], end);
            &&& a == 0 ==> all == seq![y, x]
            &&& a != 0 ==> all.len() >= 2 && all[0] == x && all[1] == y
        }),
{
    let stops = seq![(a, x), (b, y)];
    let values = Seq::new(stops.len(), |i: int| stops[i].1);
    assert(values =~= seq![x, y]);
    assert(values.drop_first().push(values[0]) =~= seq![y, x]);
}

proof fn lemma_number_in(before: Seq<char>, n: usize, after: Seq<char>)
    ensures
        ({
            let all = before + ("$"@ + decimal(n as nat)) + after;
            &&& all[before.len() as int] == '$'
            &&& stands(all, before.len() + 1, decimal(n as nat))
            &&& ("$"@ + decimal(n as nat)).len() == 1 + decimal(n as nat).len()
            &&& after.len() > 0 ==> all[(before.len() + 1 + decimal(n as nat).len()) as int]
                == after[0]
            &&& all.len() == before.len() + 1 + decimal(n as nat).len() + after.len()
        }),
{
    reveal_strlit("$");
    let number = decimal(n as nat);
    let all = before + ("$"@ + number) + after;
    assert(all.subrange(
        (before.len() + 1) as int,
        (before.len() + 1 + number.len()) as int,
    ) =~= number);
}

#[verifier::rlimit(100)]
#[verifier::spinoff_prover]
proof fn lemma_two_in_a_row(
    all: Seq<char>,
    a: Seq<char>,
    m: usize,
    b: Seq<char>,
    n: usize,
    c: Seq<char>,
    r: Result<Snippet, SnippetError>,
)
    requires
        is_parsed(all, r),
        all == a + ("$"@ + decimal(m as nat)) + b + ("$"@ + decimal(n as nat)) + c,
        is_plain(a),
        is_plain(b),
        is_plain(c),
        no_digit_first(b),
        no_digit_first(c),
    ensures
        r matches Ok(snippet) && snippet.text@ == a + b + c && stop_models(snippet.tabstops@)
            == final_stops(
            with_range(
                seq![
                    (
                        m,
                        Stop { ranges: seq![(text_end(a), text_end(a))], choices: None },
                    ),
                ],
                n,
                None,
                (text_end(a + b), text_end(a + b)),
            ),
            text_end(a + b + c),
        ),
{
    reveal_strlit("$");
    let begin = SnippetState { text: Seq::<char>::empty(), stops: Seq::<(usize, Stop)>::empty() };
    let s1 = SnippetState { text: a, stops: Seq::<(usize, Stop)>::empty() };
    let one = seq![(m, Stop { ranges: seq![(text_end(a), text_end(a))], choices: None })];
    let s2 = SnippetState { text: a, stops: one };
    let s3 = SnippetState { text: a + b, stops: one };
    let s4 = SnippetState {
        text: a + b,
        stops: with_range(one, n, None, (text_end(a + b), text_end(a + b))),
    };
    let s5 = SnippetState { text: a + b + c, stops: s4.stops };
    let p = "$"@ + decimal(m as nat);
    let q = "$"@ + decimal(n as nat);
    let p1 = a.len();
    let p2 = p1 + p.len();
    let p3 = p2 + b.len();
    let p4 = p3 + q.len();
    lemma_stands(Seq::empty(), a, p + b + q + c);
    assert(Seq::<char>::empty() + a + (p + b + q + c) =~= all);
    lemma_stands(a, p, b + q + c);
    assert(a + p + (b + q + c) =~= all);
    lemma_stands(a + p, b, q + c);
    assert(a + p + b + (q + c) =~= all);
    lemma_stands(a + p + b, q, c);
    lemma_stands(a + p + b + q, c, Seq::empty());
    assert(a + p + b + q + c + Seq::<char>::empty() =~= all);
    lemma_plain_run(all, 0, a, false, begin);
    assert(Seq::<char>::empty() + a =~= a);
    lemma_number_in(a, m, b + q + c);
    lemma_number_in(a + p + b, n, c);
    assert((b + q + c)[0] == (if b.len() > 0 {
        b[0]
    } else {
        '$'
    }));
    lemma_bare_stop_in(all, p1, m, s1);
    lemma_first_range(m, None, (text_end(a), text_end(a)));
    assert(snippet_at(all, p1, false, s1) == snippet_at(all, p2, false, s2));
    lemma_plain_run(all, p2, b, false, s2);
    lemma_bare_stop_in(all, p3, n, s3);
    assert(snippet_at(all, p3, false, s3) == snippet_at(all, p4, false, s4));
    lemma_plain_run(all, p4, c, false, s4);
    assert(p4 + c.len() == all.len());
    assert(snippet_at(all, all.len(), false, s5) == Ok::<(nat, SnippetState), SnippetError>(
        (all.len(), s5),
    ));
}

/// Tab stops come in the order of their numbers, wherever they stand in the text. Number
/// zero comes last. One number that stands at two places is one tab stop.
pub proof fn law_stops_go_by_number(
    source: &str,
    a: Seq<char>,
    m: usize,
    b: Seq<char>,
    n: usize,
    c: Seq<char>,
    r: Result<Snippet, SnippetError>,
)
    requires
        call_ensures(Snippet::parse, (source,), r),
        source@ == a + ("$"@ + decimal(m as nat)) + b + ("$"@ + decimal(n as nat)) + c,
        byte_len(source@) <= isize::MAX,
        is_plain(a),
        is_plain(b),
        is_plain(c),
        no_digit_first(b),
        no_digit_first(c),
    ensures
        r matches Ok(snippet) && {
            let first = byte_len(a) as isize;
            let second = byte_len(a + b) as isize;
            let stops = snippet.tabstops@;
            &&& snippet.text@ == a + b + c
            &&& m == n ==> stops.len() > 0 && is_stop(
                stops[0],
                seq![(first, first), (second, second)],
                None,
            )
            &&& m != n ==> stops.len() >= 2
            &&& m != n && m != 0 && (n == 0 || m < n) ==> is_stop(
                stops[0],
                seq![(first, first)],
                None,
            ) && is_stop(stops[1], seq![(second, second)], None)
            &&& m != n && n != 0 && (m == 0 || n < m) ==> is_stop(
                stops[0],
                seq![(second, second)],
                None,
            ) && is_stop(stops[1], seq![(first, first)], None)
            &&& m == 0 && n != 0 ==> stops.len() == 2
            &&& n == 0 && m != 0 ==> stops.len() == 2
            &&& n == 0 && m == 0 ==> stops.len() == 1
        },
{
    let first = text_end(a);
    let second = text_end(a + b);
    let end = text_end(a + b + c);
    let x = Stop { ranges: seq![(first, first)], choices: None };
    let y = Stop { ranges: seq![(second, second)], choices: None };
    lemma_two_in_a_row(source@, a, m, b, n, c, r);
    lemma_two_stops(m, n, (first, first), (second, second));
    if m < n {
        lemma_final_two(m, x, n, y, end);
    } else if n < m {
        lemma_final_two(n, y, m, x, end);
    } else {
        lemma_one_stop(
            m,
            Stop { ranges: seq![(first, first), (second, second)], choices: None },
            end,
        );
        assert(seq![(first, first), (second, second)].len() == 2 && seq![(end, end)].len() == 1);
    }
    if let Ok(snippet) = r {
        assert(stop_models(snippet.tabstops@).len() == snippet.tabstops@.len());
        lemma_models(snippet.tabstops@, 0);
        if m != n {
            lemma_models(snippet.tabstops@, 1);
        }
    }
}

proof fn lemma_failed_stop(
    all: Seq<char>,
    before: Seq<char>,
    rest: Seq<char>,
    error: SnippetError,
    r: Result<Snippet, SnippetError>,
)
    requires
        is_parsed(all, r),
        all == before + rest,
        is_plain(before),
        rest.len() > 0,
        rest[0] == '$',
        tabstop_at(
            all,
            before.len() + 1,
            SnippetState { text: before, stops: Seq::<(usize, Stop)>::empty() },
        ) == Err::<(nat, SnippetState), SnippetError>(error),
    ensures
        r is Err && r->Err_0 == error,
{
    let begin = SnippetState { text: Seq::<char>::empty(), stops: Seq::<(usize, Stop)>::empty() };
    let read = SnippetState { text: before, stops: Seq::<(usize, Stop)>::empty() };
    lemma_stands(Seq::empty(), before, rest);
    assert(Seq::<char>::empty() + before + rest =~= all);
    lemma_plain_run(all, 0, before, false, begin);
    assert(Seq::<char>::empty() + before =~= before);
    assert(all[before.len() as int] == rest[0]);
    assert(snippet_at(all, before.len(), false, read) == Err::<(nat, SnippetState), SnippetError>(
        error,
    ));
}

/// A dollar sign must be followed by a number or a brace, and a brace by a number.
pub proof fn law_dollar_needs_a_number(
    source: &str,
    before: Seq<char>,
    rest: Seq<char>,
    r: Result<Snippet, SnippetError>,
)
    requires
        call_ensures(Snippet::parse, (source,), r),
        byte_len(source@) <= isize::MAX,
        is_plain(before),
        no_digit_first(rest),
        source@ == before + ("$"@ + rest) && (rest.len() == 0 || rest[0] != '{') || source@
            == before + ("${"@ + rest),
    ensures
        r is Err && r->Err_0 == SnippetError::ExpectedInteger,
{
    reveal_strlit("$");
    reveal_strlit("${");
    let all = source@;
    if source@ == before + ("$"@ + rest) && (rest.len() == 0 || rest[0] != '{') {
        let tail = "$"@ + rest;
        assert(tail[0] == '$');
        assert(rest.len() > 0 ==> all[(before.len() + 1) as int] == rest[0]);
        lemma_digits_end_is(all, before.len() + 1, before.len() + 1);
        lemma_failed_stop(all, before, tail, SnippetError::ExpectedInteger, r);
    } else {
        let tail = "${"@ + rest;
        assert(tail[0] == '$' && tail[1] == '{');
        assert(all[(before.len() + 1) as int] == '{');
        assert(rest.len() > 0 ==> all[(before.len() + 2) as int] == rest[0]);
        lemma_digits_end_is(all, before.len() + 2, before.len() + 2);
        lemma_failed_stop(all, before, tail, SnippetError::ExpectedInteger, r);
    }
}

/// What is opened with a brace must be closed with one, and choices must end.
pub proof fn law_braces_and_choices_must_end(
    source: &str,
    before: Seq<char>,
    n: usize,
    rest: Seq<char>,
    r: Result<Snippet, SnippetError>,
)
    requires
        call_ensures(Snippet::parse, (source,), r),
        byte_len(source@) <= isize::MAX,
        is_plain(before),
        source@ == before + ("${"@ + decimal(n as nat) + rest),
    ensures
        no_digit_first(rest) && (rest.len() == 0 || (rest[0] != '|' && rest[0] != ':' && rest[0]
            != '}')) ==> r is Err && r->Err_0 == SnippetError::ExpectedClosingBrace,
        rest.len() > 1 && rest[0] == '|' && is_choice(rest.drop_first()) ==> r is Err && r->Err_0
            == SnippetError::MissingPipe,
{
    reveal_strlit("${");
    let all = source@;
    let number = decimal(n as nat);
    let tail = "${"@ + number + rest;
    let at = before.len();
    let stop = at + 2 + number.len();
    assert(tail[0] == '$' && tail[1] == '{');
    assert(all[(at + 1) as int] == '{');
    assert(all.subrange((at + 2) as int, stop as int) =~= number) by {
        assert forall|k: int| 0 <= k < number.len() implies all[at + 2 + k] == number[k] by {
            assert(tail[2 + k] == number[k]);
        }
    }
    assert(rest.len() > 0 ==> all[stop as int] == rest[0]);
    if no_digit_first(rest) && (rest.len() == 0 || (rest[0] != '|' && rest[0] != ':' && rest[0]
        != '}')) {
        lemma_number(all, at + 2, n);
        lemma_failed_stop(all, before, tail, SnippetError::ExpectedClosingBrace, r);
    }
    if rest.len() > 1 && rest[0] == '|' && is_choice(rest.drop_first()) {
        lemma_number(all, at + 2, n);
        let text = rest.drop_first();
        assert forall|k: int| stop + 1 <= k < all.len() implies (#[trigger] all[k]) != ',' && all[k]
            != '|' && all[k] != '\\' by {
            assert(all[k] == text[k - stop - 1]);
        }
        lemma_goes_not_on(all, stop + 1);
        assert(all[(stop + 1) as int] == text[0]);
        lemma_failed_stop(all, before, tail, SnippetError::MissingPipe, r);
    }
}

proof fn lemma_goes_not_on(source: Seq<char>, pos: nat)
    requires
        forall|k: int|
            pos <= k < source.len() ==> (#[trigger] source[k]) != ',' && source[k] != '|'
                && source[k] != '\\',
    ensures
        !choice_goes_on(source, pos),
    decreases source.len() - pos,
{
    if pos < source.len() {
        lemma_goes_not_on(source, pos + 1);
    }
}

} // verus!
