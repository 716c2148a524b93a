//! Snippets: texts with places to be filled in.

use vstd::prelude::*;
use smallvec::SmallVec;
use std::ops::Range;
use crate::text::{byte_len, chars_of, lemma_byte_len_concat, lemma_byte_len_push, text_len, texts};

verus! {

/// The places of a tab stop, held in a `smallvec::SmallVec` that keeps two of
/// them without asking for memory.
#[derive(Debug)]
#[verifier::external_body]
pub struct TabStopRanges {
    ranges: SmallVec<[Range<isize>; 2]>,
}

/// The places that are held, each with its start and its end.
pub uninterp spec fn range_list(ranges: TabStopRanges) -> Seq<(isize, isize)>;

impl TabStopRanges {
    /// `SmallVec::new` makes an empty list.
    #[verifier::external_body]
    pub(crate) fn new() -> (r: TabStopRanges)
        ensures
            range_list(r) == Seq::<(isize, isize)>::empty(),
    {
        TabStopRanges { ranges: SmallVec::new() }
    }

    /// `SmallVec::push` appends an item.
    #[verifier::external_body]
    pub(crate) fn push(&mut self, start: isize, end: isize)
        ensures
            range_list(*final(self)) == range_list(*old(self)).push((start, end)),
    {
        self.ranges.push(start..end)
    }

    /// `SmallVec::len` counts the items.
    #[verifier::external_body]
    pub(crate) fn count(&self) -> (r: usize)
        ensures
            r == range_list(*self).len(),
    {
        self.ranges.len()
    }

    /// Indexing a `SmallVec` gives the item that stands at a place. It panics
    /// where there is none.
    #[verifier::external_body]
    pub(crate) fn at(&self, i: usize) -> (r: (isize, isize))
        requires
            i < range_list(*self).len(),
        ensures
            r == range_list(*self)[i as int],
    {
        (self.ranges[i].start, self.ranges[i].end)
    }
}

/// A place of a snippet to be filled in, that may stand at several places of the
/// text.
#[derive(Debug)]
pub struct TabStop {
    pub ranges: TabStopRanges,
    pub choices: Option<Vec<String>>,
}

/// A text with places to be filled in, in the order in which they are.
#[derive(Debug)]
pub struct Snippet {
    pub text: String,
    pub tabstops: Vec<TabStop>,
}

/// Why a text is no snippet.
#[derive(Copy, Clone, Debug, PartialEq, Eq, Structural)]
pub enum SnippetError {
    ExpectedInteger,
    IntegerTooLarge,
    ExpectedClosingBrace,
    /// The choices of a place do not end.
    MissingPipe,
}

/// A place to be filled in: its ranges, counted in bytes, and its choices.
pub struct Stop {
    pub ranges: Seq<(isize, isize)>,
    pub choices: Option<Seq<Seq<char>>>,
}

/// Choices, if there are any.
pub open spec fn choice_model(choices: Option<Vec<String>>) -> Option<Seq<Seq<char>>> {
    match choices {
        Some(choices) => Some(texts(choices@)),
        None => None,
    }
}

impl View for TabStop {
    type V = Stop;

    open spec fn view(&self) -> Stop {
        Stop { ranges: range_list(self.ranges), choices: choice_model(self.choices) }
    }
}

impl TabStop {
    /// The ranges of the place, each with its start and its end.
    pub fn places(&self) -> (r: Vec<(isize, isize)>)
        ensures
            r@ == self@.ranges,
    {
        let mut places: Vec<(isize, isize)> = Vec::new();
        let count: usize = self.ranges.count();
        let mut i: usize = 0;
        while i < count
            invariant
                i <= count,
                count == range_list(self.ranges).len(),
                places@ == range_list(self.ranges).take(i as int),
            decreases count - i,
        {
            places.push(self.ranges.at(i));
            i = i + 1;
            assert(places@ =~= range_list(self.ranges).take(i as int));
        }
        assert(places@ =~= range_list(self.ranges));
        places
    }
}

/// The text so far, and the places so far by their number.
#[verifier::ext_equal]
pub struct SnippetState {
    pub text: Seq<char>,
    pub stops: Seq<(usize, Stop)>,
}

/// Where a number stands among those of some places, or where it would stand.
pub open spec fn stop_slot(stops: Seq<(usize, Stop)>, number: usize) -> int
    decreases stops.len(),
{
    if stops.len() == 0 || number <= stops.first().0 {
        0
    } else {
        1 + stop_slot(stops.drop_first(), number)
    }
}

/// Adds a range to the place with a number. The choices are those of the first
/// range.
pub open spec fn with_range(
    stops: Seq<(usize, Stop)>,
    number: usize,
    choices: Option<Seq<Seq<char>>>,
    range: (isize, isize),
) -> Seq<(usize, Stop)> {
    let i: int = stop_slot(stops, number);
    if i < stops.len() && stops[i].0 == number {
        stops.update(
            i,
            (number, Stop { ranges: stops[i].1.ranges.push(range), choices: stops[i].1.choices }),
        )
    } else {
        stops.insert(i, (number, Stop { ranges: seq![range], choices }))
    }
}

/// Whether a character is a decimal digit.
pub open spec fn is_digit(c: char) -> bool {
    '0' <= c <= '9'
}

/// Where the digits that start at a place end.
pub open spec fn digits_end(source: Seq<char>, pos: nat) -> nat
    decreases source.len() - pos,
{
    if pos < source.len() && is_digit(source[pos as int]) {
        digits_end(source, pos + 1)
    } else {
        pos
    }
}

/// The number that some digits stand for.
pub open spec fn digits_value(digits: Seq<char>) -> nat
    decreases digits.len(),
{
    if digits.len() == 0 {
        0
    } else {
        digits_value(digits.drop_last()) * 10 + (digits.last() as nat - '0' as nat) as nat
    }
}

/// The number that stands at a place, and where it ends.
pub open spec fn int_at(source: Seq<char>, pos: nat) -> Result<(usize, nat), SnippetError> {
    let end = digits_end(source, pos);
    if end == pos {
        Err(SnippetError::ExpectedInteger)
    } else {
        let value = digits_value(source.subrange(pos as int, end as int));
        if value > usize::MAX {
            Err(SnippetError::IntegerTooLarge)
        } else {
            Ok((value as usize, end))
        }
    }
}

/// Whether one of the characters that matter among choices comes at a place or
/// after it.
pub open spec fn choice_goes_on(source: Seq<char>, pos: nat) -> bool
    decreases source.len() - pos,
{
    if pos >= source.len() {
        false
    } else {
        source[pos as int] == ',' || source[pos as int] == '|' || source[pos as int] == '\\'
            || choice_goes_on(source, pos + 1)
    }
}

/// Choices read so far: the text of the snippet, those that are complete, the one
/// that is not, and whether the first is complete.
pub struct ChoiceState {
    pub text: Seq<char>,
    pub choices: Seq<Seq<char>>,
    pub current: Seq<char>,
    pub found_default: bool,
}

/// The choices that stand at a place, up to their end. The first of them stands in
/// the text.
pub open spec fn choices_at(source: Seq<char>, pos: nat, state: ChoiceState) -> Result<
    (nat, Seq<char>, Seq<Seq<char>>),
    SnippetError,
>
    decreases source.len() - pos,
{
    if pos >= source.len() {
        Ok((source.len(), state.text, state.choices))
    } else {
        let c = source[pos as int];
        if c == '\\' {
            if pos + 1 < source.len() {
                let escaped = source[(pos + 1) as int];
                choices_at(
                    source,
                    pos + 2,
                    if state.found_default {
                        state
                    } else {
                        ChoiceState {
                            text: state.text.push(escaped),
                            current: state.current.push(escaped),
                            ..state
                        }
                    },
                )
            } else {
                choices_at(source, pos + 1, state)
            }
        } else if c == ',' {
            choices_at(
                source,
                pos + 1,
                ChoiceState {
                    found_default: true,
                    choices: state.choices.push(state.current),
                    current: Seq::empty(),
                    ..state
                },
            )
        } else if c == '|' {
            Ok((pos + 1, state.text, state.choices.push(state.current)))
        } else if !choice_goes_on(source, pos) {
            Err(SnippetError::MissingPipe)
        } else {
            choices_at(
                source,
                pos + 1,
                ChoiceState {
                    text: if state.found_default {
                        state.text
                    } else {
                        state.text.push(c)
                    },
                    current: state.current.push(c),
                    ..state
                },
            )
        }
    }
}

/// The choices behind a number, if there are any: where they end, the text, and
/// the choices.
pub open spec fn optional_choices(source: Seq<char>, pos: nat, text: Seq<char>) -> Result<
    (nat, Seq<char>, Option<Seq<Seq<char>>>),
    SnippetError,
> {
    if pos < source.len() && source[pos as int] == '|' {
        match choices_at(
            source,
            pos + 1,
            ChoiceState {
                text,
                choices: Seq::empty(),
                current: Seq::empty(),
                found_default: false,
            },
        ) {
            Ok((end, text, choices)) => Ok((end, text, Some(choices))),
            Err(error) => Err(error),
        }
    } else {
        Ok((pos, text, None))
    }
}

/// The end of a text in bytes.
pub open spec fn text_end(text: Seq<char>) -> isize {
    byte_len(text) as isize
}

/// A place to be filled in, behind its dollar sign: where it ends, and the state
/// after it.
pub open spec fn tabstop_at(source: Seq<char>, pos: nat, state: SnippetState) -> Result<
    (nat, SnippetState),
    SnippetError,
>
    decreases source.len() - pos, 0nat,
{
    let start = text_end(state.text);
    if pos < source.len() && source[pos as int] == '{' {
        match int_at(source, pos + 1) {
            Err(error) => Err(error),
            Ok((number, after_number)) => match optional_choices(
                source,
                after_number,
                state.text,
            ) {
                Err(error) => Err(error),
                Ok((after_choices, text, choices)) => {
                    let chosen = SnippetState { text, stops: state.stops };
                    let filled: Result<(nat, SnippetState), SnippetError> = if pos < after_choices
                        < source.len() && source[after_choices as int] == ':' {
                        snippet_at(source, after_choices + 1, true, chosen)
                    } else {
                        Ok((after_choices, chosen))
                    };
                    match filled {
                        Err(error) => Err(error),
                        Ok((end, filled)) => if end < source.len() && source[end as int] == '}' {
                            Ok(
                                (
                                    end + 1,
                                    SnippetState {
                                        text: filled.text,
                                        stops: with_range(
                                            filled.stops,
                                            number,
                                            choices,
                                            (start, text_end(filled.text)),
                                        ),
                                    },
                                ),
                            )
                        } else {
                            Err(SnippetError::ExpectedClosingBrace)
                        },
                    }
                },
            },
        }
    } else {
        match int_at(source, pos) {
            Err(error) => Err(error),
            Ok((number, end)) => Ok(
                (
                    end,
                    SnippetState {
                        text: state.text,
                        stops: with_range(state.stops, number, None, (start, start)),
                    },
                ),
            ),
        }
    }
}

/// The rest of a snippet, or what stands in the braces of a place: where it ends,
/// and the state after it.
pub open spec fn snippet_at(
    source: Seq<char>,
    pos: nat,
    nested: bool,
    state: SnippetState,
) -> Result<(nat, SnippetState), SnippetError>
    decreases source.len() - pos, 1nat,
{
    if pos >= source.len() {
        Ok((source.len(), state))
    } else {
        let c = source[pos as int];
        if c == '$' {
            match tabstop_at(source, pos + 1, state) {
                Err(error) => Err(error),
                Ok((end, state)) => if pos < end <= source.len() {
                    snippet_at(source, end, nested, state)
                } else {
                    Err(SnippetError::ExpectedInteger)
                },
            }
        } else if c == '\\' {
            if pos + 1 < source.len() && (source[(pos + 1) as int] == '$' || source[(pos + 1) as int] == '\\'
                || source[(pos + 1) as int] == '}') {
                snippet_at(
                    source,
                    pos + 2,
                    nested,
                    SnippetState { text: state.text.push(source[(pos + 1) as int]), ..state },
                )
            } else {
                snippet_at(
                    source,
                    pos + 1,
                    nested,
                    SnippetState { text: state.text.push('\\'), ..state },
                )
            }
        } else if c == '}' && nested {
            Ok((pos, state))
        } else {
            snippet_at(
                source,
                pos + 1,
                nested,
                SnippetState { text: state.text.push(c), ..state },
            )
        }
    }
}

/// The places of a snippet in the order in which they are filled in: by number,
/// but number zero last. Where there is none the end of the text stands for it,
/// unless it is the last place anyway.
pub open spec fn final_stops(stops: Seq<(usize, Stop)>, end: isize) -> Seq<Stop> {
    let values = Seq::new(stops.len(), |i: int| stops[i].1);
    if stops.len() > 0 && stops[0].0 == 0 {
        values.drop_first().push(values[0])
    } else if values.len() > 0 && values.last().ranges == seq![(end, end)]
        && values.last().choices is None {
        values
    } else {
        values.push(Stop { ranges: seq![(end, end)], choices: None })
    }
}

/// The places of a snippet.
pub open spec fn stop_models(tabstops: Seq<TabStop>) -> Seq<Stop> {
    Seq::new(tabstops.len(), |i: int| tabstops[i]@)
}

/// Whether a snippet is what a text stands for.
pub open spec fn is_parsed(source: Seq<char>, result: Result<Snippet, SnippetError>) -> bool {
    match snippet_at(
        source,
        0,
        false,
        SnippetState { text: Seq::empty(), stops: Seq::empty() },
    ) {
        Ok((_, state)) => match result {
            Ok(snippet) => snippet.text@ == state.text && stop_models(snippet.tabstops@)
                == final_stops(state.stops, text_end(state.text)),
            Err(_) => false,
        },
        Err(error) => result is Err && result->Err_0 == error,
    }
}

/// A place and its number.
struct NumberedStop {
    number: usize,
    stop: TabStop,
}

spec fn numbered(stops: Seq<NumberedStop>) -> Seq<(usize, Stop)> {
    Seq::new(stops.len(), |i: int| (stops[i].number, stops[i].stop@))
}

fn find_stop(stops: &Vec<NumberedStop>, number: usize) -> (r: usize)
    ensures
        r == stop_slot(numbered(stops@), number),
        r <= stops@.len(),
{
    let mut i: usize = 0;
    let ghost all = numbered(stops@);
    assert(all.skip(0) =~= all);
    while i < stops.len() && stops[i].number < number
        invariant
            i <= all.len(),
            all == numbered(stops@),
            i + stop_slot(all.skip(i as int), number) == stop_slot(all, number),
        decreases stops.len() - i,
    {
        proof {
            let here = all.skip(i as int);
            assert(here.drop_first() =~= all.skip(i + 1));
            assert(here.first() == all[i as int]);
        }
        i = i + 1;
    }
    assert(i < all.len() ==> all.skip(i as int).first() == all[i as int]);
    i
}

fn add_range(
    stops: &mut Vec<NumberedStop>,
    number: usize,
    choices: Option<Vec<String>>,
    start: isize,
    end: isize,
)
    ensures
        numbered(final(stops)@) == with_range(
            numbered(old(stops)@),
            number,
            choice_model(choices),
            (start, end),
        ),
{
    let i: usize = find_stop(stops, number);
    let ghost before = stops@;
    if i < stops.len() && stops[i].number == number {
        let mut stop = stops.remove(i);
        stop.stop.ranges.push(start, end);
        stops.insert(i, stop);
        assert(numbered(stops@) =~= with_range(
            numbered(before),
            number,
            choice_model(choices),
            (start, end),
        ));
    } else {
        let mut ranges = TabStopRanges::new();
        ranges.push(start, end);
        assert(range_list(ranges) =~= seq![(start, end)]);
        stops.insert(i, NumberedStop { number, stop: TabStop { ranges, choices } });
        assert(numbered(stops@) =~= with_range(
            numbered(before),
            number,
            choice_model(choices),
            (start, end),
        ));
    }
}

proof fn lemma_digits_end(source: Seq<char>, pos: nat)
    requires
        pos <= source.len(),
    ensures
        pos <= digits_end(source, pos) <= source.len(),
        forall|k: int| pos <= k < digits_end(source, pos) ==> is_digit(#[trigger] source[k]),
    decreases source.len() - pos,
{
    if pos < source.len() && is_digit(source[pos as int]) {
        lemma_digits_end(source, pos + 1);
    }
}

proof fn lemma_digits_grow(digits: Seq<char>, n: int)
    requires
        0 <= n <= digits.len(),
    ensures
        digits_value(digits.take(n)) <= digits_value(digits),
    decreases digits.len(),
{
    if n < digits.len() {
        lemma_digits_grow(digits.drop_last(), n);
        assert(digits.drop_last().take(n) =~= digits.take(n));
    } else {
        assert(digits.take(n) =~= digits);
    }
}

fn parse_int(source: &Vec<char>, pos: usize) -> (r: Result<(usize, usize), SnippetError>)
    requires
        pos <= source@.len(),
    ensures
        match (r, int_at(source@, pos as nat)) {
            (Ok((number, end)), Ok((value, at))) => number == value && end == at && pos < end
                <= source@.len(),
            (Err(error), Err(expected)) => error == expected,
            _ => false,
        },
{
    let ghost end = digits_end(source@, pos as nat);
    let ghost digits = source@.subrange(pos as int, end as int);
    proof {
        lemma_digits_end(source@, pos as nat);
    }
    let mut i: usize = pos;
    let mut value: usize = 0;
    let mut too_large: bool = false;
    assert(digits.take(0) =~= Seq::empty());
    while i < source.len() && '0' <= source[i] && source[i] <= '9'
        invariant
            pos <= i <= end <= source@.len(),
            end == digits_end(source@, pos as nat),
            digits == source@.subrange(pos as int, end as int),
            digits_end(source@, i as nat) == end,
            forall|k: int| pos <= k < end ==> is_digit(#[trigger] source@[k]),
            too_large ==> digits_value(digits) > usize::MAX,
            !too_large ==> value == digits_value(digits.take(i - pos)),
        decreases source.len() - i,
    {
        let ghost next = digits.take(i + 1 - pos);
        proof {
            lemma_digits_end(source@, (i + 1) as nat);
            assert(next.drop_last() =~= digits.take(i - pos));
            assert(next.last() == source@[i as int]);
            lemma_digits_grow(digits, i + 1 - pos);
        }
        let digit: usize = (source[i] as u32 - '0' as u32) as usize;
        if !too_large {
            match value.checked_mul(10) {
                Some(tens) => match tens.checked_add(digit) {
                    Some(sum) => {
                        value = sum;
                    },
                    None => {
                        too_large = true;
                    },
                },
                None => {
                    too_large = true;
                },
            }
        }
        i = i + 1;
    }
    assert(i == end);
    assert(digits.take(i - pos) =~= digits);
    if i == pos {
        Err(SnippetError::ExpectedInteger)
    } else if too_large {
        Err(SnippetError::IntegerTooLarge)
    } else {
        Ok((value, i))
    }
}

fn goes_on(source: &Vec<char>, pos: usize) -> (r: bool)
    requires
        pos <= source@.len(),
    ensures
        r == choice_goes_on(source@, pos as nat),
{
    let mut i: usize = pos;
    while i < source.len()
        invariant
            pos <= i <= source@.len(),
            choice_goes_on(source@, i as nat) == choice_goes_on(source@, pos as nat),
        decreases source.len() - i,
    {
        if source[i] == ',' || source[i] == '|' || source[i] == '\\' {
            return true;
        }
        i = i + 1;
    }
    false
}

/// What was read holds no more bytes than what it was read from.
spec fn fits(source: Seq<char>, pos: nat, text: Seq<char>) -> bool {
    pos <= source.len() && byte_len(text) <= byte_len(source.take(pos as int))
}

proof fn lemma_fits_next(source: Seq<char>, pos: nat, text: Seq<char>)
    requires
        fits(source, pos, text),
        pos < source.len(),
    ensures
        fits(source, pos + 1, text),
        fits(source, pos + 1, text.push(source[pos as int])),
{
    let next = source.take((pos + 1) as int);
    assert(next =~= source.take(pos as int).push(source[pos as int]));
    lemma_byte_len_push(source.take(pos as int), source[pos as int]);
    lemma_byte_len_push(text, source[pos as int]);
}

proof fn lemma_fits_later(source: Seq<char>, pos: nat, later: nat, text: Seq<char>)
    requires
        fits(source, pos, text),
        pos <= later <= source.len(),
    ensures
        fits(source, later, text),
    decreases later - pos,
{
    if pos < later {
        lemma_fits_next(source, pos, text);
        lemma_fits_later(source, pos + 1, later, text);
    }
}

proof fn lemma_fits_bound(source: Seq<char>, pos: nat, text: Seq<char>)
    requires
        fits(source, pos, text),
    ensures
        byte_len(text) <= byte_len(source),
{
    lemma_byte_len_concat(source.take(pos as int), source.skip(pos as int));
    assert(source.take(pos as int) + source.skip(pos as int) =~= source);
}

fn parse_choices(source: &Vec<char>, pos: usize, text: &mut String) -> (r: Result<
    (usize, Vec<String>),
    SnippetError,
>)
    requires
        fits(source@, pos as nat, old(text)@),
    ensures
        match (
            r,
            choices_at(
                source@,
                pos as nat,
                ChoiceState {
                    text: old(text)@,
                    choices: Seq::empty(),
                    current: Seq::empty(),
                    found_default: false,
                },
            ),
        ) {
            (Ok((end, choices)), Ok((at, new_text, expected))) => end == at && final(text)@
                == new_text && texts(choices@) == expected && pos <= end && fits(
                source@,
                end as nat,
                final(text)@,
            ),
            (Err(error), Err(expected)) => error == expected,
            _ => false,
        },
{
    let mut found_default: bool = false;
    let mut current = String::new();
    let mut choices: Vec<String> = Vec::new();
    let mut i: usize = pos;
    let ghost goal = choices_at(
        source@,
        pos as nat,
        ChoiceState {
            text: text@,
            choices: Seq::empty(),
            current: Seq::empty(),
            found_default: false,
        },
    );
    assert(texts(choices@) =~= Seq::empty());
    assert(current@ =~= Seq::empty());
    while i < source.len()
        invariant
            pos <= i <= source@.len(),
            fits(source@, i as nat, text@),
            goal == choices_at(
                source@,
                pos as nat,
                ChoiceState {
                    text: old(text)@,
                    choices: Seq::empty(),
                    current: Seq::empty(),
                    found_default: false,
                },
            ),
            choices_at(
                source@,
                i as nat,
                ChoiceState {
                    text: text@,
                    choices: texts(choices@),
                    current: current@,
                    found_default,
                },
            ) == goal,
        decreases source.len() - i,
    {
        let c: char = source[i];
        proof {
            lemma_fits_next(source@, i as nat, text@);
        }
        if c == '\\' {
            if i + 1 < source.len() {
                let escaped: char = source[i + 1];
                proof {
                    lemma_fits_next(source@, (i + 1) as nat, text@);
                }
                if !found_default {
                    current.push(escaped);
                    text.push(escaped);
                }
                i = i + 2;
            } else {
                i = i + 1;
            }
        } else if c == ',' {
            found_default = true;
            let ghost before = choices@;
            let ghost last = current@;
            choices.push(current);
            assert(texts(choices@) =~= texts(before).push(last));
            current = String::new();
            assert(current@ =~= Seq::empty());
            i = i + 1;
        } else if c == '|' {
            let ghost before = choices@;
            let ghost last = current@;
            choices.push(current);
            assert(texts(choices@) =~= texts(before).push(last));
            return Ok((i + 1, choices));
        } else {
            if !goes_on(source, i) {
                return Err(SnippetError::MissingPipe);
            }
            if !found_default {
                text.push(c);
            }
            current.push(c);
            i = i + 1;
        }
    }
    Ok((i, choices))
}

fn end_of(text: &String) -> (r: isize)
    requires
        byte_len(text@) <= isize::MAX,
    ensures
        r == text_end(text@),
{
    text_len(text.as_str()) as isize
}

fn parse_tabstop(
    source: &Vec<char>,
    pos: usize,
    text: &mut String,
    stops: &mut Vec<NumberedStop>,
) -> (r: Result<usize, SnippetError>)
    requires
        fits(source@, pos as nat, old(text)@),
        byte_len(source@) <= isize::MAX,
    ensures
        match (
            r,
            tabstop_at(
                source@,
                pos as nat,
                SnippetState { text: old(text)@, stops: numbered(old(stops)@) },
            ),
        ) {
            (Ok(end), Ok((at, state))) => end == at && final(text)@ == state.text && numbered(
                final(stops)@,
            ) == state.stops && pos < end && fits(source@, end as nat, final(text)@),
            (Err(error), Err(expected)) => error == expected,
            _ => false,
        },
    decreases source@.len() - pos, 0nat,
{
    proof {
        lemma_fits_bound(source@, pos as nat, text@);
    }
    let start: isize = end_of(text);
    if pos < source.len() && source[pos] == '{' {
        proof {
            lemma_fits_next(source@, pos as nat, text@);
        }
        let (number, after_number) = match parse_int(source, pos + 1) {
            Ok(parsed) => parsed,
            Err(error) => {
                return Err(error);
            },
        };
        proof {
            lemma_fits_later(source@, (pos + 1) as nat, after_number as nat, text@);
        }
        let mut at: usize = after_number;
        let mut choices: Option<Vec<String>> = None;
        if at < source.len() && source[at] == '|' {
            proof {
                lemma_fits_next(source@, at as nat, text@);
            }
            match parse_choices(source, at + 1, text) {
                Ok((end, found)) => {
                    at = end;
                    choices = Some(found);
                },
                Err(error) => {
                    return Err(error);
                },
            }
        }
        if at < source.len() && source[at] == ':' {
            proof {
                lemma_fits_next(source@, at as nat, text@);
            }
            match parse_snippet(source, at + 1, true, text, stops) {
                Ok(end) => {
                    at = end;
                },
                Err(error) => {
                    return Err(error);
                },
            }
        }
        if at < source.len() && source[at] == '}' {
            proof {
                lemma_fits_bound(source@, at as nat, text@);
                lemma_fits_next(source@, at as nat, text@);
            }
            let end: isize = end_of(text);
            add_range(stops, number, choices, start, end);
            Ok(at + 1)
        } else {
            Err(SnippetError::ExpectedClosingBrace)
        }
    } else {
        match parse_int(source, pos) {
            Ok((number, end)) => {
                proof {
                    lemma_fits_later(source@, pos as nat, end as nat, text@);
                }
                add_range(stops, number, None, start, start);
                Ok(end)
            },
            Err(error) => Err(error),
        }
    }
}

fn parse_snippet(
    source: &Vec<char>,
    pos: usize,
    nested: bool,
    text: &mut String,
    stops: &mut Vec<NumberedStop>,
) -> (r: Result<usize, SnippetError>)
    requires
        fits(source@, pos as nat, old(text)@),
        byte_len(source@) <= isize::MAX,
    ensures
        match (
            r,
            snippet_at(
                source@,
                pos as nat,
                nested,
                SnippetState { text: old(text)@, stops: numbered(old(stops)@) },
            ),
        ) {
            (Ok(end), Ok((at, state))) => end == at && final(text)@ == state.text && numbered(
                final(stops)@,
            ) == state.stops && pos <= end && fits(source@, end as nat, final(text)@),
            (Err(error), Err(expected)) => error == expected,
            _ => false,
        },
    decreases source@.len() - pos, 1nat,
{
    let mut i: usize = pos;
    let ghost goal = snippet_at(
        source@,
        pos as nat,
        nested,
        SnippetState { text: text@, stops: numbered(stops@) },
    );
    while i < source.len()
        invariant
            pos <= i <= source@.len(),
            fits(source@, i as nat, text@),
            byte_len(source@) <= isize::MAX,
            goal == snippet_at(
                source@,
                pos as nat,
                nested,
                SnippetState { text: old(text)@, stops: numbered(old(stops)@) },
            ),
            snippet_at(
                source@,
                i as nat,
                nested,
                SnippetState { text: text@, stops: numbered(stops@) },
            ) == goal,
        decreases source.len() - i,
    {
        let c: char = source[i];
        proof {
            lemma_fits_next(source@, i as nat, text@);
        }
        if c == '$' {
            match parse_tabstop(source, i + 1, text, stops) {
                Ok(end) => {
                    i = end;
                },
                Err(error) => {
                    return Err(error);
                },
            }
        } else if c == '\\' {
            if i + 1 < source.len() && (source[i + 1] == '$' || source[i + 1] == '\\' || source[i
                + 1] == '}') {
                proof {
                    lemma_fits_next(source@, (i + 1) as nat, text@);
                }
                text.push(source[i + 1]);
                i = i + 2;
            } else {
                text.push('\\');
                i = i + 1;
            }
        } else if c == '}' && nested {
            return Ok(i);
        } else {
            text.push(c);
            i = i + 1;
        }
    }
    Ok(i)
}

impl Snippet {
    /// Reads a snippet.
    pub fn parse(source: &str) -> (r: Result<Snippet, SnippetError>)
        requires
            byte_len(source@) <= isize::MAX,
        ensures
            is_parsed(source@, r),
    {
        let chars = chars_of(source);
        let mut text = String::new();
        let mut stops: Vec<NumberedStop> = Vec::new();
        assert(numbered(stops@) =~= Seq::empty());
        assert(text@ =~= Seq::empty());
        assert(fits(chars@, 0, text@)) by {
            assert(chars@.take(0) =~= Seq::<char>::empty());
        }
        match parse_snippet(&chars, 0, false, &mut text, &mut stops) {
            Ok(end) => {
                proof {
                    lemma_fits_bound(chars@, end as nat, text@);
                }
            },
            Err(error) => {
                return Err(error);
            },
        }
        let len: isize = end_of(&text);
        let ghost all = numbered(stops@);
        let mut last: Option<TabStop> = None;
        if stops.len() > 0 && stops[0].number == 0 {
            let NumberedStop { number: _, stop } = stops.remove(0);
            last = Some(stop);
        }
        let ghost rest = stops@;
        let mut tabstops: Vec<TabStop> = Vec::new();
        while stops.len() > 0
            invariant
                stops@.len() + tabstops@.len() == rest.len(),
                forall|k: int| 0 <= k < stops@.len() ==> #[trigger] stops@[k] == rest[tabstops@.len()
                    + k],
                forall|k: int|
                    0 <= k < tabstops@.len() ==> #[trigger] tabstops@[k] == rest[k].stop,
            decreases stops.len(),
        {
            let ghost before = stops@;
            let NumberedStop { number: _, stop } = stops.remove(0);
            tabstops.push(stop);
            assert forall|k: int| 0 <= k < stops@.len() implies #[trigger] stops@[k]
                == rest[tabstops@.len() + k] by {
                assert(stops@[k] == before[k + 1]);
            }
        }
        match last {
            Some(stop) => {
                tabstops.push(stop);
                assert(stop_models(tabstops@) =~= final_stops(all, len));
            },
            None => {
                let n: usize = tabstops.len();
                let mut at_end: bool = false;
                if n > 0 && tabstops[n - 1].choices.is_none() && tabstops[n - 1].ranges.count()
                    == 1 {
                    let (start, end) = tabstops[n - 1].ranges.at(0);
                    at_end = start == len && end == len;
                }
                proof {
                    let values = Seq::new(all.len(), |i: int| all[i].1);
                    assert(stop_models(tabstops@) =~= values);
                    if at_end {
                        assert(values.last().ranges =~= seq![(len, len)]);
                    } else if n > 0 && values.last().choices is None {
                        assert(values.last().ranges != seq![(len, len)]);
                    }
                }
                if !at_end {
                    let mut ranges = TabStopRanges::new();
                    ranges.push(len, len);
                    assert(range_list(ranges) =~= seq![(len, len)]);
                    tabstops.push(TabStop { ranges, choices: None });
                }
                assert(stop_models(tabstops@) =~= final_stops(all, len));
            },
        }
        Ok(Snippet { text, tabstops })
    }
}

/// Whether the ranges of some places lie in a text.
pub open spec fn ranges_lie_in(stops: Seq<(usize, Stop)>, text: Seq<char>) -> bool {
    forall|i: int, j: int|
        0 <= i < stops.len() && 0 <= j < stops[i].1.ranges.len() ==> {
            let range = #[trigger] stops[i].1.ranges[j];
            0 <= range.0 <= range.1 <= byte_len(text)
        }
}

/// Whether the numbers of some places go up.
pub open spec fn numbers_go_up(stops: Seq<(usize, Stop)>) -> bool {
    forall|i: int, j: int| 0 <= i < j < stops.len() ==> (#[trigger] stops[i]).0 < (#[trigger] stops[j]).0
}

proof fn lemma_stop_slot(stops: Seq<(usize, Stop)>, number: usize)
    ensures
        0 <= stop_slot(stops, number) <= stops.len(),
        forall|k: int| 0 <= k < stop_slot(stops, number) ==> (#[trigger] stops[k]).0 < number,
        stop_slot(stops, number) < stops.len() ==> number <= stops[stop_slot(stops, number)].0,
    decreases stops.len(),
{
    if stops.len() > 0 && stops.first().0 < number {
        let rest = stops.drop_first();
        lemma_stop_slot(rest, number);
        assert forall|k: int| 0 <= k < stop_slot(stops, number) implies (#[trigger] stops[k]).0
            < number by {
            if k > 0 {
                assert(rest[k - 1] == stops[k]);
            }
        }
        if stop_slot(rest, number) < rest.len() {
            assert(rest[stop_slot(rest, number)] == stops[stop_slot(rest, number) + 1]);
        }
    }
}

proof fn lemma_with_range(
    stops: Seq<(usize, Stop)>,
    number: usize,
    choices: Option<Seq<Seq<char>>>,
    range: (isize, isize),
    text: Seq<char>,
)
    requires
        ranges_lie_in(stops, text),
        numbers_go_up(stops),
        0 <= range.0 <= range.1 <= byte_len(text),
    ensures
        ranges_lie_in(with_range(stops, number, choices, range), text),
        numbers_go_up(with_range(stops, number, choices, range)),
{
    lemma_stop_slot(stops, number);
    let at: int = stop_slot(stops, number);
    let after = with_range(stops, number, choices, range);
    assert forall|i: int, j: int|
        0 <= i < after.len() && 0 <= j < after[i].1.ranges.len() implies {
        let range = #[trigger] after[i].1.ranges[j];
        0 <= range.0 <= range.1 <= byte_len(text)
    } by {
        if at < stops.len() && stops[at].0 == number {
            if i != at {
                assert(after[i] == stops[i]);
                assert(stops[i].1.ranges[j] == after[i].1.ranges[j]);
            } else if j < stops[at].1.ranges.len() {
                assert(stops[at].1.ranges[j] == after[i].1.ranges[j]);
            }
        } else if i < at {
            assert(after[i] == stops[i]);
            assert(stops[i].1.ranges[j] == after[i].1.ranges[j]);
        } else if i > at {
            assert(after[i] == stops[i - 1]);
            assert(stops[i - 1].1.ranges[j] == after[i].1.ranges[j]);
        }
    }
}

proof fn lemma_ranges_longer(stops: Seq<(usize, Stop)>, text: Seq<char>, longer: Seq<char>)
    requires
        ranges_lie_in(stops, text),
        byte_len(text) <= byte_len(longer),
    ensures
        ranges_lie_in(stops, longer),
{
}

proof fn lemma_choices_grow(source: Seq<char>, pos: nat, state: ChoiceState)
    requires
        fits(source, pos, state.text),
    ensures
        choices_at(source, pos, state) matches Ok((end, text, _)) ==> pos <= end && fits(
            source,
            end,
            text,
        ) && byte_len(state.text) <= byte_len(text),
    decreases source.len() - pos,
{
    if pos < source.len() {
        let c = source[pos as int];
        lemma_fits_next(source, pos, state.text);
        lemma_byte_len_push(state.text, c);
        if c == '\\' {
            if pos + 1 < source.len() {
                let escaped = source[(pos + 1) as int];
                lemma_fits_next(source, pos + 1, state.text);
                lemma_byte_len_push(state.text, escaped);
                lemma_choices_grow(
                    source,
                    pos + 2,
                    if state.found_default {
                        state
                    } else {
                        ChoiceState {
                            text: state.text.push(escaped),
                            current: state.current.push(escaped),
                            ..state
                        }
                    },
                );
            } else {
                lemma_choices_grow(source, pos + 1, state);
            }
        } else if c == ',' {
            lemma_choices_grow(
                source,
                pos + 1,
                ChoiceState {
                    found_default: true,
                    choices: state.choices.push(state.current),
                    current: Seq::empty(),
                    ..state
                },
            );
        } else if c != '|' && choice_goes_on(source, pos) {
            lemma_choices_grow(
                source,
                pos + 1,
                ChoiceState {
                    text: if state.found_default {
                        state.text
                    } else {
                        state.text.push(c)
                    },
                    current: state.current.push(c),
                    ..state
                },
            );
        }
    }
}

spec fn state_is_sound(source: Seq<char>, pos: nat, state: SnippetState) -> bool {
    fits(source, pos, state.text) && ranges_lie_in(state.stops, state.text) && numbers_go_up(
        state.stops,
    )
}

proof fn lemma_tabstop_sound(source: Seq<char>, pos: nat, state: SnippetState)
    requires
        state_is_sound(source, pos, state),
        byte_len(source) <= isize::MAX,
    ensures
        tabstop_at(source, pos, state) matches Ok((end, after)) ==> pos < end && state_is_sound(
            source,
            end,
            after,
        ) && byte_len(state.text) <= byte_len(after.text),
    decreases source.len() - pos, 0nat,
{
    lemma_fits_bound(source, pos, state.text);
    let start = text_end(state.text);
    if pos < source.len() && source[pos as int] == '{' {
        lemma_fits_next(source, pos, state.text);
        lemma_digits_end(source, pos + 1);
        if let Ok((number, after_number)) = int_at(source, pos + 1) {
            lemma_fits_later(source, pos + 1, after_number, state.text);
            if after_number < source.len() && source[after_number as int] == '|' {
                lemma_fits_next(source, after_number, state.text);
                lemma_choices_grow(
                    source,
                    after_number + 1,
                    ChoiceState {
                        text: state.text,
                        choices: Seq::empty(),
                        current: Seq::empty(),
                        found_default: false,
                    },
                );
            }
            if let Ok((after_choices, text, choices)) = optional_choices(
                source,
                after_number,
                state.text,
            ) {
                let chosen = SnippetState { text, stops: state.stops };
                lemma_ranges_longer(state.stops, state.text, text);
                if after_choices < source.len() && source[after_choices as int] == ':' {
                    lemma_fits_next(source, after_choices, text);
                    lemma_snippet_sound(source, after_choices + 1, true, chosen);
                }
                let filled: Result<(nat, SnippetState), SnippetError> = if pos < after_choices
                    < source.len() && source[after_choices as int] == ':' {
                    snippet_at(source, after_choices + 1, true, chosen)
                } else {
                    Ok((after_choices, chosen))
                };
                if let Ok((end, filled)) = filled {
                    if end < source.len() && source[end as int] == '}' {
                        lemma_fits_bound(source, end, filled.text);
                        lemma_fits_next(source, end, filled.text);
                        lemma_with_range(
                            filled.stops,
                            number,
                            choices,
                            (start, text_end(filled.text)),
                            filled.text,
                        );
                    }
                }
            }
        }
    } else {
        lemma_digits_end(source, pos);
        if let Ok((number, end)) = int_at(source, pos) {
            lemma_fits_later(source, pos, end, state.text);
            lemma_with_range(state.stops, number, None, (start, start), state.text);
        }
    }
}

proof fn lemma_snippet_sound(source: Seq<char>, pos: nat, nested: bool, state: SnippetState)
    requires
        state_is_sound(source, pos, state),
        byte_len(source) <= isize::MAX,
    ensures
        snippet_at(source, pos, nested, state) matches Ok((end, after)) ==> pos <= end
            && state_is_sound(source, end, after) && byte_len(state.text) <= byte_len(after.text),
    decreases source.len() - pos, 1nat,
{
    if pos < source.len() {
        let c = source[pos as int];
        lemma_fits_next(source, pos, state.text);
        if c == '$' {
            lemma_tabstop_sound(source, pos + 1, state);
            if let Ok((end, after)) = tabstop_at(source, pos + 1, state) {
                lemma_snippet_sound(source, end, nested, after);
            }
        } else if c == '\\' {
            if pos + 1 < source.len() && (source[(pos + 1) as int] == '$' || source[(pos + 1) as int]
                == '\\' || source[(pos + 1) as int] == '}') {
                let escaped = source[(pos + 1) as int];
                lemma_fits_next(source, pos + 1, state.text);
                lemma_byte_len_push(state.text, escaped);
                lemma_ranges_longer(state.stops, state.text, state.text.push(escaped));
                lemma_snippet_sound(
                    source,
                    pos + 2,
                    nested,
                    SnippetState { text: state.text.push(escaped), ..state },
                );
            } else {
                lemma_byte_len_push(state.text, '\\');
                lemma_ranges_longer(state.stops, state.text, state.text.push('\\'));
                lemma_snippet_sound(
                    source,
                    pos + 1,
                    nested,
                    SnippetState { text: state.text.push('\\'), ..state },
                );
            }
        } else if !(c == '}' && nested) {
            lemma_byte_len_push(state.text, c);
            lemma_ranges_longer(state.stops, state.text, state.text.push(c));
            lemma_snippet_sound(
                source,
                pos + 1,
                nested,
                SnippetState { text: state.text.push(c), ..state },
            );
        }
    }
}

/// Every place of a snippet lies in its text, and a snippet has at least one place.
pub proof fn law_places_lie_in_the_text(source: Seq<char>, snippet: Snippet)
    requires
        byte_len(source) <= isize::MAX,
        is_parsed(source, Ok(snippet)),
    ensures
        snippet.tabstops@.len() > 0,
        forall|i: int, j: int|
            0 <= i < snippet.tabstops@.len() && 0 <= j < snippet.tabstops@[i]@.ranges.len() ==> {
                let range = #[trigger] snippet.tabstops@[i]@.ranges[j];
                0 <= range.0 <= range.1 <= byte_len(snippet.text@)
            },
{
    let start = SnippetState { text: Seq::empty(), stops: Seq::empty() };
    assert(source.take(0) =~= Seq::<char>::empty());
    lemma_snippet_sound(source, 0, false, start);
    if let Ok((end, state)) = snippet_at(source, 0, false, start) {
        lemma_fits_bound(source, end, state.text);
        let stops = state.stops;
        let all = final_stops(stops, text_end(state.text));
        let models = stop_models(snippet.tabstops@);
        assert(models == all);
        assert(models.len() == snippet.tabstops@.len());
        assert forall|i: int, j: int|
            0 <= i < snippet.tabstops@.len() && 0 <= j
                < snippet.tabstops@[i]@.ranges.len() implies {
            let range = #[trigger] snippet.tabstops@[i]@.ranges[j];
            0 <= range.0 <= range.1 <= byte_len(snippet.text@)
        } by {
            assert(models[i] == snippet.tabstops@[i]@);
            if stops.len() > 0 && stops[0].0 == 0 {
                if i + 1 < stops.len() {
                    assert(all[i] == stops[i + 1].1);
                    assert(stops[i + 1].1.ranges[j] == all[i].ranges[j]);
                } else {
                    assert(all[i] == stops[0].1);
                    assert(stops[0].1.ranges[j] == all[i].ranges[j]);
                }
            } else if i < stops.len() {
                assert(all[i] == stops[i].1);
                assert(stops[i].1.ranges[j] == all[i].ranges[j]);
            } else {
                let end = text_end(state.text);
                assert(all[i].ranges == seq![(end, end)]);
            }
        }
    }
}

/// The places that a text has, by number.
pub open spec fn parsed_stops(source: Seq<char>) -> Seq<(usize, Stop)> {
    match snippet_at(
        source,
        0,
        false,
        SnippetState { text: Seq::empty(), stops: Seq::empty() },
    ) {
        Ok((_, state)) => state.stops,
        Err(_) => Seq::empty(),
    }
}

/// The numbers of the places of a snippet in the order in which they are filled in. The
/// end of the text has number zero where no place has.
pub open spec fn final_numbers(stops: Seq<(usize, Stop)>, count: nat) -> Seq<usize> {
    let numbers = Seq::new(stops.len(), |i: int| stops[i].0);
    if stops.len() > 0 && stops[0].0 == 0 {
        numbers.drop_first().push(0)
    } else if count == stops.len() {
        numbers
    } else {
        numbers.push(0)
    }
}

/// The places of a snippet are filled in by number, from the smallest on, but number
/// zero comes last.
pub proof fn law_places_are_in_order(source: Seq<char>, snippet: Snippet)
    requires
        byte_len(source) <= isize::MAX,
        is_parsed(source, Ok(snippet)),
    ensures
        ({
            let stops = parsed_stops(source);
            let numbers = final_numbers(stops, snippet.tabstops@.len());
            &&& numbers.len() == snippet.tabstops@.len()
            &&& forall|i: int, j: int|
                0 <= i < j < numbers.len() ==> #[trigger] numbers[i] < #[trigger] numbers[j]
                    || numbers[j] == 0
            &&& forall|i: int|
                0 <= i < numbers.len() && #[trigger] numbers[i] == 0 ==> i == numbers.len() - 1
            &&& forall|i: int|
                0 <= i < numbers.len() && #[trigger] numbers[i] != 0 ==> stops.contains(
                    (numbers[i], snippet.tabstops@[i]@),
                )
        }),
{
    let start = SnippetState { text: Seq::empty(), stops: Seq::empty() };
    assert(source.take(0) =~= Seq::<char>::empty());
    lemma_snippet_sound(source, 0, false, start);
    if let Ok((_, state)) = snippet_at(source, 0, false, start) {
        let stops = state.stops;
        let all = final_stops(stops, text_end(state.text));
        let models = stop_models(snippet.tabstops@);
        let numbers = final_numbers(stops, snippet.tabstops@.len());
        assert(models == all);
        assert(models.len() == snippet.tabstops@.len());
        assert(numbers_go_up(stops));
        let shift: int = if stops.len() > 0 && stops[0].0 == 0 {
            1
        } else {
            0
        };
        assert forall|i: int| 0 <= i < numbers.len() && i + shift < stops.len() implies
            #[trigger] numbers[i] == stops[i + shift].0 && models[i] == stops[i + shift].1
            && numbers[i] != 0 by {
            if shift == 1 || i > 0 {
                assert(stops[0].0 < stops[i + shift].0);
            }
        }
        assert forall|i: int| 0 <= i < numbers.len() && #[trigger] numbers[i] != 0 implies
            stops.contains((numbers[i], snippet.tabstops@[i]@)) by {
            assert(models[i] == snippet.tabstops@[i]@);
            assert(stops[i + shift] == (numbers[i], models[i]));
        }
        assert forall|i: int, j: int| 0 <= i < j < numbers.len() implies #[trigger] numbers[i]
            < #[trigger] numbers[j] || numbers[j] == 0 by {
            if numbers[j] != 0 {
                assert(stops[i + shift].0 < stops[j + shift].0);
            }
        }
    }
}

/// A text in which every character that means something has a backslash before it.
pub open spec fn escaped(text: Seq<char>) -> Seq<char>
    decreases text.len(),
{
    if text.len() == 0 {
        Seq::empty()
    } else {
        let c = text.first();
        (if c == '$' || c == '\\' || c == '}' {
            seq!['\\', c]
        } else {
            seq![c]
        }) + escaped(text.drop_first())
    }
}

proof fn lemma_escaped_text(source: Seq<char>, pos: nat, text: Seq<char>, read: Seq<char>)
    requires
        pos <= source.len(),
        source.skip(pos as int) == escaped(text),
    ensures
        snippet_at(source, pos, false, SnippetState { text: read, stops: Seq::empty() }) == Ok::<
            (nat, SnippetState),
            SnippetError,
        >((source.len(), SnippetState { text: read + text, stops: Seq::empty() })),
    decreases text.len(),
{
    let rest = source.skip(pos as int);
    if text.len() == 0 {
        assert(rest.len() == 0);
        assert(read + text =~= read);
    } else {
        let c = text.first();
        let later = text.drop_first();
        let width: nat = if c == '$' || c == '\\' || c == '}' {
            2
        } else {
            1
        };
        assert(rest.len() == width + escaped(later).len());
        assert(source[pos as int] == rest[0]);
        if width == 2 {
            assert(source[(pos + 1) as int] == rest[1]);
        }
        assert forall|k: int| 0 <= k < escaped(later).len() implies source.skip(
            (pos + width) as int,
        )[k] == #[trigger] escaped(later)[k] by {
            assert(source[pos + width + k] == rest[width + k]);
        }
        assert(source.skip((pos + width) as int) =~= escaped(later));
        assert(read.push(c) + later =~= read + text);
        lemma_escaped_text(source, pos + width, later, read.push(c));
    }
}

/// A text in which every character that means something is escaped stands for
/// itself, and the only place to be filled in is its end.
pub proof fn law_escaped_text_stands_for_itself(text: Seq<char>, result: Result<Snippet, SnippetError>)
    requires
        byte_len(escaped(text)) <= isize::MAX,
        is_parsed(escaped(text), result),
    ensures
        result matches Ok(snippet) && snippet.text@ == text && stop_models(snippet.tabstops@)
            == seq![Stop { ranges: seq![(text_end(text), text_end(text))], choices: None }],
{
    let source = escaped(text);
    assert(source.skip(0) =~= source);
    lemma_escaped_text(source, 0, text, Seq::empty());
    assert(Seq::<char>::empty() + text =~= text);
    let end = text_end(text);
    assert(final_stops(Seq::empty(), end) =~= seq![
        Stop { ranges: seq![(end, end)], choices: None },
    ]);
}

} // verus!
