//! Task variables in texts.

use vstd::prelude::*;
use crate::collections::VecSet;
use crate::text::{
    alphanumeric, chars_of, find_char, first_of, has_prefix, is_alphanumeric, lemma_first_of,
    lemma_first_of_is, occurrence, starts_with, str_eq, text_of, texts,
};
use crate::text_map::{pair_map, with_entries, TextMap};

verus! {

/// What the names of all task variables start with.
pub const VARIABLE_NAME_PREFIX: &'static str = "ZED_";

/// How many characters of a value are shown where room is short.
pub const MAX_DISPLAY_VARIABLE_LENGTH: usize = 15;

/// A task variable, and the name under which templates know it.
#[derive(Debug)]
pub struct VariableName {
    pub id: u64,
    pub text: String,
}

/// A task variable and its value.
#[derive(Debug)]
pub struct TaskVariable {
    pub name: VariableName,
    pub value: String,
}

/// What a template is resolved against.
#[derive(Debug)]
pub struct TaskContext {
    pub cwd: Option<String>,
    pub task_variables: Vec<TaskVariable>,
    pub project_env: TextMap,
}

/// A template asks for a task variable that is not there.
#[derive(Copy, Clone, Debug, PartialEq, Eq, Structural)]
pub struct UnknownVariable;

/// The name and the value of each variable.
pub open spec fn named_values(variables: Seq<TaskVariable>) -> Seq<(Seq<char>, Seq<char>)> {
    Seq::new(variables.len(), |i: int| (variables[i].name.text@, variables[i].value@))
}

/// The value under each name. Of two variables with one name the last one counts.
pub open spec fn variable_values(variables: Seq<TaskVariable>) -> Seq<(Seq<char>, Seq<char>)> {
    with_entries(Seq::empty(), named_values(variables))
}

/// The variable that a name stands for. Of two variables with one name the first
/// one counts.
pub open spec fn variable_id(variables: Seq<TaskVariable>, name: Seq<char>) -> Option<u64>
    decreases variables.len(),
{
    if variables.len() == 0 {
        None
    } else if variables.first().name.text@ == name {
        Some(variables.first().name.id)
    } else {
        variable_id(variables.drop_first(), name)
    }
}

/// The name at the start of what stands between the braces of a variable.
pub open spec fn name_part(asked: Seq<char>) -> Seq<char> {
    asked.take(first_of(asked, ':') as int)
}

/// What stands behind the name: a colon and a default.
pub open spec fn default_part(asked: Seq<char>) -> Seq<char> {
    asked.skip(first_of(asked, ':') as int)
}

/// What a variable is replaced by, if it is. A default is kept, since nothing is
/// known of the environment in which the task will run.
pub open spec fn looked_up(values: Map<Seq<char>, Seq<char>>, asked: Seq<char>) -> Result<
    Option<Seq<char>>,
    UnknownVariable,
> {
    if values.contains_key(name_part(asked)) {
        Ok(Some(values[name_part(asked)] + default_part(asked)))
    } else if starts_with(name_part(asked), VARIABLE_NAME_PREFIX@) {
        Err(UnknownVariable)
    } else if default_part(asked).len() > 0 {
        Ok(Some(seq!['$', '{'] + asked + seq!['}']))
    } else {
        Ok(None)
    }
}

/// A text, if there is one.
pub open spec fn optional_text(text: Option<String>) -> Option<Seq<char>> {
    match text {
        Some(text) => Some(text@),
        None => None,
    }
}

/// What a variable is replaced by, if it is. Notes that it was asked for.
pub fn look_up(values: &TextMap, asked: &str, all_asked: &mut Vec<String>) -> (r: Result<
    Option<String>,
    UnknownVariable,
>)
    ensures
        match (r, looked_up(values@, asked@)) {
            (Ok(text), Ok(expected)) => optional_text(text) == expected,
            (Err(_), Err(_)) => true,
            _ => false,
        },
        texts(final(all_asked)@) == texts(old(all_asked)@).push(asked@),
{
    let chars = chars_of(asked);
    let ghost before = all_asked@;
    let copy = text_of(&chars, 0, chars.len());
    assert(copy@ =~= asked@);
    all_asked.push(copy);
    assert(texts(all_asked@) =~= texts(before).push(asked@));
    assert(chars@.skip(0) =~= chars@);
    let colon: usize = find_char(&chars, 0, ':');
    let name = text_of(&chars, 0, colon);
    let default = text_of(&chars, colon, chars.len());
    assert(name@ =~= name_part(asked@));
    assert(default@ =~= default_part(asked@));
    match values.get(name.as_str()) {
        Some(value) => {
            let mut text = crate::text::copy_text(value.as_str());
            text.push_str(default.as_str());
            Ok(Some(text))
        },
        None => {
            if has_prefix(name.as_str(), VARIABLE_NAME_PREFIX) {
                Err(UnknownVariable)
            } else if colon < chars.len() {
                let mut text = String::new();
                text.push('$');
                text.push('{');
                text.push_str(asked);
                text.push('}');
                assert(text@ =~= seq!['$', '{'] + asked@ + seq!['}']);
                Ok(Some(text))
            } else {
                Ok(None)
            }
        },
    }
}

/// A template has a dollar sign at which it cannot be read.
#[derive(Copy, Clone, Debug, PartialEq, Eq, Structural)]
pub struct UnreadableTemplate;

/// Whether a template can be read: no dollar sign that starts a variable stands right
/// before a letter or a digit that is not one of ASCII. A dollar sign after another one
/// starts no variable, nor does one between the braces of a variable.
pub open spec fn readable(template: Seq<char>) -> bool
    decreases template.len(),
{
    let rest = template.skip(first_of(template, '$') as int);
    proof {
        lemma_first_of(template, '$');
        lemma_first_of(rest, '}');
    }
    if rest.len() <= 1 {
        true
    } else if rest[1] == '$' {
        readable(rest.skip(2))
    } else if rest[1] == '{' {
        let end: int = first_of(rest, '}') as int;
        if end < rest.len() {
            readable(rest.skip(end + 1))
        } else {
            readable(rest.skip(2))
        }
    } else {
        (rest[1] as u32 >= 0x80 ==> !alphanumeric(rest[1])) && readable(rest.skip(1))
    }
}

/// Whether a template can be read.
pub fn is_readable(template: &str) -> (r: bool)
    ensures
        r == readable(template@),
{
    let chars = chars_of(template);
    let mut i: usize = 0;
    assert(chars@.skip(0) =~= chars@);
    loop
        invariant
            i <= chars@.len(),
            readable(chars@.skip(i as int)) == readable(chars@),
            chars@ == template@,
        decreases chars@.len() - i,
    {
        let at: usize = find_char(&chars, i, '$');
        let ghost rest = chars@.skip(at as int);
        proof {
            assert(chars@.skip(i as int).skip(at - i) =~= rest);
        }
        if at >= chars.len() || at + 1 >= chars.len() {
            return true;
        }
        let next: char = chars[at + 1];
        assert(rest[1] == next);
        if next == '$' {
            assert(rest.skip(2) =~= chars@.skip(at + 2));
            i = at + 2;
        } else if next == '{' {
            let end: usize = find_char(&chars, at, '}');
            proof {
                lemma_first_of(rest, '}');
            }
            if end < chars.len() {
                assert(rest.skip(end - at + 1) =~= chars@.skip(end + 1));
                i = end + 1;
            } else {
                assert(rest.skip(2) =~= chars@.skip(at + 2));
                i = at + 2;
            }
        } else {
            if next as u32 >= 0x80 && is_alphanumeric(next) {
                return false;
            }
            assert(rest.skip(1) =~= chars@.skip(at + 1));
            i = at + 1;
        }
    }
}

/// Whether a text has a task variable left in it, by its prefix.
pub open spec fn holds_variable(text: Seq<char>) -> bool {
    occurrence(text, VARIABLE_NAME_PREFIX@) is Some
}

/// Whether a text has a task variable left in it.
pub fn has_variable_left(text: &str) -> (r: bool)
    ensures
        r == holds_variable(text@),
{
    let chars = chars_of(text);
    crate::text::find_text(&chars, VARIABLE_NAME_PREFIX).is_some()
}

/// Whether one of the variables that were asked for is unknown.
pub open spec fn asks_unknown(values: Map<Seq<char>, Seq<char>>, asked: Seq<Seq<char>>) -> bool {
    exists|i: int| 0 <= i < asked.len() && looked_up(values, #[trigger] asked[i]) is Err
}

/// What `shellexpand::env_with_context` makes of a template with `looked_up` as its
/// context: the text, unless a variable is unknown, and the variables that it asked
/// for, in order.
pub uninterp spec fn expansion(
    template: Seq<char>,
    values: Map<Seq<char>, Seq<char>>,
) -> (Option<Seq<char>>, Seq<Seq<char>>);

/// `shellexpand::env_with_context` replaces the variables in a template by what
/// `look_up` says of each. A template without a dollar sign stays as it is. It only
/// fails where the variable that it asked for last is unknown, and it asks for none
/// after that. Only behind `:-` is there a default for an unknown variable: without one
/// it fails wherever a variable that it asks for is unknown.
///
/// It cuts a template two bytes behind a dollar sign with a letter or a digit after it,
/// and panics where that is inside the letter: such templates are left out. So are those
/// in which it would fail at an unknown variable before it gets there.
#[verifier::external_body]
fn expand(template: &str, values: &TextMap) -> (r: (Option<String>, Vec<String>))
    requires
        readable(template@),
    ensures
        (optional_text(r.0), texts(r.1@)) == expansion(template@, values@),
        !template@.contains('$') ==> r.0 is Some && r.0->0@ == template@ && r.1@.len() == 0,
        r.0 is None ==> r.1@.len() > 0 && looked_up(values@, r.1@.last()@) is Err,
        occurrence(template@, seq![':', '-']) is None ==> (r.0 is None <==> asks_unknown(
            values@,
            texts(r.1@),
        )),
{
    let mut asked: Vec<String> = Vec::new();
    match shellexpand::env_with_context(template, |var| look_up(values, var, &mut asked)) {
        Ok(text) => (Some(text.into_owned()), asked),
        Err(_) => (None, asked),
    }
}

/// The variables among those that were asked for.
pub open spec fn asked_ids(variables: Seq<TaskVariable>, asked: Seq<Seq<char>>) -> Set<u64>
    decreases asked.len(),
{
    if asked.len() == 0 {
        Set::empty()
    } else {
        let before = asked_ids(variables, asked.drop_last());
        match variable_id(variables, name_part(asked.last())) {
            Some(id) => before.insert(id),
            None => before,
        }
    }
}

/// The text of a template.
pub open spec fn expanded(template: Seq<char>, values: Map<Seq<char>, Seq<char>>) -> Option<
    Seq<char>,
> {
    expansion(template, values).0
}

/// The variables that a template asks for.
pub open spec fn ids_in(
    variables: Seq<TaskVariable>,
    template: Seq<char>,
    values: Map<Seq<char>, Seq<char>>,
) -> Set<u64> {
    asked_ids(variables, expansion(template, values).1)
}

fn find_variable(variables: &Vec<TaskVariable>, name: &str) -> (r: Option<u64>)
    ensures
        r == variable_id(variables@, name@),
{
    let mut i: usize = 0;
    assert(variables@.skip(0) =~= variables@);
    while i < variables.len()
        invariant
            i <= variables@.len(),
            variable_id(variables@.skip(i as int), name@) == variable_id(variables@, name@),
        decreases variables.len() - i,
    {
        proof {
            let rest = variables@.skip(i as int);
            assert(rest.drop_first() =~= variables@.skip(i + 1));
            assert(rest.first() == variables@[i as int]);
        }
        if str_eq(variables[i].name.text.as_str(), name) {
            return Some(variables[i].name.id);
        }
        i = i + 1;
    }
    None
}

/// Adds the variables among those that were asked for.
pub fn note_variables(
    variables: &Vec<TaskVariable>,
    asked: &Vec<String>,
    substituted: &mut VecSet<u64>,
)
    ensures
        final(substituted)@ == old(substituted)@.union(asked_ids(variables@, texts(asked@))),
{
    let mut i: usize = 0;
    let ghost start = substituted@;
    let ghost all = texts(asked@);
    assert(all.take(0) =~= Seq::empty());
    assert(substituted@ =~= start.union(asked_ids(variables@, all.take(0))));
    while i < asked.len()
        invariant
            i <= asked@.len(),
            all == texts(asked@),
            substituted@ == start.union(asked_ids(variables@, all.take(i as int))),
        decreases asked.len() - i,
    {
        proof {
            let next = all.take(i + 1);
            assert(next.drop_last() =~= all.take(i as int));
            assert(next.last() == asked@[i as int]@);
        }
        let chars = chars_of(asked[i].as_str());
        assert(chars@.skip(0) =~= chars@);
        let colon: usize = find_char(&chars, 0, ':');
        let name = text_of(&chars, 0, colon);
        assert(name@ =~= name_part(asked@[i as int]@));
        match find_variable(variables, name.as_str()) {
            Some(id) => {
                let _ = substituted.insert(id);
            },
            None => {},
        }
        i = i + 1;
        assert(substituted@ =~= start.union(asked_ids(variables@, all.take(i as int))));
    }
    assert(all.take(i as int) =~= all);
}

/// The value under each name.
pub fn values_of(variables: &Vec<TaskVariable>) -> (r: TextMap)
    ensures
        r.wf(),
        r.pairs() == variable_values(variables@),
{
    let mut values = TextMap::new();
    let mut i: usize = 0;
    let ghost all = named_values(variables@);
    assert(all.take(0) =~= Seq::empty());
    while i < variables.len()
        invariant
            i <= variables@.len(),
            all == named_values(variables@),
            values.wf(),
            values.pairs() == with_entries(Seq::empty(), all.take(i as int)),
        decreases variables.len() - i,
    {
        proof {
            let next = all.take(i + 1);
            assert(next.drop_last() =~= all.take(i as int));
            assert(next.last() == (variables@[i as int].name.text@, variables@[i as int].value@));
        }
        values.insert(
            crate::text::copy_text(variables[i].name.text.as_str()),
            crate::text::copy_text(variables[i].value.as_str()),
        );
        i = i + 1;
    }
    assert(all.take(i as int) =~= all);
    values
}

/// The end of a text behind an ellipsis, where the text is too long.
pub open spec fn shortened(text: Seq<char>, max_chars: nat) -> Seq<char> {
    if text.len() > max_chars {
        seq!['…'] + text.skip(text.len() - max_chars)
    } else {
        text
    }
}

/// The end of a text behind an ellipsis, where the text is too long.
pub fn truncate_and_remove_front(text: &str, max_chars: usize) -> (r: String)
    ensures
        r@ == shortened(text@, max_chars as nat),
{
    let chars = chars_of(text);
    if chars.len() > max_chars {
        let mut r = String::new();
        r.push('…');
        let end = text_of(&chars, chars.len() - max_chars, chars.len());
        r.push_str(end.as_str());
        assert(r@ =~= shortened(text@, max_chars as nat));
        r
    } else {
        crate::text::copy_text(text)
    }
}

/// Values with no more characters than can be shown.
pub open spec fn shortened_values(values: Seq<(Seq<char>, Seq<char>)>) -> Seq<
    (Seq<char>, Seq<char>),
> {
    Seq::new(
        values.len(),
        |i: int| (values[i].0, shortened(values[i].1, MAX_DISPLAY_VARIABLE_LENGTH as nat)),
    )
}

/// Values with no more characters than can be shown.
pub fn truncate_variables(values: &TextMap) -> (r: TextMap)
    requires
        values.wf(),
    ensures
        r.wf(),
        r.pairs() == shortened_values(values.pairs()),
{
    let mut r = TextMap::new();
    let mut i: usize = 0;
    let ghost all = shortened_values(values.pairs());
    assert(all.take(0) =~= Seq::empty());
    while i < values.len()
        invariant
            i <= all.len(),
            values.wf(),
            all == shortened_values(values.pairs()),
            r.wf(),
            r.pairs() == all.take(i as int),
        decreases all.len() - i,
    {
        let (key, value) = values.entry(i);
        let short = truncate_and_remove_front(value.as_str(), MAX_DISPLAY_VARIABLE_LENGTH);
        proof {
            let here = all.take(i as int);
            assert forall|j: int| 0 <= j < i implies (#[trigger] here[j]).0 != key@ by {
                assert(values.pairs()[j].0 != values.pairs()[i as int].0);
            }
            crate::text_map::lemma_new_key_comes_last(here, key@, short@);
            assert(here.push((key@, short@)) =~= all.take(i + 1));
        }
        r.insert(crate::text::copy_text(key.as_str()), short);
        i = i + 1;
    }
    assert(all.take(i as int) =~= all);
    r
}

/// Replaces the variables in a text, and adds them to those that were substituted.
pub fn substitute_all_template_variables_in_str(
    template: &str,
    variables: &Vec<TaskVariable>,
    values: &TextMap,
    substituted: &mut VecSet<u64>,
) -> (r: Option<String>)
    requires
        readable(template@),
    ensures
        optional_text(r) == expanded(template@, values@),
        final(substituted)@ == old(substituted)@.union(ids_in(variables@, template@, values@)),
        !template@.contains('$') ==> expansion(template@, values@) == (
            Some(template@),
            Seq::<Seq<char>>::empty(),
        ),
        occurrence(template@, seq![':', '-']) is None ==> (r is None <==> asks_unknown(
            values@,
            expansion(template@, values@).1,
        )),
{
    let (text, asked) = expand(template, values);
    note_variables(variables, &asked, substituted);
    proof {
        if !template@.contains('$') {
            assert(texts(asked@) =~= Seq::<Seq<char>>::empty());
        }
    }
    text
}

/// Whether some templates can be read.
pub open spec fn all_readable(templates: Seq<Seq<char>>) -> bool {
    forall|i: int| 0 <= i < templates.len() ==> readable(#[trigger] templates[i])
}

/// Whether some templates can be read.
pub fn are_readable(templates: &Vec<String>) -> (r: bool)
    ensures
        r == all_readable(texts(templates@)),
{
    let ghost all = texts(templates@);
    let mut i: usize = 0;
    while i < templates.len()
        invariant
            i <= templates@.len(),
            all == texts(templates@),
            forall|j: int| 0 <= j < i ==> readable(#[trigger] all[j]),
        decreases templates.len() - i,
    {
        assert(all[i as int] == templates@[i as int]@);
        if !is_readable(templates[i].as_str()) {
            return false;
        }
        i = i + 1;
    }
    true
}

/// Whether the keys and the values of a map can be read.
pub open spec fn entries_readable(entries: Seq<(Seq<char>, Seq<char>)>) -> bool {
    forall|i: int|
        0 <= i < entries.len() ==> readable((#[trigger] entries[i]).0) && readable(entries[i].1)
}

/// Whether the keys and the values of a map can be read.
pub fn is_map_readable(keys_and_values: &TextMap) -> (r: bool)
    ensures
        r == entries_readable(keys_and_values.pairs()),
{
    let ghost all = keys_and_values.pairs();
    let mut i: usize = 0;
    while i < keys_and_values.len()
        invariant
            i <= all.len(),
            all == keys_and_values.pairs(),
            forall|j: int| 0 <= j < i ==> readable((#[trigger] all[j]).0) && readable(all[j].1),
        decreases all.len() - i,
    {
        let (key, value) = keys_and_values.entry(i);
        assert(all[i as int] == (key@, value@));
        if !is_readable(key.as_str()) || !is_readable(value.as_str()) {
            return false;
        }
        i = i + 1;
    }
    true
}

/// The texts of some templates, if all of them have one.
pub open spec fn all_expanded(
    templates: Seq<Seq<char>>,
    values: Map<Seq<char>, Seq<char>>,
) -> Option<Seq<Seq<char>>>
    decreases templates.len(),
{
    if templates.len() == 0 {
        Some(Seq::empty())
    } else {
        match (
            all_expanded(templates.drop_last(), values),
            expanded(templates.last(), values),
        ) {
            (Some(before), Some(text)) => Some(before.push(text)),
            _ => None,
        }
    }
}

/// The variables that some templates ask for.
pub open spec fn ids_in_all(
    variables: Seq<TaskVariable>,
    templates: Seq<Seq<char>>,
    values: Map<Seq<char>, Seq<char>>,
) -> Set<u64>
    decreases templates.len(),
{
    if templates.len() == 0 {
        Set::empty()
    } else {
        ids_in_all(variables, templates.drop_last(), values).union(
            ids_in(variables, templates.last(), values),
        )
    }
}

proof fn lemma_prefix_expanded(
    templates: Seq<Seq<char>>,
    values: Map<Seq<char>, Seq<char>>,
    n: int,
)
    requires
        0 <= n <= templates.len(),
        all_expanded(templates, values) is Some,
    ensures
        all_expanded(templates.take(n), values) is Some,
    decreases templates.len(),
{
    if n < templates.len() {
        assert(templates.drop_last().take(n) =~= templates.take(n));
        lemma_prefix_expanded(templates.drop_last(), values, n);
    } else {
        assert(templates.take(n) =~= templates);
    }
}

/// Replaces the variables in some texts.
pub fn substitute_all_template_variables_in_vec(
    templates: &Vec<String>,
    variables: &Vec<TaskVariable>,
    values: &TextMap,
    substituted: &mut VecSet<u64>,
) -> (r: Option<Vec<String>>)
    requires
        all_readable(texts(templates@)),
    ensures
        match r {
            Some(expanded) => Some(texts(expanded@)) == all_expanded(texts(templates@), values@)
                && final(substituted)@ == old(substituted)@.union(
                ids_in_all(variables@, texts(templates@), values@),
            ),
            None => all_expanded(texts(templates@), values@) is None,
        },
{
    let mut expanded_texts: Vec<String> = Vec::new();
    let mut i: usize = 0;
    let ghost all = texts(templates@);
    let ghost start = substituted@;
    assert(all.take(0) =~= Seq::empty());
    assert(texts(expanded_texts@) =~= Seq::empty());
    assert(substituted@ =~= start.union(ids_in_all(variables@, all.take(0), values@)));
    while i < templates.len()
        invariant
            i <= templates@.len(),
            all == texts(templates@),
            all_readable(all),
            Some(texts(expanded_texts@)) == all_expanded(all.take(i as int), values@),
            substituted@ == start.union(ids_in_all(variables@, all.take(i as int), values@)),
        decreases templates.len() - i,
    {
        let ghost next = all.take(i + 1);
        proof {
            assert(next.drop_last() =~= all.take(i as int));
            assert(next.last() == templates@[i as int]@);
            assert(all[i as int] == templates@[i as int]@);
            if all_expanded(all, values@) is Some {
                lemma_prefix_expanded(all, values@, i + 1);
            }
        }
        match substitute_all_template_variables_in_str(
            templates[i].as_str(),
            variables,
            values,
            substituted,
        ) {
            Some(text) => {
                let ghost before = texts(expanded_texts@);
                let ghost last = text@;
                expanded_texts.push(text);
                assert(texts(expanded_texts@) =~= before.push(last));
            },
            None => {
                return None;
            },
        }
        assert(substituted@ =~= start.union(ids_in_all(variables@, next, values@)));
        i = i + 1;
    }
    assert(all.take(i as int) =~= all);
    Some(expanded_texts)
}

/// The entries of a map with the variables replaced in keys and values, if all of
/// them can be.
pub open spec fn expanded_entries(
    entries: Seq<(Seq<char>, Seq<char>)>,
    values: Map<Seq<char>, Seq<char>>,
) -> Option<Seq<(Seq<char>, Seq<char>)>>
    decreases entries.len(),
{
    if entries.len() == 0 {
        Some(Seq::empty())
    } else {
        match (
            expanded_entries(entries.drop_last(), values),
            expanded(entries.last().0, values),
            expanded(entries.last().1, values),
        ) {
            (Some(before), Some(key), Some(value)) => Some(
                crate::text_map::with_entry(before, key, value),
            ),
            _ => None,
        }
    }
}

/// The variables that the keys and values of a map ask for.
pub open spec fn ids_in_entries(
    variables: Seq<TaskVariable>,
    entries: Seq<(Seq<char>, Seq<char>)>,
    values: Map<Seq<char>, Seq<char>>,
) -> Set<u64>
    decreases entries.len(),
{
    if entries.len() == 0 {
        Set::empty()
    } else {
        ids_in_entries(variables, entries.drop_last(), values).union(
            ids_in(variables, entries.last().1, values),
        ).union(ids_in(variables, entries.last().0, values))
    }
}

proof fn lemma_prefix_entries(
    entries: Seq<(Seq<char>, Seq<char>)>,
    values: Map<Seq<char>, Seq<char>>,
    n: int,
)
    requires
        0 <= n <= entries.len(),
        expanded_entries(entries, values) is Some,
    ensures
        expanded_entries(entries.take(n), values) is Some,
    decreases entries.len(),
{
    if n < entries.len() {
        assert(entries.drop_last().take(n) =~= entries.take(n));
        lemma_prefix_entries(entries.drop_last(), values, n);
    } else {
        assert(entries.take(n) =~= entries);
    }
}

/// Replaces the variables in the keys and the values of a map.
pub fn substitute_all_template_variables_in_map(
    keys_and_values: &TextMap,
    variables: &Vec<TaskVariable>,
    values: &TextMap,
    substituted: &mut VecSet<u64>,
) -> (r: Option<TextMap>)
    requires
        entries_readable(keys_and_values.pairs()),
    ensures
        match r {
            Some(map) => map.wf() && Some(map.pairs()) == expanded_entries(
                keys_and_values.pairs(),
                values@,
            ) && final(substituted)@ == old(substituted)@.union(
                ids_in_entries(variables@, keys_and_values.pairs(), values@),
            ),
            None => expanded_entries(keys_and_values.pairs(), values@) is None,
        },
{
    let mut new_map = TextMap::new();
    let mut i: usize = 0;
    let ghost all = keys_and_values.pairs();
    let ghost start = substituted@;
    assert(all.take(0) =~= Seq::empty());
    assert(substituted@ =~= start.union(ids_in_entries(variables@, all.take(0), values@)));
    while i < keys_and_values.len()
        invariant
            i <= all.len(),
            all == keys_and_values.pairs(),
            entries_readable(all),
            new_map.wf(),
            Some(new_map.pairs()) == expanded_entries(all.take(i as int), values@),
            substituted@ == start.union(ids_in_entries(variables@, all.take(i as int), values@)),
        decreases all.len() - i,
    {
        let ghost next = all.take(i + 1);
        proof {
            assert(next.drop_last() =~= all.take(i as int));
            assert(next.last() == all[i as int]);
            if expanded_entries(all, values@) is Some {
                lemma_prefix_entries(all, values@, i + 1);
            }
        }
        let (key, value) = keys_and_values.entry(i);
        let new_value = match substitute_all_template_variables_in_str(
            value.as_str(),
            variables,
            values,
            substituted,
        ) {
            Some(text) => text,
            None => {
                return None;
            },
        };
        let new_key = match substitute_all_template_variables_in_str(
            key.as_str(),
            variables,
            values,
            substituted,
        ) {
            Some(text) => text,
            None => {
                return None;
            },
        };
        new_map.insert(new_key, new_value);
        assert(substituted@ =~= start.union(ids_in_entries(variables@, next, values@)));
        i = i + 1;
    }
    assert(all.take(i as int) =~= all);
    Some(new_map)
}

/// Replaces the task variables in a text.
pub fn substitute_variables_in_str(template: &str, context: &TaskContext) -> (r: Option<String>)
    requires
        readable(template@),
    ensures
        optional_text(r) == expanded(
            template@,
            pair_map(variable_values(context.task_variables@)),
        ),
        !template@.contains('$') ==> optional_text(r) == Some(template@),
{
    let values = values_of(&context.task_variables);
    let mut substituted: VecSet<u64> = VecSet::new();
    substitute_all_template_variables_in_str(
        template,
        &context.task_variables,
        &values,
        &mut substituted,
    )
}

/// Replaces the task variables in the keys and the values of a map.
pub fn substitute_variables_in_map(keys_and_values: &TextMap, context: &TaskContext) -> (r: Option<
    TextMap,
>)
    requires
        entries_readable(keys_and_values.pairs()),
    ensures
        match r {
            Some(map) => map.wf() && Some(map.pairs()) == expanded_entries(
                keys_and_values.pairs(),
                pair_map(variable_values(context.task_variables@)),
            ),
            None => expanded_entries(
                keys_and_values.pairs(),
                pair_map(variable_values(context.task_variables@)),
            ) is None,
        },
{
    let values = values_of(&context.task_variables);
    let mut substituted: VecSet<u64> = VecSet::new();
    substitute_all_template_variables_in_map(
        keys_and_values,
        &context.task_variables,
        &values,
        &mut substituted,
    )
}

/// Replaces the task variables in a text, if it can be read.
pub fn try_substitute_variables_in_str(template: &str, context: &TaskContext) -> (r: Result<
    Option<String>,
    UnreadableTemplate,
>)
    ensures
        r is Ok <==> readable(template@),
        r matches Ok(text) ==> optional_text(text) == expanded(
            template@,
            pair_map(variable_values(context.task_variables@)),
        ),
{
    if is_readable(template) {
        Ok(substitute_variables_in_str(template, context))
    } else {
        Err(UnreadableTemplate)
    }
}

/// Replaces the task variables in the keys and the values of a map, if they can be read.
pub fn try_substitute_variables_in_map(keys_and_values: &TextMap, context: &TaskContext) -> (r:
    Result<Option<TextMap>, UnreadableTemplate>)
    ensures
        r is Ok <==> entries_readable(keys_and_values.pairs()),
        r matches Ok(map) ==> match map {
            Some(map) => map.wf() && Some(map.pairs()) == expanded_entries(
                keys_and_values.pairs(),
                pair_map(variable_values(context.task_variables@)),
            ),
            None => expanded_entries(
                keys_and_values.pairs(),
                pair_map(variable_values(context.task_variables@)),
            ) is None,
        },
{
    if is_map_readable(keys_and_values) {
        Ok(substitute_variables_in_map(keys_and_values, context))
    } else {
        Err(UnreadableTemplate)
    }
}

proof fn lemma_parts(name: Seq<char>, rest: Seq<char>)
    requires
        !name.contains(':'),
        rest.len() > 0 ==> rest[0] == ':',
    ensures
        name_part(name + rest) == name,
        default_part(name + rest) == rest,
{
    let asked = name + rest;
    assert forall|k: int| 0 <= k < name.len() implies #[trigger] asked[k] != ':' by {
        assert(asked[k] == name[k]);
    }
    if rest.len() > 0 {
        assert(asked[name.len() as int] == ':');
    }
    lemma_first_of_is(asked, ':', name.len());
    assert(asked.take(name.len() as int) =~= name);
    assert(asked.skip(name.len() as int) =~= rest);
}

/// A variable that is known stands for its value, and what follows its name after a colon is
/// kept. One that is not known fails where it is one of the editor, is left as it was where it
/// comes with a default, and stays unknown otherwise. Whatever was asked for is noted.
pub proof fn law_known_variables_have_values(
    values: TextMap,
    asked: &str,
    all_asked: &mut Vec<String>,
    r: Result<Option<String>, UnknownVariable>,
    name: Seq<char>,
    rest: Seq<char>,
)
    requires
        call_ensures(look_up, (&values, asked, all_asked), r),
        asked@ == name + rest,
        !name.contains(':'),
        rest.len() > 0 ==> rest[0] == ':',
    ensures
        values@.contains_key(name) ==> r is Ok && r->Ok_0 is Some && r->Ok_0->0@ == values@[name]
            + rest,
        !values@.contains_key(name) && "ZED_"@.is_prefix_of(name) ==> r is Err,
        !values@.contains_key(name) && !"ZED_"@.is_prefix_of(name) && rest.len() > 0 ==> r is Ok
            && r->Ok_0 is Some && r->Ok_0->0@ == seq!['$', '{'] + asked@ + seq!['}'],
        !values@.contains_key(name) && !"ZED_"@.is_prefix_of(name) && rest.len() == 0 ==> r is Ok
            && r->Ok_0 is None,
        final(all_asked)@.len() == old(all_asked)@.len() + 1 && final(all_asked)@.last()@
            == asked@,
{
    lemma_parts(name, rest);
    reveal_strlit("ZED_");
    if name.len() >= 4 {
        assert(name.subrange(0, 4) == name.take(4));
    }
    assert("ZED_"@.is_prefix_of(name) == starts_with(name, VARIABLE_NAME_PREFIX@));
    let after = texts(final(all_asked)@);
    assert(after == texts(old(all_asked)@).push(asked@));
    assert(after.len() == final(all_asked)@.len());
    assert(texts(old(all_asked)@).len() == old(all_asked)@.len());
    assert(after.last() == asked@);
}

/// A text that is too long loses characters at its front, and an ellipsis stands for them.
/// Values of variables are shown with no more than fifteen characters.
pub proof fn law_long_values_are_cut_in_front(
    text: &str,
    max_chars: usize,
    r: String,
    values: TextMap,
    short: TextMap,
    i: int,
)
    requires
        call_ensures(truncate_and_remove_front, (text, max_chars), r),
        values.wf(),
        call_ensures(truncate_variables, (&values,), short),
        0 <= i < values.pairs().len(),
    ensures
        text@.len() <= max_chars ==> r@ == text@,
        text@.len() > max_chars ==> r@.len() == max_chars + 1 && r@[0] == '…' && r@.skip(1)
            == text@.skip(text@.len() - max_chars),
        short.pairs().len() == values.pairs().len(),
        short.pairs()[i].0 == values.pairs()[i].0,
        values.pairs()[i].1.len() <= 15 ==> short.pairs()[i].1 == values.pairs()[i].1,
        values.pairs()[i].1.len() > 15 ==> short.pairs()[i].1 == seq!['…']
            + values.pairs()[i].1.skip(values.pairs()[i].1.len() - 15),
{
    if text@.len() > max_chars {
        assert(r@.skip(1) =~= text@.skip(text@.len() - max_chars));
    }
}

/// A later variable of the same name wins over an earlier one.
pub proof fn law_last_value_counts(
    variables: Vec<TaskVariable>,
    more: Vec<TaskVariable>,
    last: TaskVariable,
    values: TextMap,
    r: TextMap,
)
    requires
        more@ == variables@.push(last),
        call_ensures(values_of, (&variables,), values),
        call_ensures(values_of, (&more,), r),
    ensures
        r@ == values@.insert(last.name.text@, last.value@),
        variables@.len() == 0 ==> values@ == Map::<Seq<char>, Seq<char>>::empty(),
{
    assert(named_values(more@).drop_last() =~= named_values(variables@));
    assert(named_values(more@).last() == (last.name.text@, last.value@));
    crate::text_map::lemma_with_entry_inserts(values.pairs(), last.name.text@, last.value@);
    if variables@.len() == 0 {
        assert(values@ =~= Map::<Seq<char>, Seq<char>>::empty());
    }
}

proof fn lemma_occurrence_somewhere(text: Seq<char>, part: Seq<char>, k: int)
    requires
        0 <= k,
        k + part.len() <= text.len(),
        text.subrange(k, k + part.len()) == part,
    ensures
        occurrence(text, part) is Some,
    decreases k,
{
    if k == 0 {
        assert(text.take(part.len() as int) =~= text.subrange(0, part.len() as int));
    } else if !starts_with(text, part) {
        let rest = text.drop_first();
        assert(rest.subrange(k - 1, k - 1 + part.len()) =~= text.subrange(k, k + part.len()));
        lemma_occurrence_somewhere(rest, part, k - 1);
    }
}

proof fn lemma_occurrence_is_there(text: Seq<char>, part: Seq<char>) -> (k: int)
    requires
        occurrence(text, part) is Some,
    ensures
        0 <= k,
        k + part.len() <= text.len(),
        text.subrange(k, k + part.len()) == part,
    decreases text.len(),
{
    if starts_with(text, part) {
        assert(text.subrange(0, part.len() as int) =~= text.take(part.len() as int));
        0
    } else {
        let rest = text.drop_first();
        let k: int = lemma_occurrence_is_there(rest, part);
        assert(text.subrange(k + 1, k + 1 + part.len()) =~= rest.subrange(k, k + part.len()));
        k + 1
    }
}

/// A variable is left in a text just where the prefix of the editor's variables stands in it.
pub proof fn law_variables_left_are_seen(text: &str, r: bool)
    requires
        call_ensures(has_variable_left, (text,), r),
    ensures
        r == exists|k: int|
            0 <= k && k + 4 <= text@.len() && #[trigger] text@.subrange(k, k + 4) == "ZED_"@,
{
    reveal_strlit("ZED_");
    if r {
        let k: int = lemma_occurrence_is_there(text@, "ZED_"@);
        assert(text@.subrange(k, k + 4) == "ZED_"@);
    }
    if exists|k: int|
        0 <= k && k + 4 <= text@.len() && #[trigger] text@.subrange(k, k + 4) == "ZED_"@ {
        let k: int = choose|k: int|
            0 <= k && k + 4 <= text@.len() && #[trigger] text@.subrange(k, k + 4) == "ZED_"@;
        lemma_occurrence_somewhere(text@, "ZED_"@, k);
    }
}

proof fn lemma_all_expanded(templates: Seq<Seq<char>>, values: Map<Seq<char>, Seq<char>>)
    ensures
        match all_expanded(templates, values) {
            Some(all) => all.len() == templates.len() && forall|i: int|
                0 <= i < templates.len() ==> expanded(#[trigger] templates[i], values) == Some(
                    all[i],
                ),
            None => exists|i: int|
                0 <= i < templates.len() && expanded(#[trigger] templates[i], values) is None,
        },
    decreases templates.len(),
{
    if templates.len() > 0 {
        let init = templates.drop_last();
        lemma_all_expanded(init, values);
        match all_expanded(templates, values) {
            Some(all) => {
                let before = all_expanded(init, values)->0;
                assert forall|i: int| 0 <= i < templates.len() implies expanded(
                    #[trigger] templates[i],
                    values,
                ) == Some(all[i]) by {
                    if i < init.len() {
                        assert(init[i] == templates[i]);
                        assert(all[i] == before[i]);
                    }
                }
            },
            None => {
                if all_expanded(init, values) is None {
                    let i: int = choose|i: int|
                        0 <= i < init.len() && expanded(#[trigger] init[i], values) is None;
                    assert(templates[i] == init[i]);
                } else {
                    assert(expanded(templates[templates.len() - 1], values) is None);
                }
            },
        }
    }
}

/// Texts are expanded one by one, each by itself. If one of them fails, all do.
pub proof fn law_texts_are_expanded_one_by_one(
    templates: Vec<String>,
    variables: Vec<TaskVariable>,
    values: TextMap,
    noted: &mut VecSet<u64>,
    also: &mut VecSet<u64>,
    r: Option<Vec<String>>,
    i: int,
    template: &str,
    one: Option<String>,
)
    requires
        call_ensures(
            substitute_all_template_variables_in_vec,
            (&templates, &variables, &values, noted),
            r,
        ),
        0 <= i < templates@.len(),
        template@ == templates@[i]@,
        call_ensures(
            substitute_all_template_variables_in_str,
            (template, &variables, &values, also),
            one,
        ),
    ensures
        one is None ==> r is None,
        r matches Some(all) ==> all@.len() == templates@.len() && one is Some && all@[i]@
            == one->0@,
        r is None ==> exists|k: int|
            0 <= k < templates@.len() && expanded((#[trigger] templates@[k])@, values@) is None,
{
    lemma_all_expanded(texts(templates@), values@);
    assert(texts(templates@)[i] == templates@[i]@);
    match r {
        Some(all) => {
            assert(texts(all@)[i] == all@[i]@);
            assert(texts(all@).len() == all@.len());
        },
        None => {
            let k: int = choose|k: int|
                0 <= k < texts(templates@).len() && expanded(
                    #[trigger] texts(templates@)[k],
                    values@,
                ) is None;
            assert(expanded(templates@[k]@, values@) is None);
        },
    }
}

proof fn lemma_variable_id(variables: Seq<TaskVariable>, k: int)
    requires
        0 <= k < variables.len(),
        forall|j: int|
            0 <= j < k ==> (#[trigger] variables[j]).name.text@ != variables[k].name.text@,
    ensures
        variable_id(variables, variables[k].name.text@) == Some(variables[k].name.id),
    decreases k,
{
    if k > 0 {
        let rest = variables.drop_first();
        assert(variables[0].name.text@ != variables[k].name.text@);
        assert forall|j: int| 0 <= j < k - 1 implies (#[trigger] rest[j]).name.text@ != rest[k
            - 1].name.text@ by {
            assert(rest[j] == variables[j + 1]);
        }
        lemma_variable_id(rest, k - 1);
    }
}

proof fn lemma_variable_has_name(variables: Seq<TaskVariable>, name: Seq<char>)
    requires
        variable_id(variables, name) is Some,
    ensures
        exists|k: int|
            0 <= k < variables.len() && (#[trigger] variables[k]).name.text@ == name
                && variables[k].name.id == variable_id(variables, name)->0,
    decreases variables.len(),
{
    if variables.first().name.text@ == name {
        assert(variables[0].name.text@ == name);
    } else {
        let rest = variables.drop_first();
        lemma_variable_has_name(rest, name);
        let k: int = choose|k: int|
            0 <= k < rest.len() && (#[trigger] rest[k]).name.text@ == name && rest[k].name.id
                == variable_id(rest, name)->0;
        assert(variables[k + 1].name.text@ == name);
    }
}

/// Whether a text asks for a variable: by its name, with or without something behind a colon.
pub open spec fn asks_for(asked: Seq<char>, name: Seq<char>) -> bool {
    !name.contains(':') && name.is_prefix_of(asked) && (asked.len() == name.len()
        || asked[name.len() as int] == ':')
}

proof fn lemma_asks_for(asked: Seq<char>, name: Seq<char>)
    ensures
        asks_for(asked, name) <==> name_part(asked) == name,
{
    lemma_first_of(asked, ':');
    let n: int = first_of(asked, ':') as int;
    if asks_for(asked, name) {
        let rest = asked.skip(name.len() as int);
        assert(asked =~= name + rest) by {
            assert(asked.subrange(0, name.len() as int) == name);
        }
        lemma_parts(name, rest);
    }
    if name_part(asked) == name {
        assert(name.len() == n);
        assert(asked.subrange(0, n) =~= name);
        if name.contains(':') {
            let k: int = choose|k: int| 0 <= k < name.len() && name[k] == ':';
            assert(asked[k] == name[k]);
        }
    }
}

proof fn lemma_asked_ids(variables: Seq<TaskVariable>, asked: Seq<Seq<char>>, id: u64)
    ensures
        asked_ids(variables, asked).contains(id) <==> exists|i: int|
            0 <= i < asked.len() && variable_id(variables, name_part(#[trigger] asked[i])) == Some(
                id,
            ),
    decreases asked.len(),
{
    if asked.len() > 0 {
        let init = asked.drop_last();
        lemma_asked_ids(variables, init, id);
        if asked_ids(variables, asked).contains(id) {
            if asked_ids(variables, init).contains(id) {
                let i: int = choose|i: int|
                    0 <= i < init.len() && variable_id(variables, name_part(#[trigger] init[i]))
                        == Some(id);
                assert(asked[i] == init[i]);
            } else {
                assert(variable_id(variables, name_part(asked[asked.len() - 1])) == Some(id));
            }
        }
        if exists|i: int|
            0 <= i < asked.len() && variable_id(variables, name_part(#[trigger] asked[i])) == Some(
                id,
            ) {
            let i: int = choose|i: int|
                0 <= i < asked.len() && variable_id(variables, name_part(#[trigger] asked[i]))
                    == Some(id);
            if i < init.len() {
                assert(init[i] == asked[i]);
            }
        }
    }
}

/// A variable is noted as used where it was asked for, and only then. Of several of a name it
/// is the first.
pub proof fn law_asked_variables_are_noted(
    variables: Vec<TaskVariable>,
    asked: Vec<String>,
    noted: &mut VecSet<u64>,
    r: (),
    k: int,
    i: int,
    id: u64,
)
    requires
        call_ensures(note_variables, (&variables, &asked, noted), r),
    ensures
        0 <= k < variables@.len() && 0 <= i < asked@.len() && (forall|j: int|
            0 <= j < k ==> (#[trigger] variables@[j]).name.text@ != variables@[k].name.text@)
            && asks_for(asked@[i]@, variables@[k].name.text@) ==> final(noted)@.contains(
            variables@[k].name.id,
        ),
        old(noted)@.contains(id) ==> final(noted)@.contains(id),
        final(noted)@.contains(id) && !old(noted)@.contains(id) ==> exists|k: int, i: int|
            0 <= k < variables@.len() && 0 <= i < asked@.len() && (
            #[trigger] variables@[k]).name.id == id && asks_for(
                (#[trigger] asked@[i])@,
                variables@[k].name.text@,
            ),
{
    let names = texts(asked@);
    if 0 <= k < variables@.len() && 0 <= i < asked@.len() && (forall|j: int|
        0 <= j < k ==> (#[trigger] variables@[j]).name.text@ != variables@[k].name.text@)
        && asks_for(asked@[i]@, variables@[k].name.text@) {
        lemma_variable_id(variables@, k);
        lemma_asks_for(asked@[i]@, variables@[k].name.text@);
        assert(names[i] == asked@[i]@);
        lemma_asked_ids(variables@, names, variables@[k].name.id);
    }
    if final(noted)@.contains(id) && !old(noted)@.contains(id) {
        lemma_asked_ids(variables@, names, id);
        let i: int = choose|i: int|
            0 <= i < names.len() && variable_id(variables@, name_part(#[trigger] names[i]))
                == Some(id);
        assert(names[i] == asked@[i]@);
        lemma_variable_has_name(variables@, name_part(names[i]));
        let k: int = choose|k: int|
            0 <= k < variables@.len() && (#[trigger] variables@[k]).name.text@ == name_part(
                names[i],
            ) && variables@[k].name.id == id;
        lemma_asks_for(asked@[i]@, variables@[k].name.text@);
        assert(variables@[k].name.id == id && asks_for(asked@[i]@, variables@[k].name.text@));
    }
}

/// A template can be read unless a dollar sign that is not escaped comes right before a letter
/// or digit beyond ASCII.
pub proof fn law_what_can_be_read(head: Seq<char>, rest: &str, text: &str, after: bool, r: bool)
    requires
        text@ == head + rest@,
        call_ensures(is_readable, (rest,), after),
        call_ensures(is_readable, (text,), r),
    ensures
        !text@.contains('$') ==> r,
        head == seq!['$', '$'] ==> r == after,
        head == seq!['$'] && rest@.len() > 0 && rest@[0] != '$' && rest@[0] != '{' ==> r == (
        after && !(rest@[0] as u32 >= 0x80 && alphanumeric(rest@[0]))),
{
    lemma_first_of(text@, '$');
    if !text@.contains('$') {
        let n: int = first_of(text@, '$') as int;
        if n < text@.len() {
            assert(text@[n] == '$');
        }
        assert(text@.skip(n).len() == 0);
    }
    if head == seq!['$', '$'] || head == seq!['$'] {
        assert(text@[0] == '$');
        assert(first_of(text@, '$') == 0);
        assert(text@.skip(0) =~= text@);
        if head == seq!['$', '$'] {
            assert(text@[1] == '$');
            assert(text@.skip(2) =~= rest@);
        } else {
            assert(text@.skip(1) =~= rest@);
            if rest@.len() > 0 {
                assert(text@[1] == rest@[0]);
            }
        }
    }
}

/// A map is expanded entry by entry, key and value, and its later entries count. It is not
/// where a key or a value of it is not.
pub proof fn law_maps_are_expanded_entry_by_entry(
    fewer: TextMap,
    map: TextMap,
    variables: Vec<TaskVariable>,
    values: TextMap,
    noted: &mut VecSet<u64>,
    also: &mut VecSet<u64>,
    of_key: &mut VecSet<u64>,
    of_value: &mut VecSet<u64>,
    a: Option<TextMap>,
    b: Option<TextMap>,
    key: &str,
    value: &str,
    new_key: Option<String>,
    new_value: Option<String>,
)
    requires
        map.pairs() == fewer.pairs().push((key@, value@)),
        call_ensures(
            substitute_all_template_variables_in_map,
            (&fewer, &variables, &values, noted),
            a,
        ),
        call_ensures(
            substitute_all_template_variables_in_map,
            (&map, &variables, &values, also),
            b,
        ),
        call_ensures(
            substitute_all_template_variables_in_str,
            (key, &variables, &values, of_key),
            new_key,
        ),
        call_ensures(
            substitute_all_template_variables_in_str,
            (value, &variables, &values, of_value),
            new_value,
        ),
    ensures
        b is Some <==> a is Some && new_key is Some && new_value is Some,
        b is Some ==> b->0@ == a->0@.insert(new_key->0@, new_value->0@),
        fewer.pairs().len() == 0 ==> a is Some && a->0@ == Map::<Seq<char>, Seq<char>>::empty(),
        b is Some && *old(noted) == *old(also) && *old(noted) == *old(of_key) && *old(noted)
            == *old(of_value) ==> final(also)@ == final(noted)@.union(final(of_key)@).union(
            final(of_value)@,
        ),
{
    let all = map.pairs();
    assert(all.drop_last() =~= fewer.pairs());
    if b is Some {
        crate::text_map::lemma_with_entry_inserts(a->0.pairs(), new_key->0@, new_value->0@);
        if *old(noted) == *old(also) && *old(noted) == *old(of_key) && *old(noted) == *old(
            of_value,
        ) {
            assert(final(also)@ =~= final(noted)@.union(final(of_key)@).union(final(of_value)@));
        }
    }
    if fewer.pairs().len() == 0 {
        assert(a->0@ =~= Map::<Seq<char>, Seq<char>>::empty());
    }
}

} // verus!
