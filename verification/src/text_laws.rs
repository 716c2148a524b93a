//! Laws of texts and paths.

use vstd::prelude::*;
use crate::path::{
    file_name, join_path, last_name, path_before, path_text, push_path, AnyPath, Component, Os,
    RelPath,
};
use crate::text::{
    blank, decimal, decimal_text, digit, find_char, find_text, first_of, first_word, is_whitespace,
    join, lemma_byte_len_push, lemma_first_of, lemma_first_of_is, lemma_trimmed_start_len, len_utf8,
    lines, lines_of, normalize_line_endings, occurrence, signed_decimal_text, starts_with,
    str_before, text_before, texts, trim, trim_end, trim_start, trimmed_end, trimmed_start,
    whitespace, without_return, word_len, words, words_of,
};

verus! {

/// What is white space: what moves the place at which a text goes on and leaves no mark.
pub open spec fn is_space(c: char) -> bool {
    c == ' ' || c == '\t' || c == '\n' || c == '\u{b}' || c == '\u{c}' || c == '\r' || c
        == '\u{85}' || c == '\u{a0}' || c == '\u{1680}' || ('\u{2000}' <= c <= '\u{200a}') || c
        == '\u{2028}' || c == '\u{2029}' || c == '\u{202f}' || c == '\u{205f}' || c == '\u{3000}'
}

/// White space is what is listed, and a blank text is one that holds nothing else.
pub proof fn law_white_space(c: char, r: bool, text: &str, empty: bool)
    requires
        call_ensures(is_whitespace, (c,), r),
        call_ensures(blank, (text,), empty),
    ensures
        r == is_space(c),
        empty == forall|i: int| 0 <= i < text@.len() ==> is_space(#[trigger] text@[i]),
{
    lemma_space();
    if empty {
        assert forall|i: int| 0 <= i < text@.len() implies is_space(#[trigger] text@[i]) by {
            assert(whitespace(text@[i]));
        }
    }
    if forall|i: int| 0 <= i < text@.len() ==> is_space(#[trigger] text@[i]) {
        assert forall|i: int| 0 <= i < text@.len() implies whitespace(#[trigger] text@[i]) by {
            assert(is_space(text@[i]));
        }
    }
}

proof fn lemma_space()
    ensures
        forall|c: char| #[trigger] whitespace(c) == is_space(c),
        forall|c: char| #[trigger] is_space(c) == whitespace(c),
{
    assert forall|c: char| #[trigger] whitespace(c) == is_space(c) by {
        lemma_space_char(c);
    }
}

proof fn lemma_space_char(c: char)
    ensures
        whitespace(c) == is_space(c),
{
    let n: u32 = c as u32;
    assert(n <= 0x10ffff);
}

/// A text that holds nothing but white space.
pub open spec fn all_space(text: Seq<char>) -> bool {
    forall|i: int| 0 <= i < text.len() ==> is_space(#[trigger] text[i])
}

proof fn lemma_start(text: Seq<char>)
    ensures
        exists|k: int|
            0 <= k <= text.len() && all_space(#[trigger] text.take(k)) && trimmed_start(text)
                == text.skip(k),
    decreases text.len(),
{
    lemma_space();
    if text.len() > 0 && whitespace(text.first()) {
        let rest = text.drop_first();
        lemma_start(rest);
        let k: int = choose|k: int|
            0 <= k <= rest.len() && all_space(#[trigger] rest.take(k)) && trimmed_start(rest)
                == rest.skip(k);
        let front = text.take(k + 1);
        assert forall|i: int| 0 <= i < front.len() implies is_space(#[trigger] front[i]) by {
            if i > 0 {
                assert(rest.take(k)[i - 1] == front[i]);
            }
        }
        assert(text.skip(k + 1) =~= rest.skip(k));
    } else {
        assert(text.take(0) =~= Seq::empty());
        assert(text.skip(0) =~= text);
    }
}

proof fn lemma_end(text: Seq<char>)
    ensures
        exists|k: int|
            0 <= k <= text.len() && all_space(#[trigger] text.skip(k)) && trimmed_end(text)
                == text.take(k),
        trimmed_end(text).len() > 0 ==> !is_space(trimmed_end(text).last()),
    decreases text.len(),
{
    lemma_space();
    if text.len() > 0 && whitespace(text.last()) {
        let rest = text.drop_last();
        lemma_end(rest);
        let k: int = choose|k: int|
            0 <= k <= rest.len() && all_space(#[trigger] rest.skip(k)) && trimmed_end(rest)
                == rest.take(k);
        let back = text.skip(k);
        assert forall|i: int| 0 <= i < back.len() implies is_space(#[trigger] back[i]) by {
            if i < back.len() - 1 {
                assert(rest.skip(k)[i] == back[i]);
            }
        }
        assert(text.take(k) =~= rest.take(k));
    } else {
        let all: int = text.len() as int;
        assert(text.skip(all) =~= Seq::empty());
        assert(text.take(all) =~= text);
    }
}

/// What trimming takes from a text is the white space at its start, at its end, or at both.
pub proof fn law_trimming_takes_the_space_around(
    text: &str,
    front: String,
    back: String,
    both: String,
    rest: &str,
    both_rest: String,
)
    requires
        call_ensures(trim_start, (text,), front),
        call_ensures(trim_end, (text,), back),
        call_ensures(trim, (text,), both),
        rest@ == front@,
        call_ensures(trim_end, (rest,), both_rest),
    ensures
        front@.len() <= text@.len() && front@ == text@.skip(text@.len() - front@.len())
            && all_space(text@.take(text@.len() - front@.len())),
        front@.len() > 0 ==> !is_space(front@.first()),
        back@.is_prefix_of(text@) && all_space(text@.skip(back@.len() as int)),
        back@.len() > 0 ==> !is_space(back@.last()),
        both@ == both_rest@,
{
    lemma_space();
    lemma_start(text@);
    lemma_trimmed_start_len(text@);
    lemma_end(text@);
    let k: int = choose|k: int|
        0 <= k <= text@.len() && all_space(#[trigger] text@.take(k)) && trimmed_start(text@)
            == text@.skip(k);
    assert(k == text@.len() - front@.len());
    let e: int = choose|k: int|
        0 <= k <= text@.len() && all_space(#[trigger] text@.skip(k)) && trimmed_end(text@)
            == text@.take(k);
    assert(e == back@.len());
}

/// The number that digits stand for.
pub open spec fn number_of(digits: Seq<char>) -> int
    decreases digits.len(),
{
    if digits.len() == 0 {
        0
    } else {
        10 * number_of(digits.drop_last()) + (digits.last() as int - '0' as int)
    }
}

proof fn lemma_decimal(n: nat)
    ensures
        number_of(decimal(n)) == n,
        decimal(n).len() > 0,
        forall|i: int| 0 <= i < decimal(n).len() ==> '0' <= #[trigger] decimal(n)[i] <= '9',
        n > 0 ==> decimal(n)[0] != '0',
        n == 0 ==> decimal(n).len() == 1,
    decreases n,
{
    reveal_with_fuel(number_of, 2);
    let d: nat = n % 10;
    assert(digit(d) as int == 48 + d);
    if n < 10 {
        assert(decimal(n) =~= seq![digit(n)]);
        assert(decimal(n).drop_last() =~= Seq::empty());
    } else {
        lemma_decimal(n / 10);
        let text = decimal(n);
        assert(text.drop_last() =~= decimal(n / 10));
        assert forall|i: int| 0 <= i < text.len() implies '0' <= #[trigger] text[i] <= '9' by {
            if i < text.len() - 1 {
                assert(text[i] == decimal(n / 10)[i]);
            }
        }
    }
}

/// The text of a number is its digits, without needless zeros, and stands for the number.
/// Below zero a sign comes before them.
pub proof fn law_digits_stand_for_the_number(n: u64, r: String, m: i64, signed: String)
    requires
        call_ensures(decimal_text, (n,), r),
        call_ensures(signed_decimal_text, (m,), signed),
    ensures
        number_of(r@) == n,
        forall|i: int| 0 <= i < r@.len() ==> '0' <= #[trigger] r@[i] <= '9',
        n > 0 ==> r@[0] != '0',
        n == 0 ==> r@.len() == 1,
        m >= 0 ==> number_of(signed@) == m && '0' <= signed@[0] <= '9',
        m < 0 ==> signed@.len() > 1 && signed@[0] == '-' && number_of(signed@.skip(1)) == -m
            && '0' < signed@[1] <= '9',
{
    lemma_decimal(n as nat);
    if m >= 0 {
        lemma_decimal(m as nat);
    } else {
        lemma_decimal((-m) as nat);
        assert(signed@.skip(1) =~= decimal((-m) as nat));
        assert(signed@[1] == decimal((-m) as nat)[0]);
    }
}

/// A character takes as many bytes as its encoding has.
pub proof fn law_bytes_of_a_character(c: char, r: usize)
    requires
        call_ensures(len_utf8, (c,), r),
    ensures
        r == vstd::utf8::encode_utf8(seq![c]).len(),
{
    lemma_byte_len_push(Seq::empty(), c);
    assert(Seq::empty().push(c) =~= seq![c]);
}

/// Texts are joined one after the other, with the separator between any two of them.
pub proof fn law_joined_texts(
    parts: Vec<String>,
    more: Vec<String>,
    last: String,
    separator: &str,
    r: String,
    with_last: String,
)
    requires
        more@ == parts@.push(last),
        call_ensures(join, (&parts, separator), r),
        call_ensures(join, (&more, separator), with_last),
    ensures
        parts@.len() == 0 ==> r@.len() == 0 && with_last@ == last@,
        parts@.len() > 0 ==> with_last@ == r@ + separator@ + last@,
{
    assert(texts(more@).drop_last() =~= texts(parts@));
    assert(texts(more@).last() == last@);
    if parts@.len() == 0 {
        assert(texts(more@)[0] == last@);
    }
}

/// A character is found at the first place that holds it, and at the end where none does.
pub proof fn law_first_place_is_found(chars: Vec<char>, from: usize, c: char, r: usize)
    requires
        from <= chars@.len(),
        call_ensures(find_char, (&chars, from, c), r),
    ensures
        from <= r <= chars@.len(),
        r < chars@.len() ==> chars@[r as int] == c,
        forall|k: int| from <= k < r ==> #[trigger] chars@[k] != c,
{
    let rest = chars@.skip(from as int);
    lemma_first_of(rest, c);
    assert forall|k: int| from <= k < r implies #[trigger] chars@[k] != c by {
        assert(rest[k - from] == chars@[k]);
    }
    if r < chars@.len() {
        assert(rest[r - from] == chars@[r as int]);
    }
}

proof fn lemma_line(line: Seq<char>, rest: Seq<char>)
    requires
        !line.contains('\n'),
    ensures
        lines(line + seq!['\n'] + rest) == seq![without_return(line)] + lines(rest),
{
    let text = line + seq!['\n'] + rest;
    assert forall|k: int| 0 <= k < line.len() implies #[trigger] text[k] != '\n' by {
        assert(text[k] == line[k]);
    }
    assert(text[line.len() as int] == '\n');
    lemma_first_of_is(text, '\n', line.len());
    assert(text.take(line.len() as int) =~= line);
    assert(text.skip((line.len() + 1) as int) =~= rest);
}

/// The lines of a text are what its line feeds part it into, without a carriage return right
/// before them. A text that ends with a line feed has no line after it.
pub proof fn law_line_feeds_part_the_lines(
    line: &str,
    rest: &str,
    text: &str,
    alone: Vec<String>,
    others: Vec<String>,
    r: Vec<String>,
)
    requires
        !line@.contains('\n'),
        call_ensures(lines_of, (line,), alone),
        call_ensures(lines_of, (rest,), others),
        call_ensures(lines_of, (text,), r),
    ensures
        line@.len() == 0 ==> alone@.len() == 0,
        line@.len() > 0 ==> alone@.len() == 1 && alone@[0]@ == line@,
        (line@.len() == 0 || line@.last() != '\r') && (text@ == line@ + seq!['\n'] + rest@
            || text@ == line@ + seq!['\r', '\n'] + rest@) ==> r@.len() == others@.len() + 1
            && r@[0]@ == line@ && forall|i: int|
            0 <= i < others@.len() ==> #[trigger] r@[i + 1]@ == others@[i]@,
{
    lemma_first_of(line@, '\n');
    if line@.len() > 0 {
        assert(first_of(line@, '\n') >= line@.len()) by {
            if first_of(line@, '\n') < line@.len() {
                assert(line@[first_of(line@, '\n') as int] == '\n');
            }
        }
        assert(texts(alone@).len() == 1 && texts(alone@)[0] == line@);
    } else {
        assert(texts(alone@).len() == 0);
    }
    if line@.len() == 0 || line@.last() != '\r' {
        let all = seq![line@] + lines(rest@);
        if text@ == line@ + seq!['\n'] + rest@ {
            lemma_line(line@, rest@);
            assert(texts(r@) == all);
        } else if text@ == line@ + seq!['\r', '\n'] + rest@ {
            let ended = line@.push('\r');
            assert(!ended.contains('\n')) by {
                if ended.contains('\n') {
                    let k: int = choose|k: int| 0 <= k < ended.len() && ended[k] == '\n';
                    assert(k < line@.len());
                    assert(line@[k] == '\n');
                }
            }
            lemma_line(ended, rest@);
            assert(ended + seq!['\n'] + rest@ =~= text@);
            assert(ended.drop_last() =~= line@);
            assert(texts(r@) == all);
        }
        if texts(r@) == all {
            assert(texts(r@)[0] == line@);
            assert(texts(others@) == lines(rest@));
            assert(r@.len() == all.len());
            assert(r@.len() == others@.len() + 1);
            assert forall|i: int| 0 <= i < others@.len() implies #[trigger] r@[i + 1]@
                == others@[i]@ by {
                assert(texts(r@)[i + 1] == all[i + 1]);
                assert(all[i + 1] == lines(rest@)[i]);
                assert(texts(others@)[i] == others@[i]@);
            }
        }
    }
}

proof fn lemma_word_ends(word: Seq<char>, rest: Seq<char>)
    requires
        forall|i: int| 0 <= i < word.len() ==> !whitespace(#[trigger] word[i]),
        rest.len() > 0 ==> whitespace(rest[0]),
    ensures
        word_len(word + rest) == word.len(),
    decreases word.len(),
{
    let text = word + rest;
    if word.len() > 0 {
        assert(text.first() == word[0]);
        assert(text.drop_first() =~= word.drop_first() + rest);
        assert forall|i: int| 0 <= i < word.drop_first().len() implies !whitespace(
            #[trigger] word.drop_first()[i],
        ) by {
            assert(word.drop_first()[i] == word[i + 1]);
        }
        lemma_word_ends(word.drop_first(), rest);
    } else {
        assert(text =~= rest);
    }
}

/// The words of a text are what its white space parts it into. White space at its start is
/// passed over.
pub proof fn law_space_parts_the_words(
    word: &str,
    gap: char,
    rest: &str,
    text: &str,
    indented: &str,
    alone: Vec<String>,
    others: Vec<String>,
    r: Vec<String>,
    passed: Vec<String>,
)
    requires
        word@.len() > 0,
        forall|i: int| 0 <= i < word@.len() ==> !is_space(#[trigger] word@[i]),
        is_space(gap),
        text@ == word@ + seq![gap] + rest@,
        indented@ == seq![gap] + rest@,
        call_ensures(words_of, (word,), alone),
        call_ensures(words_of, (rest,), others),
        call_ensures(words_of, (text,), r),
        call_ensures(words_of, (indented,), passed),
    ensures
        texts(alone@) == seq![word@],
        texts(r@) == seq![word@] + texts(others@),
        texts(passed@) == texts(others@),
        rest@.len() == 0 ==> others@.len() == 0,
{
    lemma_space();
    assert(word@ + Seq::<char>::empty() =~= word@);
    lemma_word_ends(word@, Seq::empty());
    assert(whitespace(word@.first()) == false);
    assert(trimmed_start(word@) == word@);
    assert(word@.take(word@.len() as int) =~= word@);
    let nothing = word@.skip(word@.len() as int);
    assert(nothing =~= Seq::<char>::empty());
    assert(words(nothing) =~= Seq::empty());
    assert(texts(alone@) =~= seq![word@]);
    let gapped = seq![gap] + rest@;
    assert(text@ =~= word@ + gapped);
    lemma_word_ends(word@, gapped);
    assert(text@.first() == word@[0]);
    assert(trimmed_start(text@) == text@);
    assert(text@.take(word@.len() as int) =~= word@);
    assert(text@.skip(word@.len() as int) =~= gapped);
    assert(gapped.drop_first() =~= rest@);
    assert(trimmed_start(gapped) == trimmed_start(rest@));
    assert(words(gapped) == words(rest@)) by {
        assert(first_word(gapped) == first_word(rest@));
    }
    if rest@.len() == 0 {
        assert(words(rest@) =~= Seq::empty());
        assert(texts(others@).len() == 0);
    }
}

proof fn lemma_occurs(text: Seq<char>, part: Seq<char>, k: int)
    requires
        0 <= k,
        k + part.len() <= text.len(),
        text.subrange(k, k + part.len()) == part,
    ensures
        occurrence(text, part) is Some,
        occurrence(text, part)->0 <= k,
    decreases k,
{
    if k == 0 {
        assert(text.take(part.len() as int) =~= text.subrange(0, part.len() as int));
    } else if !starts_with(text, part) {
        let rest = text.drop_first();
        assert(rest.subrange(k - 1, k - 1 + part.len()) =~= text.subrange(k, k + part.len()));
        lemma_occurs(rest, part, k - 1);
    }
}

proof fn lemma_occurs_there(text: Seq<char>, part: Seq<char>)
    requires
        occurrence(text, part) is Some,
    ensures
        occurrence(text, part)->0 + part.len() <= text.len(),
        text.subrange(
            occurrence(text, part)->0 as int,
            occurrence(text, part)->0 + part.len() as int,
        ) == part,
    decreases text.len(),
{
    if starts_with(text, part) {
        assert(text.subrange(0, part.len() as int) =~= text.take(part.len() as int));
    } else {
        let rest = text.drop_first();
        lemma_occurs_there(rest, part);
        let k: int = occurrence(rest, part)->0 as int;
        assert(text.subrange(k + 1, k + 1 + part.len()) =~= rest.subrange(k, k + part.len()));
    }
}

/// A text is found at the first place at which it stands in another, and only there.
pub proof fn law_first_occurrence_is_found(text: Vec<char>, part: &str, r: Option<usize>)
    requires
        call_ensures(find_text, (&text, part), r),
    ensures
        r matches Some(at) ==> at + part@.len() <= text@.len() && text@.subrange(
            at as int,
            at + part@.len() as int,
        ) == part@,
        forall|k: int|
            0 <= k && k + part@.len() <= text@.len() && #[trigger] text@.subrange(
                k,
                k + part@.len(),
            ) == part@ ==> r is Some && r->0 <= k,
{
    if r is Some {
        lemma_occurs_there(text@, part@);
    }
    assert forall|k: int|
        0 <= k && k + part@.len() <= text@.len() && #[trigger] text@.subrange(k, k + part@.len())
            == part@ implies r is Some && r->0 <= k by {
        lemma_occurs(text@, part@, k);
    }
}

/// Every line ends with a line feed alone once its endings are made alike. A carriage return
/// before a line feed goes, one that stands alone becomes a line feed, and all else stays.
pub proof fn law_line_endings_become_alike(
    head: Seq<char>,
    rest: &str,
    text: &str,
    after: String,
    r: String,
)
    requires
        text@ == head + rest@,
        call_ensures(normalize_line_endings, (rest,), after),
        call_ensures(normalize_line_endings, (text,), r),
    ensures
        head == seq!['\r', '\n'] ==> r@ == seq!['\n'] + after@,
        head == seq!['\r'] && (rest@.len() == 0 || rest@[0] != '\n') ==> r@ == seq!['\n']
            + after@,
        head.len() == 1 && head[0] != '\r' ==> r@ == head + after@,
        rest@.len() == 0 ==> after@.len() == 0,
{
    if head.len() == 1 {
        assert(text@.skip(1) =~= rest@);
        assert(text@[0] == head[0]);
        assert(seq![text@[0]] =~= head);
        if text@.len() > 1 {
            assert(text@[1] == rest@[0]);
        }
    }
    if head == seq!['\r', '\n'] {
        assert(text@[0] == '\r' && text@[1] == '\n');
        assert(text@.skip(2) =~= rest@);
    }
}

/// Whether a text precedes another one: where they first differ it has the lower character,
/// or it ends there.
pub open spec fn precedes(a: Seq<char>, b: Seq<char>) -> bool {
    exists|k: int|
        0 <= k <= a.len() && k < b.len() && #[trigger] a.take(k) == b.take(k) && (k == a.len()
            || a[k] < b[k])
}

proof fn lemma_precedes(a: Seq<char>, b: Seq<char>)
    ensures
        text_before(a, b) == precedes(a, b),
    decreases a.len(),
{
    if b.len() > 0 && a.len() > 0 && a[0] == b[0] {
        let x = a.drop_first();
        let y = b.drop_first();
        lemma_precedes(x, y);
        if precedes(x, y) {
            let k: int = choose|k: int|
                0 <= k <= x.len() && k < y.len() && #[trigger] x.take(k) == y.take(k) && (k
                    == x.len() || x[k] < y[k]);
            assert forall|i: int| 0 <= i < k + 1 implies a[i] == b[i] by {
                if i > 0 {
                    assert(x.take(k)[i - 1] == y.take(k)[i - 1]);
                }
            }
            assert(a.take(k + 1) =~= b.take(k + 1));
        }
        if precedes(a, b) {
            let k: int = choose|k: int|
                0 <= k <= a.len() && k < b.len() && #[trigger] a.take(k) == b.take(k) && (k
                    == a.len() || a[k] < b[k]);
            assert(k > 0);
            assert forall|i: int| 0 <= i < k - 1 implies x[i] == y[i] by {
                assert(a.take(k)[i + 1] == b.take(k)[i + 1]);
            }
            assert(x.take(k - 1) =~= y.take(k - 1));
        }
    } else if b.len() > 0 {
        assert(a.take(0) =~= b.take(0));
        if precedes(a, b) {
            let k: int = choose|k: int|
                0 <= k <= a.len() && k < b.len() && #[trigger] a.take(k) == b.take(k) && (k
                    == a.len() || a[k] < b[k]);
            if k > 0 {
                assert(a.take(k)[0] == b.take(k)[0]);
            }
        }
    }
}

/// Texts are ordered by the first character in which they differ, and a text comes after
/// what it starts with.
pub proof fn law_first_difference_decides(a: &str, b: &str, r: bool)
    requires
        call_ensures(str_before, (a, b), r),
    ensures
        r == precedes(a@, b@),
{
    lemma_precedes(a@, b@);
}

/// Whether a path precedes another one: where they first differ it has the name that
/// precedes, or it ends there.
pub open spec fn path_precedes(a: Seq<Seq<char>>, b: Seq<Seq<char>>) -> bool {
    exists|k: int|
        0 <= k <= a.len() && k < b.len() && #[trigger] a.take(k) == b.take(k) && (k == a.len()
            || (a[k] != b[k] && precedes(a[k], b[k])))
}

proof fn lemma_path_precedes(a: Seq<Seq<char>>, b: Seq<Seq<char>>)
    ensures
        path_before(a, b) == path_precedes(a, b),
    decreases a.len(),
{
    if b.len() > 0 && a.len() > 0 && a[0] == b[0] {
        let x = a.drop_first();
        let y = b.drop_first();
        lemma_path_precedes(x, y);
        if path_precedes(x, y) {
            let k: int = choose|k: int|
                0 <= k <= x.len() && k < y.len() && #[trigger] x.take(k) == y.take(k) && (k
                    == x.len() || (x[k] != y[k] && precedes(x[k], y[k])));
            assert forall|i: int| 0 <= i < k + 1 implies a[i] == b[i] by {
                if i > 0 {
                    assert(x.take(k)[i - 1] == y.take(k)[i - 1]);
                }
            }
            assert(a.take(k + 1) =~= b.take(k + 1));
        }
        if path_precedes(a, b) {
            let k: int = choose|k: int|
                0 <= k <= a.len() && k < b.len() && #[trigger] a.take(k) == b.take(k) && (k
                    == a.len() || (a[k] != b[k] && precedes(a[k], b[k])));
            assert(k > 0);
            assert forall|i: int| 0 <= i < k - 1 implies x[i] == y[i] by {
                assert(a.take(k)[i + 1] == b.take(k)[i + 1]);
            }
            assert(x.take(k - 1) =~= y.take(k - 1));
        }
    } else if b.len() > 0 {
        assert(a.take(0) =~= b.take(0));
        if a.len() > 0 {
            lemma_precedes(a[0], b[0]);
        }
        if path_precedes(a, b) {
            let k: int = choose|k: int|
                0 <= k <= a.len() && k < b.len() && #[trigger] a.take(k) == b.take(k) && (k
                    == a.len() || (a[k] != b[k] && precedes(a[k], b[k])));
            if k > 0 {
                assert(a.take(k)[0] == b.take(k)[0]);
            }
        }
    }
}

/// Paths are ordered by the first name in which they differ, and a path comes after the
/// directories that it is in.
pub proof fn law_first_name_decides(a: RelPath, b: RelPath, r: bool)
    requires
        call_ensures(RelPath::comes_before, (&a, &b), r),
    ensures
        r == path_precedes(a@, b@),
{
    lemma_path_precedes(a@, b@);
}

/// A path is in a directory just where it is the path of the directory and a path in it. What
/// is left without the directory, joined to it, is the path again. The parent of a path is
/// all of it but its last name.
pub proof fn law_paths_and_directories(
    path: RelPath,
    dir: RelPath,
    inside: bool,
    rest: Option<RelPath>,
    above: Option<RelPath>,
    name: Option<&String>,
    is_parent: bool,
)
    requires
        call_ensures(RelPath::starts_with, (&path, &dir), inside),
        call_ensures(RelPath::strip_prefix, (&path, &dir), rest),
        call_ensures(RelPath::parent, (&path,), above),
        call_ensures(RelPath::file_name, (&path,), name),
        call_ensures(RelPath::is_parent_of, (&dir, &path), is_parent),
    ensures
        inside == dir@.is_prefix_of(path@),
        rest is Some == inside,
        rest matches Some(rest) ==> dir@ + rest@ == path@,
        above is Some == (path@.len() > 0) && name is Some == (path@.len() > 0),
        above matches Some(above) ==> path@ == above@.push(name->0@),
        is_parent == (above is Some && above->0@ == dir@),
{
    if dir@.len() <= path@.len() {
        assert(path@.take(dir@.len() as int) == path@.subrange(0, dir@.len() as int));
    }
    if inside {
        assert(dir@ + path@.skip(dir@.len() as int) =~= path@);
    }
    if path@.len() > 0 {
        assert(path@ =~= path@.drop_last().push(path@.last()));
    }
}

/// A part that is relative is added to a path behind a separator, unless the path is empty
/// or ends with one. A part that is absolute replaces the path.
pub proof fn law_joined_paths(base: &str, part: &str, r: String, pushed: String)
    requires
        call_ensures(join_path, (base, part), r),
        call_ensures(push_path, (base, part, Os::Other), pushed),
    ensures
        r@ == pushed@,
        seq!['/'].is_prefix_of(part@) ==> r@ == part@,
        !seq!['/'].is_prefix_of(part@) && base@.len() == 0 ==> r@ == part@,
        !seq!['/'].is_prefix_of(part@) && base@.len() > 0 && base@.last() == '/' ==> r@ == base@
            + part@,
        !seq!['/'].is_prefix_of(part@) && base@.len() > 0 && base@.last() != '/' ==> r@ == base@
            + seq!['/'] + part@,
{
    if part@.len() > 0 {
        assert(part@.subrange(0, 1) =~= seq![part@[0]]);
        assert(seq!['/'].is_prefix_of(part@) <==> part@[0] == '/') by {
            assert(seq![part@[0]][0] == part@[0]);
            if seq!['/'].is_prefix_of(part@) {
                assert(part@.subrange(0, 1)[0] == '/');
            }
        }
    }
    assert(base@.push('/') + part@ =~= base@ + seq!['/'] + part@);
    assert(Seq::<char>::empty() + part@ =~= part@);
    assert(base@.len() == 0 ==> base@ + part@ =~= part@);
}

/// On Windows a part that is relative is added behind a backslash, unless the path ends with
/// a separator of either kind.
pub proof fn law_joined_paths_on_windows(base: &str, part: &str, r: String)
    requires
        call_ensures(push_path, (base, part, Os::Windows), r),
        base@.len() > 2,
        part@.len() > 1,
        part@[0] != '/' && part@[0] != '\\' && part@[1] != ':',
    ensures
        base@.last() == '/' || base@.last() == '\\' ==> r@ == base@ + part@,
        base@.last() != '/' && base@.last() != '\\' ==> r@ == base@ + seq!['\\'] + part@,
{
    assert(base@.push('\\') + part@ =~= base@ + seq!['\\'] + part@);
}

/// The text of a path is its components with a slash between any two of them, behind a
/// slash where it is absolute. The name of a path is its last component that is a name, and
/// its text where there is none.
pub proof fn law_texts_of_paths(
    path: AnyPath,
    longer: AnyPath,
    last: Component,
    text: String,
    longer_text: String,
    name: String,
    longer_name: String,
)
    requires
        longer.absolute == path.absolute,
        longer.components@ == path.components@.push(last),
        call_ensures(AnyPath::to_text, (&path,), text),
        call_ensures(AnyPath::to_text, (&longer,), longer_text),
        call_ensures(file_name, (&path,), name),
        call_ensures(file_name, (&longer,), longer_name),
    ensures
        ({
            let part = match last {
                Component::Normal(name) => name@,
                Component::ParentDir => seq!['.', '.'],
                Component::CurDir => seq!['.'],
            };
            &&& path.components@.len() == 0 ==> text@ == (if path.absolute {
                seq!['/']
            } else {
                Seq::<char>::empty()
            }) && longer_text@ == text@ + part
            &&& path.components@.len() > 0 ==> longer_text@ == text@ + seq!['/'] + part
            &&& last is Normal ==> longer_name@ == part
            &&& !(last is Normal) && (exists|i: int|
                0 <= i < path.components@.len() && #[trigger] path.components@[i] is Normal)
                ==> longer_name@ == name@
            &&& !(last is Normal) && (forall|i: int|
                0 <= i < path.components@.len() ==> !(#[trigger] path.components@[i] is Normal))
                ==> longer_name@ == longer_text@ && name@ == text@
        }),
{
    let parts = path.components@;
    let more = longer.components@;
    assert(more.drop_last() =~= parts);
    assert(more.last() == last);
    lemma_last_name(parts);
    if parts.len() > 0 {
        let part = match last {
            Component::Normal(name) => name@,
            Component::ParentDir => seq!['.', '.'],
            Component::CurDir => seq!['.'],
        };
        assert(path_text(path.absolute, more) == path_text(path.absolute, parts).push('/') + part);
        assert(path_text(path.absolute, parts).push('/') + part =~= path_text(
            path.absolute,
            parts,
        ) + seq!['/'] + part);
    } else {
        assert(more[0] == last);
    }
}

proof fn lemma_last_name(parts: Seq<Component>)
    ensures
        last_name(parts) is Some <==> exists|i: int|
            0 <= i < parts.len() && #[trigger] parts[i] is Normal,
    decreases parts.len(),
{
    if parts.len() > 0 {
        let init = parts.drop_last();
        lemma_last_name(init);
        if exists|i: int| 0 <= i < parts.len() && #[trigger] parts[i] is Normal {
            let i: int = choose|i: int| 0 <= i < parts.len() && #[trigger] parts[i] is Normal;
            if i < init.len() {
                assert(init[i] is Normal);
            } else {
                assert(parts.last() is Normal);
            }
        }
        if last_name(parts) is Some {
            if parts.last() is Normal {
                assert(parts[parts.len() - 1] is Normal);
            } else {
                let i: int = choose|i: int| 0 <= i < init.len() && #[trigger] init[i] is Normal;
                assert(parts[i] is Normal);
            }
        }
    }
}

} // verus!
