//! Texts as sequences of characters.

use vstd::prelude::*;
use vstd::string::StringSliceAdditionalSpecFns;
use vstd::utf8::encode_utf8;

verus! {

/// `String::push` appends a character.
pub assume_specification[ String::push ](s: &mut String, c: char)
    ensures
        final(s)@ == old(s)@.push(c),
;

/// `String::push_str` appends a text.
pub assume_specification[ String::push_str ](s: &mut String, text: &str)
    ensures
        final(s)@ == old(s)@ + text@,
;

/// Whether a character has the property `White_Space` of Unicode.
pub open spec fn whitespace(c: char) -> bool {
    let n = c as u32;
    ||| 0x9 <= n <= 0xd
    ||| n == 0x20
    ||| n == 0x85
    ||| n == 0xa0
    ||| n == 0x1680
    ||| 0x2000 <= n <= 0x200a
    ||| n == 0x2028
    ||| n == 0x2029
    ||| n == 0x202f
    ||| n == 0x205f
    ||| n == 0x3000
}

/// Whether a character is white space.
pub fn is_whitespace(c: char) -> (r: bool)
    ensures
        r == whitespace(c),
{
    let n: u32 = c as u32;
    (0x9 <= n && n <= 0xd) || n == 0x20 || n == 0x85 || n == 0xa0 || n == 0x1680 || (0x2000 <= n
        && n <= 0x200a) || n == 0x2028 || n == 0x2029 || n == 0x202f || n == 0x205f || n == 0x3000
}

/// Whether a character is a letter or a digit, as `char::is_alphanumeric` tells.
pub uninterp spec fn alphanumeric(c: char) -> bool;

/// `char::is_alphanumeric` tells whether a character is a letter or a digit of any
/// script.
#[verifier::external_body]
pub(crate) fn is_alphanumeric(c: char) -> (r: bool)
    ensures
        r == alphanumeric(c),
{
    c.is_alphanumeric()
}

/// Whether all characters of a text are white space.
pub open spec fn is_blank(s: Seq<char>) -> bool {
    forall|i: int| 0 <= i < s.len() ==> whitespace(#[trigger] s[i])
}

/// Whether all characters of a text are white space.
pub fn blank(s: &str) -> (r: bool)
    ensures
        r == is_blank(s@),
{
    let chars = chars_of(s);
    let mut i: usize = 0;
    while i < chars.len()
        invariant
            i <= chars@.len(),
            chars@ == s@,
            forall|j: int| 0 <= j < i ==> whitespace(#[trigger] s@[j]),
        decreases chars.len() - i,
    {
        if !is_whitespace(chars[i]) {
            assert(!whitespace(s@[i as int]));
            return false;
        }
        i = i + 1;
    }
    true
}

/// The length of a text in bytes.
pub open spec fn byte_len(s: Seq<char>) -> nat {
    encode_utf8(s).len()
}

/// How many bytes a character takes.
pub open spec fn char_len(c: char) -> nat {
    if (c as u32) < 0x80 {
        1
    } else if (c as u32) < 0x800 {
        2
    } else if (c as u32) < 0x10000 {
        3
    } else {
        4
    }
}

/// How many bytes a character takes.
pub fn len_utf8(c: char) -> (r: usize)
    ensures
        r == char_len(c),
{
    let code: u32 = c as u32;
    if code < 0x80 {
        1
    } else if code < 0x800 {
        2
    } else if code < 0x10000 {
        3
    } else {
        4
    }
}

pub proof fn lemma_byte_len_push(s: Seq<char>, c: char)
    ensures
        byte_len(s.push(c)) == byte_len(s) + char_len(c),
    decreases s.len(),
{
    if s.len() == 0 {
        reveal_with_fuel(encode_utf8, 2);
        assert(s.push(c).drop_first() =~= Seq::empty());
        assert(s.push(c)[0] == c);
    } else {
        assert(s.push(c).drop_first() =~= s.drop_first().push(c));
        assert(s.push(c)[0] == s[0]);
        lemma_byte_len_push(s.drop_first(), c);
    }
}

pub proof fn lemma_byte_len_concat(a: Seq<char>, b: Seq<char>)
    ensures
        byte_len(a + b) == byte_len(a) + byte_len(b),
    decreases b.len(),
{
    if b.len() == 0 {
        assert(a + b =~= a);
        assert(encode_utf8(b) =~= Seq::empty());
    } else {
        let init = b.drop_last();
        lemma_byte_len_concat(a, init);
        assert(a + b =~= (a + init).push(b.last()));
        assert(b =~= init.push(b.last()));
        lemma_byte_len_push(a + init, b.last());
        lemma_byte_len_push(init, b.last());
    }
}

pub proof fn lemma_byte_len_bounds(s: Seq<char>)
    ensures
        s.len() <= byte_len(s),
    decreases s.len(),
{
    if s.len() > 0 {
        let init = s.drop_last();
        lemma_byte_len_bounds(init);
        assert(s =~= init.push(s.last()));
        lemma_byte_len_push(init, s.last());
    }
}

/// The length of a text in bytes.
pub fn text_len(s: &str) -> (r: usize)
    ensures
        r == byte_len(s@),
{
    s.as_bytes().len()
}

/// Two texts are the same where their bytes are.
proof fn lemma_same_bytes(a: Seq<char>, b: Seq<char>)
    requires
        encode_utf8(a) == encode_utf8(b),
    ensures
        a == b,
{
    vstd::utf8::encode_utf8_decode_utf8(a);
    vstd::utf8::encode_utf8_decode_utf8(b);
}

/// Whether two texts are the same.
pub fn str_eq(a: &str, b: &str) -> (r: bool)
    ensures
        r == (a@ == b@),
{
    let x: &[u8] = a.as_bytes();
    let y: &[u8] = b.as_bytes();
    if x.len() != y.len() {
        return false;
    }
    let mut i: usize = 0;
    while i < x.len()
        invariant
            i <= x@.len(),
            x@.len() == y@.len(),
            x@ == encode_utf8(a@),
            y@ == encode_utf8(b@),
            forall|j: int| 0 <= j < i ==> #[trigger] x@[j] == y@[j],
        decreases x.len() - i,
    {
        if x[i] != y[i] {
            assert(x@[i as int] != y@[i as int]);
            return false;
        }
        i = i + 1;
    }
    proof {
        assert(x@ =~= y@);
        lemma_same_bytes(a@, b@);
    }
    true
}

/// The characters of a text.
pub fn chars_of(s: &str) -> (r: Vec<char>)
    ensures
        r@ == s@,
{
    let mut r: Vec<char> = Vec::new();
    for c in iter: s.chars()
        invariant
            r@ == iter.seq().take(iter.index() as int),
            iter.seq() == s@,
    {
        r.push(c);
    }
    assert(r@ =~= s@);
    r
}

/// A text of some of the characters of a sequence.
pub fn text_of(chars: &Vec<char>, lo: usize, hi: usize) -> (r: String)
    requires
        lo <= hi <= chars@.len(),
    ensures
        r@ == chars@.subrange(lo as int, hi as int),
{
    let mut r: String = String::new();
    let mut i: usize = lo;
    assert(chars@.subrange(lo as int, lo as int) =~= Seq::empty());
    while i < hi
        invariant
            lo <= i <= hi <= chars@.len(),
            r@ == chars@.subrange(lo as int, i as int),
        decreases hi - i,
    {
        r.push(chars[i]);
        i = i + 1;
        assert(r@ =~= chars@.subrange(lo as int, i as int));
    }
    r
}

/// A copy of a text.
pub fn copy_text(s: &str) -> (r: String)
    ensures
        r@ == s@,
{
    s.to_owned()
}

/// Whether a text comes before another: at the first character in which they
/// differ, or where it ends first.
pub open spec fn text_before(a: Seq<char>, b: Seq<char>) -> bool
    decreases a.len(),
{
    if b.len() == 0 {
        false
    } else if a.len() == 0 {
        true
    } else if a[0] != b[0] {
        a[0] < b[0]
    } else {
        text_before(a.drop_first(), b.drop_first())
    }
}

pub proof fn lemma_text_before_total(a: Seq<char>, b: Seq<char>)
    ensures
        !text_before(a, a),
        a == b || text_before(a, b) || text_before(b, a),
        !(text_before(a, b) && text_before(b, a)),
    decreases a.len(),
{
    if a.len() > 0 {
        lemma_text_before_total(a.drop_first(), a.drop_first());
    }
    if a.len() > 0 && b.len() > 0 {
        if a[0] == b[0] {
            lemma_text_before_total(a.drop_first(), b.drop_first());
            if a.drop_first() == b.drop_first() {
                assert(a =~= seq![a[0]] + a.drop_first());
                assert(b =~= seq![b[0]] + b.drop_first());
            }
        }
    } else if a.len() == 0 && b.len() == 0 {
        assert(a =~= b);
    }
}

pub proof fn lemma_text_before_transitive(a: Seq<char>, b: Seq<char>, c: Seq<char>)
    requires
        text_before(a, b),
        text_before(b, c),
    ensures
        text_before(a, c),
    decreases a.len(),
{
    if a.len() > 0 && a[0] == b[0] && b[0] == c[0] {
        lemma_text_before_transitive(a.drop_first(), b.drop_first(), c.drop_first());
    }
}

proof fn lemma_text_before_at(a: Seq<char>, b: Seq<char>, i: int)
    requires
        0 <= i <= a.len(),
        i <= b.len(),
        forall|j: int| 0 <= j < i ==> #[trigger] a[j] == b[j],
    ensures
        i < a.len() && i < b.len() && a[i] != b[i] ==> text_before(a, b) == (a[i] < b[i]),
        i == a.len() || i == b.len() ==> text_before(a, b) == (a.len() < b.len()),
    decreases i,
{
    if i > 0 {
        assert(a[0] == b[0]);
        let x = a.drop_first();
        let y = b.drop_first();
        assert forall|j: int| 0 <= j < i - 1 implies #[trigger] x[j] == y[j] by {
            assert(a[j + 1] == b[j + 1]);
        }
        lemma_text_before_at(x, y, i - 1);
    }
}

/// Whether a text comes before another.
pub fn str_before(a: &str, b: &str) -> (r: bool)
    ensures
        r == text_before(a@, b@),
{
    let x: Vec<char> = chars_of(a);
    let y: Vec<char> = chars_of(b);
    let mut i: usize = 0;
    while i < x.len() && i < y.len()
        invariant
            i <= x@.len(),
            i <= y@.len(),
            x@ == a@,
            y@ == b@,
            forall|j: int| 0 <= j < i ==> #[trigger] x@[j] == y@[j],
        decreases x.len() - i,
    {
        if x[i] != y[i] {
            proof {
                lemma_text_before_at(x@, y@, i as int);
            }
            return x[i] < y[i];
        }
        i = i + 1;
    }
    proof {
        lemma_text_before_at(x@, y@, i as int);
    }
    x.len() < y.len()
}

/// The decimal digit of a number below ten.
pub open spec fn digit(d: nat) -> char {
    (('0' as u32) + d) as char
}

/// A number in decimal.
pub open spec fn decimal(n: nat) -> Seq<char>
    decreases n,
{
    if n < 10 {
        seq![digit(n)]
    } else {
        decimal(n / 10).push(digit(n % 10))
    }
}

fn digit_char(d: u64) -> (c: char)
    requires
        d < 10,
    ensures
        c == digit(d as nat),
{
    match d {
        0 => '0',
        1 => '1',
        2 => '2',
        3 => '3',
        4 => '4',
        5 => '5',
        6 => '6',
        7 => '7',
        8 => '8',
        _ => '9',
    }
}

/// Appends a number in decimal.
pub fn push_decimal(s: &mut String, n: u64)
    ensures
        final(s)@ == old(s)@ + decimal(n as nat),
    decreases n,
{
    let ghost start = s@;
    if n >= 10 {
        push_decimal(s, n / 10);
    }
    s.push(digit_char(n % 10));
    assert(s@ =~= start + decimal(n as nat));
}

/// A number in decimal.
pub fn decimal_text(n: u64) -> (r: String)
    ensures
        r@ == decimal(n as nat),
{
    let mut r: String = String::new();
    push_decimal(&mut r, n);
    assert(r@ =~= decimal(n as nat));
    r
}

/// A number in decimal, with its sign.
pub open spec fn signed_decimal(n: int) -> Seq<char> {
    if n < 0 {
        seq!['-'] + decimal((-n) as nat)
    } else {
        decimal(n as nat)
    }
}

/// A number in decimal, with its sign.
pub fn signed_decimal_text(n: i64) -> (r: String)
    ensures
        r@ == signed_decimal(n as int),
{
    let mut r: String = String::new();
    if n < 0 {
        r.push('-');
        let size: u64 = (-(n + 1)) as u64 + 1;
        push_decimal(&mut r, size);
        assert(r@ =~= signed_decimal(n as int));
    } else {
        push_decimal(&mut r, n as u64);
        assert(r@ =~= signed_decimal(n as int));
    }
    r
}

/// The texts of a sequence of strings.
pub open spec fn texts(parts: Seq<String>) -> Seq<Seq<char>> {
    Seq::new(parts.len(), |i: int| parts[i]@)
}

/// Texts one after the other with a separator between.
pub open spec fn joined(parts: Seq<Seq<char>>, separator: Seq<char>) -> Seq<char>
    decreases parts.len(),
{
    if parts.len() == 0 {
        Seq::empty()
    } else if parts.len() == 1 {
        parts[0]
    } else {
        joined(parts.drop_last(), separator) + separator + parts.last()
    }
}

/// Texts one after the other with a separator between.
pub fn join(parts: &Vec<String>, separator: &str) -> (r: String)
    ensures
        r@ == joined(texts(parts@), separator@),
{
    let mut r: String = String::new();
    let mut i: usize = 0;
    assert(texts(parts@).take(0) =~= Seq::empty());
    while i < parts.len()
        invariant
            i <= parts@.len(),
            r@ == joined(texts(parts@).take(i as int), separator@),
        decreases parts.len() - i,
    {
        if i > 0 {
            r.push_str(separator);
        }
        r.push_str(parts[i].as_str());
        proof {
            let next = texts(parts@).take(i + 1);
            assert(next.drop_last() =~= texts(parts@).take(i as int));
            assert(next.last() == parts@[i as int]@);
            assert(r@ =~= joined(next, separator@));
        }
        i = i + 1;
    }
    assert(texts(parts@).take(i as int) =~= texts(parts@));
    r
}

/// Copies of some texts.
pub fn copy_texts(parts: &Vec<String>) -> (r: Vec<String>)
    ensures
        texts(r@) == texts(parts@),
{
    let mut r: Vec<String> = Vec::new();
    let mut i: usize = 0;
    while i < parts.len()
        invariant
            i <= parts@.len(),
            r@.len() == i,
            forall|j: int| 0 <= j < i ==> (#[trigger] r@[j])@ == parts@[j]@,
        decreases parts.len() - i,
    {
        r.push(copy_text(parts[i].as_str()));
        i = i + 1;
    }
    assert(texts(r@) =~= texts(parts@));
    r
}

/// Where a character first occurs in a text, or the end of the text.
pub open spec fn first_of(text: Seq<char>, c: char) -> nat
    decreases text.len(),
{
    if text.len() == 0 || text.first() == c {
        0
    } else {
        1 + first_of(text.drop_first(), c)
    }
}

/// What `first_of` says of the characters.
pub proof fn lemma_first_of(text: Seq<char>, c: char)
    ensures
        first_of(text, c) <= text.len(),
        first_of(text, c) < text.len() ==> text[first_of(text, c) as int] == c,
        forall|k: int| 0 <= k < first_of(text, c) ==> #[trigger] text[k] != c,
    decreases text.len(),
{
    if text.len() > 0 && text.first() != c {
        let rest = text.drop_first();
        lemma_first_of(rest, c);
        assert forall|k: int| 0 <= k < first_of(text, c) implies #[trigger] text[k] != c by {
            if k > 0 {
                assert(rest[k - 1] == text[k]);
            }
        }
        if first_of(rest, c) < rest.len() {
            assert(rest[first_of(rest, c) as int] == text[first_of(text, c) as int]);
        }
    }
}

/// Only one place is the first at which a character occurs.
pub proof fn lemma_first_of_is(text: Seq<char>, c: char, n: nat)
    requires
        n <= text.len(),
        n < text.len() ==> text[n as int] == c,
        forall|k: int| 0 <= k < n ==> #[trigger] text[k] != c,
    ensures
        first_of(text, c) == n,
{
    lemma_first_of(text, c);
    let first = first_of(text, c);
    if first < n {
        assert(text[first as int] != c);
    } else if n < first {
        assert(text[n as int] != c);
    }
}

/// Finds a character from a place on.
pub fn find_char(chars: &Vec<char>, from: usize, c: char) -> (r: usize)
    requires
        from <= chars@.len(),
    ensures
        from <= r <= chars@.len(),
        r - from == first_of(chars@.skip(from as int), c),
{
    let mut i: usize = from;
    while i < chars.len() && chars[i] != c
        invariant
            from <= i <= chars@.len(),
            forall|k: int| from <= k < i ==> #[trigger] chars@[k] != c,
        decreases chars.len() - i,
    {
        i = i + 1;
    }
    proof {
        let rest = chars@.skip(from as int);
        assert forall|k: int| 0 <= k < i - from implies #[trigger] rest[k] != c by {
            assert(rest[k] == chars@[from + k]);
        }
        lemma_first_of_is(rest, c, (i - from) as nat);
    }
    i
}

/// A line without the carriage return before its line feed.
pub open spec fn without_return(line: Seq<char>) -> Seq<char> {
    if line.len() > 0 && line.last() == '\r' {
        line.drop_last()
    } else {
        line
    }
}

/// The lines of a text. A line feed, or a carriage return and a line feed, ends a
/// line; there is no line behind the last end.
pub open spec fn lines(text: Seq<char>) -> Seq<Seq<char>>
    decreases text.len(),
{
    let end = first_of(text, '\n');
    if text.len() == 0 {
        Seq::empty()
    } else if end >= text.len() {
        seq![text]
    } else {
        seq![without_return(text.take(end as int))] + lines(text.skip((end + 1) as int))
    }
}

/// The lines of a text.
pub fn lines_of(text: &str) -> (r: Vec<String>)
    ensures
        texts(r@) == lines(text@),
{
    let chars = chars_of(text);
    let mut r: Vec<String> = Vec::new();
    let mut i: usize = 0;
    assert(chars@.skip(0) =~= chars@);
    assert(texts(r@) + lines(chars@) =~= lines(chars@));
    while i < chars.len()
        invariant
            i <= chars@.len(),
            texts(r@) + lines(chars@.skip(i as int)) == lines(chars@),
        decreases chars.len() - i,
    {
        let ghost rest = chars@.skip(i as int);
        let ghost before = texts(r@);
        let end: usize = find_char(&chars, i, '\n');
        if end == chars.len() {
            let line = text_of(&chars, i, end);
            assert(line@ =~= rest);
            r.push(line);
            i = end;
            assert(lines(chars@.skip(i as int)) =~= Seq::empty());
            assert(texts(r@) =~= before.push(rest));
            assert(texts(r@) + lines(chars@.skip(i as int)) =~= before + lines(rest));
        } else {
            let mut stop: usize = end;
            if end > i && chars[end - 1] == '\r' {
                stop = end - 1;
            }
            let line = text_of(&chars, i, stop);
            assert(line@ =~= without_return(rest.take(end - i)));
            let ghost one = line@;
            r.push(line);
            assert(rest.skip(end - i + 1) =~= chars@.skip(end + 1));
            assert(texts(r@) =~= before.push(one));
            i = end + 1;
            assert(texts(r@) + lines(chars@.skip(i as int)) =~= before + lines(rest));
        }
    }
    assert(lines(chars@.skip(i as int)) =~= Seq::empty());
    assert(texts(r@) =~= lines(text@));
    r
}

/// Whether a text starts with another.
pub open spec fn starts_with(text: Seq<char>, prefix: Seq<char>) -> bool {
    prefix.len() <= text.len() && text.take(prefix.len() as int) == prefix
}

/// Whether a text starts with another.
pub fn has_prefix(text: &str, prefix: &str) -> (r: bool)
    ensures
        r == starts_with(text@, prefix@),
{
    let chars = chars_of(text);
    let start = chars_of(prefix);
    if chars.len() < start.len() {
        return false;
    }
    let mut i: usize = 0;
    while i < start.len()
        invariant
            i <= start@.len() <= chars@.len(),
            chars@ == text@,
            start@ == prefix@,
            forall|k: int| 0 <= k < i ==> chars@[k] == #[trigger] start@[k],
        decreases start.len() - i,
    {
        if chars[i] != start[i] {
            assert(text@.take(prefix@.len() as int)[i as int] == chars@[i as int]);
            return false;
        }
        i = i + 1;
    }
    assert(text@.take(prefix@.len() as int) =~= prefix@);
    true
}

/// A text in lower case, as `str::to_lowercase` writes it.
pub uninterp spec fn lowercase(text: Seq<char>) -> Seq<char>;

/// A letter of ASCII in lower case.
pub open spec fn ascii_lower(c: char) -> char {
    if 'A' <= c <= 'Z' {
        (c as int + 32) as char
    } else {
        c
    }
}

/// Whether a text holds nothing but characters of ASCII.
pub open spec fn is_ascii_text(text: Seq<char>) -> bool {
    forall|i: int| 0 <= i < text.len() ==> (#[trigger] text[i] as u32) < 0x80
}

/// `str::to_lowercase` writes a text in lower case. Of the characters of ASCII only the
/// letters change, each to one character.
#[verifier::external_body]
pub(crate) fn to_lowercase(text: &str) -> (r: String)
    ensures
        r@ == lowercase(text@),
        is_ascii_text(text@) ==> r@ == Seq::new(text@.len(), |i: int| ascii_lower(text@[i])),
{
    text.to_lowercase()
}

/// What the standard library writes for a text to debug with.
pub uninterp spec fn debug_text(text: Seq<char>) -> Seq<char>;

/// `format!` with `{:?}` writes a text as it stands in a program.
#[verifier::external_body]
pub(crate) fn format_debug(text: &str) -> (r: String)
    ensures
        r@ == debug_text(text@),
{
    format!("{:?}", text)
}

/// A text without the white space at its start.
pub open spec fn trimmed_start(text: Seq<char>) -> Seq<char>
    decreases text.len(),
{
    if text.len() > 0 && whitespace(text.first()) {
        trimmed_start(text.drop_first())
    } else {
        text
    }
}

/// A text without the white space at its end.
pub open spec fn trimmed_end(text: Seq<char>) -> Seq<char>
    decreases text.len(),
{
    if text.len() > 0 && whitespace(text.last()) {
        trimmed_end(text.drop_last())
    } else {
        text
    }
}

/// A text without the white space at either end.
pub open spec fn trimmed(text: Seq<char>) -> Seq<char> {
    trimmed_end(trimmed_start(text))
}

/// How many characters come before the first white space.
pub open spec fn word_len(text: Seq<char>) -> nat
    decreases text.len(),
{
    if text.len() == 0 || whitespace(text.first()) {
        0
    } else {
        1 + word_len(text.drop_first())
    }
}

/// A word is part of its text.
pub proof fn lemma_word_len(text: Seq<char>)
    ensures
        word_len(text) <= text.len(),
    decreases text.len(),
{
    if text.len() > 0 && !whitespace(text.first()) {
        lemma_word_len(text.drop_first());
    }
}

/// What is left of a text without white space at its start is no longer.
pub proof fn lemma_trimmed_start_len(text: Seq<char>)
    ensures
        trimmed_start(text).len() <= text.len(),
        trimmed_start(text).len() > 0 ==> !whitespace(trimmed_start(text).first()),
    decreases text.len(),
{
    if text.len() > 0 && whitespace(text.first()) {
        lemma_trimmed_start_len(text.drop_first());
    }
}

/// The first word of a text.
pub open spec fn first_word(text: Seq<char>) -> Seq<char> {
    let rest = trimmed_start(text);
    rest.take(word_len(rest) as int)
}

/// The words of a text, which white space parts.
pub open spec fn words(text: Seq<char>) -> Seq<Seq<char>>
    decreases text.len(),
{
    proof {
        lemma_trimmed_start_len(text);
        lemma_word_len(trimmed_start(text));
    }
    let rest = trimmed_start(text);
    if rest.len() == 0 {
        Seq::empty()
    } else {
        seq![first_word(text)] + words(rest.skip(word_len(rest) as int))
    }
}

/// Where the white space at a place ends.
pub fn skip_spaces(chars: &Vec<char>, from: usize) -> (r: usize)
    requires
        from <= chars@.len(),
    ensures
        from <= r <= chars@.len(),
        trimmed_start(chars@.skip(from as int)) == chars@.skip(r as int),
        r < chars@.len() ==> !whitespace(chars@[r as int]),
{
    let mut i: usize = from;
    while i < chars.len() && is_whitespace(chars[i])
        invariant
            from <= i <= chars@.len(),
            trimmed_start(chars@.skip(i as int)) == trimmed_start(chars@.skip(from as int)),
        decreases chars.len() - i,
    {
        proof {
            let rest = chars@.skip(i as int);
            assert(rest.drop_first() =~= chars@.skip(i + 1));
            assert(rest.first() == chars@[i as int]);
        }
        i = i + 1;
    }
    assert(i < chars@.len() ==> chars@.skip(i as int).first() == chars@[i as int]);
    i
}

/// Where the word at a place ends.
pub fn end_of_word(chars: &Vec<char>, from: usize) -> (r: usize)
    requires
        from <= chars@.len(),
    ensures
        from <= r <= chars@.len(),
        r - from == word_len(chars@.skip(from as int)),
{
    let mut i: usize = from;
    while i < chars.len() && !is_whitespace(chars[i])
        invariant
            from <= i <= chars@.len(),
            i - from + word_len(chars@.skip(i as int)) == word_len(chars@.skip(from as int)),
        decreases chars.len() - i,
    {
        proof {
            let rest = chars@.skip(i as int);
            assert(rest.drop_first() =~= chars@.skip(i + 1));
            assert(rest.first() == chars@[i as int]);
        }
        i = i + 1;
    }
    assert(i < chars@.len() ==> chars@.skip(i as int).first() == chars@[i as int]);
    i
}

/// The first word from a place on.
pub fn word_from(chars: &Vec<char>, from: usize) -> (r: String)
    requires
        from <= chars@.len(),
    ensures
        r@ == first_word(chars@.skip(from as int)),
{
    let start: usize = skip_spaces(chars, from);
    let end: usize = end_of_word(chars, start);
    let r = text_of(chars, start, end);
    assert(r@ =~= chars@.skip(start as int).take(end - start));
    r
}

/// The words of a text, which white space parts.
pub fn words_of(text: &str) -> (r: Vec<String>)
    ensures
        texts(r@) == words(text@),
{
    let chars = chars_of(text);
    let mut r: Vec<String> = Vec::new();
    let mut i: usize = skip_spaces(&chars, 0);
    assert(chars@.skip(0) =~= chars@);
    proof {
        lemma_words_trimmed(chars@);
        assert(texts(r@) + words(chars@.skip(i as int)) =~= words(chars@));
    }
    while i < chars.len()
        invariant
            i <= chars@.len(),
            i < chars@.len() ==> !whitespace(chars@[i as int]),
            texts(r@) + words(chars@.skip(i as int)) == words(chars@),
        decreases chars.len() - i,
    {
        let ghost rest = chars@.skip(i as int);
        let ghost before = texts(r@);
        assert(rest.first() == chars@[i as int]);
        assert(trimmed_start(rest) == rest);
        let end: usize = end_of_word(&chars, i);
        let word = text_of(&chars, i, end);
        assert(word@ =~= first_word(rest));
        let ghost one = word@;
        r.push(word);
        assert(texts(r@) =~= before.push(one));
        let next: usize = skip_spaces(&chars, end);
        proof {
            assert(rest.skip(end - i) =~= chars@.skip(end as int));
            lemma_words_trimmed(chars@.skip(end as int));
            lemma_word_len(rest);
            assert(word_len(rest) > 0);
            assert(texts(r@) + words(chars@.skip(next as int)) =~= before + words(rest));
        }
        i = next;
    }
    assert(texts(r@) =~= words(text@));
    r
}

proof fn lemma_words_trimmed(text: Seq<char>)
    ensures
        words(trimmed_start(text)) == words(text),
{
    lemma_trimmed_start_len(text);
    let rest = trimmed_start(text);
    assert(trimmed_start(rest) == rest);
}

/// A text without the white space at its start.
pub fn trim_start(text: &str) -> (r: String)
    ensures
        r@ == trimmed_start(text@),
{
    let chars = chars_of(text);
    let start: usize = skip_spaces(&chars, 0);
    assert(chars@.skip(0) =~= chars@);
    let r = text_of(&chars, start, chars.len());
    assert(r@ =~= chars@.skip(start as int));
    r
}

/// A text without the white space at its end.
pub fn trim_end(text: &str) -> (r: String)
    ensures
        r@ == trimmed_end(text@),
{
    let chars = chars_of(text);
    let mut end: usize = chars.len();
    assert(chars@.take(end as int) =~= chars@);
    while end > 0 && is_whitespace(chars[end - 1])
        invariant
            end <= chars@.len(),
            trimmed_end(chars@.take(end as int)) == trimmed_end(chars@),
        decreases end,
    {
        proof {
            let here = chars@.take(end as int);
            assert(here.drop_last() =~= chars@.take(end - 1));
            assert(here.last() == chars@[end - 1]);
        }
        end = end - 1;
    }
    assert(end > 0 ==> chars@.take(end as int).last() == chars@[end - 1]);
    let r = text_of(&chars, 0, end);
    assert(r@ =~= chars@.take(end as int));
    r
}

/// A text without the white space at either end.
pub fn trim(text: &str) -> (r: String)
    ensures
        r@ == trimmed(text@),
{
    let start = trim_start(text);
    trim_end(start.as_str())
}

/// Where a text first occurs in another, counted in characters.
pub open spec fn occurrence(text: Seq<char>, part: Seq<char>) -> Option<nat>
    decreases text.len(),
{
    if starts_with(text, part) {
        Some(0)
    } else if text.len() == 0 {
        None
    } else {
        match occurrence(text.drop_first(), part) {
            Some(n) => Some(n + 1),
            None => None,
        }
    }
}

fn starts_at(text: &Vec<char>, at: usize, part: &Vec<char>) -> (r: bool)
    requires
        at <= text@.len(),
    ensures
        r == starts_with(text@.skip(at as int), part@),
{
    let len: usize = text.len();
    if len - at < part.len() {
        return false;
    }
    let mut i: usize = 0;
    while i < part.len()
        invariant
            len == text@.len(),
            i <= part@.len() <= len - at,
            forall|k: int| 0 <= k < i ==> text@[at + k] == #[trigger] part@[k],
        decreases part.len() - i,
    {
        if text[at + i] != part[i] {
            assert(text@.skip(at as int).take(part@.len() as int)[i as int] == text@[at + i]);
            return false;
        }
        i = i + 1;
    }
    assert(text@.skip(at as int).take(part@.len() as int) =~= part@);
    true
}

/// Where a text first occurs in another, counted in characters.
pub fn find_text(text: &Vec<char>, part: &str) -> (r: Option<usize>)
    ensures
        match r {
            Some(at) => at + part@.len() <= text@.len() && occurrence(text@, part@) == Some(
                at as nat,
            ),
            None => occurrence(text@, part@) is None,
        },
{
    let part_chars = chars_of(part);
    let mut at: usize = 0;
    assert(text@.skip(0) =~= text@);
    while at <= text.len()
        invariant
            at <= text@.len() + 1,
            part_chars@ == part@,
            at <= text@.len() ==> occurrence(text@, part@) == (match occurrence(
                text@.skip(at as int),
                part@,
            ) {
                Some(n) => Some((at + n) as nat),
                None => None,
            }),
            at > text@.len() ==> occurrence(text@, part@) is None,
        decreases text.len() + 1 - at,
    {
        proof {
            let rest = text@.skip(at as int);
            if rest.len() > 0 {
                assert(rest.drop_first() =~= text@.skip(at + 1));
            }
        }
        if starts_at(text, at, &part_chars) {
            return Some(at);
        }
        if at == text.len() {
            return None;
        }
        at = at + 1;
    }
    None
}

/// A text in which every line ends with a line feed, in place of a carriage return or of
/// both.
pub open spec fn with_line_feeds(text: Seq<char>) -> Seq<char>
    decreases text.len(),
{
    if text.len() == 0 {
        Seq::empty()
    } else if text[0] != '\r' {
        seq![text[0]] + with_line_feeds(text.skip(1))
    } else if text.len() > 1 && text[1] == '\n' {
        seq!['\n'] + with_line_feeds(text.skip(2))
    } else {
        seq!['\n'] + with_line_feeds(text.skip(1))
    }
}

/// A text without a carriage return stays as it is.
pub proof fn lemma_line_feeds_stay(text: Seq<char>)
    requires
        !text.contains('\r'),
    ensures
        with_line_feeds(text) == text,
    decreases text.len(),
{
    if text.len() > 0 {
        let rest = text.skip(1);
        assert(text.contains(text[0]));
        assert(!rest.contains('\r')) by {
            if rest.contains('\r') {
                let k: int = choose|k: int| 0 <= k < rest.len() && rest[k] == '\r';
                assert(text[k + 1] == '\r');
            }
        }
        lemma_line_feeds_stay(rest);
        assert(seq![text[0]] + rest =~= text);
    } else {
        assert(with_line_feeds(text) =~= text);
    }
}

/// Ends every line of a text with a line feed.
pub fn normalize_line_endings(text: &str) -> (r: String)
    ensures
        r@ == with_line_feeds(text@),
{
    let chars = chars_of(text);
    let mut r = String::new();
    let mut i: usize = 0;
    assert(chars@.skip(0) =~= chars@);
    assert(r@ + with_line_feeds(chars@) =~= with_line_feeds(chars@));
    while i < chars.len()
        invariant
            i <= chars@.len(),
            r@ + with_line_feeds(chars@.skip(i as int)) == with_line_feeds(chars@),
        decreases chars.len() - i,
    {
        let ghost rest = chars@.skip(i as int);
        let ghost before = r@;
        assert(rest[0] == chars@[i as int]);
        if i + 1 < chars.len() {
            assert(rest[1] == chars@[i + 1]);
        }
        if chars[i] != '\r' {
            r.push(chars[i]);
            assert(rest.skip(1) =~= chars@.skip(i + 1));
            i = i + 1;
        } else if i + 1 < chars.len() && chars[i + 1] == '\n' {
            r.push('\n');
            assert(rest.skip(2) =~= chars@.skip(i + 2));
            i = i + 2;
        } else {
            r.push('\n');
            assert(rest.skip(1) =~= chars@.skip(i + 1));
            i = i + 1;
        }
        assert(r@ + with_line_feeds(chars@.skip(i as int)) =~= before + with_line_feeds(rest));
    }
    assert(r@ =~= with_line_feeds(text@));
    r
}

} // verus!
