//! The hosts that the configuration of SSH names.

use vstd::prelude::*;
use crate::text::{
    chars_of, copy_text, first_word, has_prefix, is_whitespace, lines, lines_of, starts_with,
    text_before, text_of, texts, trim_end, trim_start, trimmed_end, trimmed_start, whitespace, words, words_of,
};
use crate::text_set::{in_order, TextSet};

verus! {

/// Whether a word names a host: not a pattern, and not one to be left out.
pub open spec fn names_host(word: Seq<char>) -> bool {
    !starts_with(word, seq!['!']) && !word.contains('*')
}

/// The hosts that a line names.
pub open spec fn hosts_in(line: Seq<char>) -> Set<Seq<char>> {
    Set::new(|word: Seq<char>| words(line).contains(word) && names_host(word))
}

/// Whether a line says that the next one belongs to it.
pub open spec fn goes_on(line: Seq<char>) -> bool {
    trimmed_end(line).len() > 0 && trimmed_end(line).last() == '\\'
}

/// The hosts that a line adds, and whether the next line goes on with them, from whether
/// this line does.
pub open spec fn line_step(line: Seq<char>, needs_another_line: bool) -> (Set<Seq<char>>, bool) {
    let line = trimmed_start(line);
    if starts_with(line, "Host"@) {
        let rest = line.skip(4);
        if rest.len() == 0 {
            (Set::empty(), false)
        } else if rest[0] == '\\' {
            (hosts_in(rest), goes_on(rest))
        } else if rest[0] == '\n' || rest[0] == '\r' {
            (Set::empty(), false)
        } else if whitespace(rest[0]) {
            (hosts_in(rest), needs_another_line && goes_on(rest))
        } else {
            (Set::empty(), false)
        }
    } else if needs_another_line {
        (hosts_in(line), goes_on(line))
    } else {
        (Set::empty(), false)
    }
}

/// The hosts that some lines name, and whether the next line goes on with them.
pub open spec fn hosts_of(all: Seq<Seq<char>>) -> (Set<Seq<char>>, bool)
    decreases all.len(),
{
    if all.len() == 0 {
        (Set::empty(), false)
    } else {
        let (before, needs_another_line) = hosts_of(all.drop_last());
        let (hosts, needs_another_line) = line_step(all.last(), needs_another_line);
        (before.union(hosts), needs_another_line)
    }
}

fn is_host(word: &str) -> (r: bool)
    ensures
        r == names_host(word@),
{
    let chars = chars_of(word);
    if chars.len() > 0 && chars[0] == '!' {
        assert(word@.take(1) =~= seq!['!']);
        return false;
    }
    assert(!starts_with(word@, seq!['!'])) by {
        if starts_with(word@, seq!['!']) {
            assert(word@.take(1)[0] == '!');
        }
    }
    let mut i: usize = 0;
    while i < chars.len()
        invariant
            i <= chars@.len(),
            chars@ == word@,
            !starts_with(word@, seq!['!']),
            forall|k: int| 0 <= k < i ==> #[trigger] word@[k] != '*',
        decreases chars.len() - i,
    {
        if chars[i] == '*' {
            assert(word@[i as int] == '*');
            return false;
        }
        i = i + 1;
    }
    true
}

fn parse_hosts_from(line: &str, hosts: &mut TextSet)
    requires
        old(hosts).wf(),
    ensures
        final(hosts).wf(),
        final(hosts)@ == old(hosts)@.union(hosts_in(line@)),
{
    let all = words_of(line);
    let ghost model = texts(all@);
    let ghost start = hosts@;
    let mut i: usize = 0;
    assert(hosts@ =~= start.union(
        Set::new(|word: Seq<char>| model.take(0).contains(word) && names_host(word)),
    ));
    while i < all.len()
        invariant
            i <= all@.len(),
            model == texts(all@),
            hosts.wf(),
            hosts@ == start.union(
                Set::new(|word: Seq<char>| model.take(i as int).contains(word) && names_host(word)),
            ),
        decreases all.len() - i,
    {
        if is_host(all[i].as_str()) {
            hosts.insert(copy_text(all[i].as_str()));
        }
        proof {
            let here = model.take(i as int);
            let next = model.take(i + 1);
            let word = model[i as int];
            assert(word == all@[i as int]@);
            assert forall|x: Seq<char>| next.contains(x) == (here.contains(x) || x == word) by {
                if here.contains(x) {
                    let k: int = choose|k: int| 0 <= k < here.len() && here[k] == x;
                    assert(next[k] == x);
                }
                if x == word {
                    assert(next[i as int] == x);
                }
                if next.contains(x) && x != word {
                    let k: int = choose|k: int| 0 <= k < next.len() && next[k] == x;
                    assert(here[k] == x);
                }
            }
            assert(hosts@ =~= start.union(
                Set::new(|word: Seq<char>| next.contains(word) && names_host(word)),
            ));
        }
        i = i + 1;
    }
    assert(model.take(i as int) =~= model);
    assert(hosts@ =~= start.union(hosts_in(line@)));
}

fn line_goes_on(line: &str) -> (r: bool)
    ensures
        r == goes_on(line@),
{
    let end = trim_end(line);
    let chars = chars_of(end.as_str());
    chars.len() > 0 && chars[chars.len() - 1] == '\\'
}

fn parse_line(line: &str, needs_another_line: bool, hosts: &mut TextSet) -> (r: bool)
    requires
        old(hosts).wf(),
    ensures
        final(hosts).wf(),
        final(hosts)@ == old(hosts)@.union(line_step(line@, needs_another_line).0),
        r == line_step(line@, needs_another_line).1,
{
    proof {
        reveal_strlit("Host");
    }
    assert(hosts@ =~= hosts@.union(Set::empty()));
    let line = trim_start(line);
    if has_prefix(line.as_str(), "Host") {
        let chars = chars_of(line.as_str());
        let rest = text_of(&chars, 4, chars.len());
        assert(rest@ =~= line@.skip(4));
        if chars.len() == 4 {
            return false;
        }
        assert(rest@[0] == chars@[4]);
        let first: char = chars[4];
        if first == '\\' {
            parse_hosts_from(rest.as_str(), hosts);
            line_goes_on(rest.as_str())
        } else if first == '\n' || first == '\r' {
            false
        } else if is_whitespace(first) {
            parse_hosts_from(rest.as_str(), hosts);
            needs_another_line && line_goes_on(rest.as_str())
        } else {
            false
        }
    } else if needs_another_line {
        parse_hosts_from(line.as_str(), hosts);
        line_goes_on(line.as_str())
    } else {
        false
    }
}

/// The hosts that a configuration names, in order.
pub fn parse_ssh_config_hosts(config: &str) -> (r: Vec<String>)
    ensures
        in_order(texts(r@)),
        forall|host: Seq<char>| #[trigger]
            texts(r@).contains(host) == hosts_of(lines(config@)).0.contains(host),
{
    let all = lines_of(config);
    let ghost model = texts(all@);
    let mut hosts = TextSet::new();
    let mut needs_another_line: bool = false;
    let mut i: usize = 0;
    assert(model.take(0) =~= Seq::empty());
    while i < all.len()
        invariant
            i <= all@.len(),
            model == texts(all@),
            hosts.wf(),
            (hosts@, needs_another_line) == hosts_of(model.take(i as int)),
        decreases all.len() - i,
    {
        proof {
            let next = model.take(i + 1);
            assert(next.drop_last() =~= model.take(i as int));
            assert(next.last() == all@[i as int]@);
        }
        needs_another_line = parse_line(all[i].as_str(), needs_another_line, &mut hosts);
        i = i + 1;
    }
    assert(model.take(i as int) =~= model);
    hosts.into_texts()
}

proof fn lemma_hosts_name_hosts(all: Seq<Seq<char>>, host: Seq<char>)
    requires
        hosts_of(all).0.contains(host),
    ensures
        names_host(host),
    decreases all.len(),
{
    if all.len() > 0 {
        if hosts_of(all.drop_last()).0.contains(host) {
            lemma_hosts_name_hosts(all.drop_last(), host);
        }
    }
}

/// No pattern, and no host that is to be left out, is among the hosts.
pub proof fn law_hosts_are_no_patterns(config: Seq<char>, host: Seq<char>)
    requires
        hosts_of(lines(config)).0.contains(host),
    ensures
        !host.contains('*'),
        !starts_with(host, seq!['!']),
{
    lemma_hosts_name_hosts(lines(config), host);
}

/// Whether a word can be the name of a host: neither a pattern nor what is left out.
pub open spec fn is_plain(word: Seq<char>) -> bool {
    !word.contains('*') && (word.len() == 0 || word[0] != '!')
}

/// Whether a line names a host: behind the word `Host`, or as what the line before, which
/// holds a backslash, goes on with.
pub open spec fn is_named_in(all: Seq<Seq<char>>, k: int, host: Seq<char>) -> bool {
    let line = trimmed_start(all[k]);
    ||| "Host"@.is_prefix_of(line) && words(line.skip(4)).contains(host)
    ||| k > 0 && all[k - 1].contains('\\') && words(line).contains(host)
}

proof fn lemma_plain(word: Seq<char>)
    ensures
        names_host(word) == is_plain(word),
{
    if word.len() > 0 {
        assert(word.take(1) =~= seq![word[0]]);
        assert(seq![word[0]] == seq!['!'] <==> word[0] == '!') by {
            assert(seq![word[0]][0] == word[0] && seq!['!'][0] == '!');
        }
    }
}

proof fn lemma_ends_with_backslash(line: Seq<char>)
    requires
        goes_on(line),
    ensures
        line.contains('\\'),
    decreases line.len(),
{
    if line.len() > 0 && whitespace(line.last()) {
        lemma_ends_with_backslash(line.drop_last());
        let k: int = choose|k: int| 0 <= k < line.drop_last().len() && line.drop_last()[k] == '\\';
        assert(line[k] == '\\');
    } else {
        assert(line[line.len() - 1] == '\\');
    }
}

proof fn lemma_holds_backslash(line: Seq<char>)
    requires
        trimmed_start(line).contains('\\'),
    ensures
        line.contains('\\'),
    decreases line.len(),
{
    if line.len() > 0 && whitespace(line.first()) {
        let rest = line.drop_first();
        lemma_holds_backslash(rest);
        let k: int = choose|k: int| 0 <= k < rest.len() && rest[k] == '\\';
        assert(line[k + 1] == '\\');
    }
}

proof fn lemma_goes_on_after(all: Seq<Seq<char>>)
    requires
        hosts_of(all).1,
    ensures
        all.len() > 0,
        all.last().contains('\\'),
{
    let line = trimmed_start(all.last());
    if starts_with(line, "Host"@) {
        let rest = line.skip(4);
        lemma_ends_with_backslash(rest);
        let k: int = choose|k: int| 0 <= k < rest.len() && rest[k] == '\\';
        reveal_strlit("Host");
        assert(line[k + 4] == '\\');
    } else {
        lemma_ends_with_backslash(line);
    }
    lemma_holds_backslash(all.last());
}

proof fn lemma_lines_name_hosts(all: Seq<Seq<char>>, k: int)
    requires
        0 <= k < all.len(),
    ensures
        line_step(all[k], hosts_of(all.take(k)).1).0.subset_of(hosts_of(all).0),
    decreases all.len(),
{
    let init = all.drop_last();
    if k == init.len() {
        assert(all.take(k) =~= init);
    } else {
        lemma_lines_name_hosts(init, k);
        assert(init.take(k) =~= all.take(k));
        assert(init[k] == all[k]);
    }
}

proof fn lemma_host_is_named(all: Seq<Seq<char>>, host: Seq<char>)
    requires
        hosts_of(all).0.contains(host),
    ensures
        is_plain(host),
        exists|k: int| 0 <= k < all.len() && #[trigger] is_named_in(all, k, host),
    decreases all.len(),
{
    if all.len() > 0 {
        let init = all.drop_last();
        if hosts_of(init).0.contains(host) {
            lemma_host_is_named(init, host);
            let k: int = choose|k: int|
                0 <= k < init.len() && #[trigger] is_named_in(init, k, host);
            assert(init[k] == all[k]);
            if k > 0 {
                assert(init[k - 1] == all[k - 1]);
            }
            assert(is_named_in(all, k, host));
        } else {
            lemma_plain(host);
            let k: int = all.len() - 1;
            let line = trimmed_start(all.last());
            reveal_strlit("Host");
            if starts_with(line, "Host"@) {
                assert(line.subrange(0, 4) == line.take(4));
                assert("Host"@.is_prefix_of(line));
            } else {
                lemma_goes_on_after(init);
                assert(init.last() == all[k - 1]);
            }
            assert(is_named_in(all, k, host));
        }
    }
}

/// The hosts of a configuration are the plain words that stand behind `Host` in a line or in
/// what such a line goes on with, each once and in the order of texts.
pub proof fn law_hosts_are_named(config: &str, r: Vec<String>, k: int, gap: char, rest: Seq<char>)
    requires
        call_ensures(parse_ssh_config_hosts, (config,), r),
    ensures
        forall|i: int|
            0 <= i < r@.len() ==> is_plain((#[trigger] r@[i])@) && exists|k: int|
                0 <= k < lines(config@).len() && #[trigger] is_named_in(
                    lines(config@),
                    k,
                    r@[i]@,
                ),
        forall|i: int, j: int|
            0 <= i < j < r@.len() ==> text_before((#[trigger] r@[i])@, (#[trigger] r@[j])@),
        0 <= k < lines(config@).len() && trimmed_start(lines(config@)[k]) == "Host"@ + seq![gap]
            + rest && whitespace(gap) && gap != '\n' && gap != '\r' ==> forall|host: Seq<char>|
            #[trigger] words(rest).contains(host) && is_plain(host) ==> texts(r@).contains(host),
        0 <= k < lines(config@).len() - 1 && trimmed_start(lines(config@)[k]) == "Host"@
            + seq!['\\'] && !("Host"@.is_prefix_of(trimmed_start(lines(config@)[k + 1])))
            ==> forall|host: Seq<char>|
            words(trimmed_start(lines(config@)[k + 1])).contains(host) && is_plain(host)
                ==> #[trigger] texts(r@).contains(host),
{
    let all = lines(config@);
    assert forall|i: int| 0 <= i < r@.len() implies is_plain((#[trigger] r@[i])@) && exists|k: int|
        0 <= k < lines(config@).len() && #[trigger] is_named_in(
            lines(config@),
            k,
            r@[i]@,
        ) by {
        assert(texts(r@)[i] == r@[i]@);
        assert(texts(r@).contains(r@[i]@));
        lemma_host_is_named(all, r@[i]@);
    }
    assert forall|i: int, j: int| 0 <= i < j < r@.len() implies text_before(
        (#[trigger] r@[i])@,
        (#[trigger] r@[j])@,
    ) by {
        assert(texts(r@)[i] == r@[i]@ && texts(r@)[j] == r@[j]@);
    }
    reveal_strlit("Host");
    if 0 <= k < all.len() && trimmed_start(all[k]) == "Host"@ + seq![gap] + rest && whitespace(gap)
        && gap != '\n' && gap != '\r' {
        let line = trimmed_start(all[k]);
        assert(line.take(4) =~= "Host"@);
        let behind = line.skip(4);
        assert(behind =~= seq![gap] + rest);
        assert(gap != '\\');
        lemma_lines_name_hosts(all, k);
        assert(behind.drop_first() =~= rest);
        assert(trimmed_start(behind) == trimmed_start(rest));
        assert(words(behind) == words(rest)) by {
            assert(first_word(behind) == first_word(rest));
        }
        assert forall|host: Seq<char>| #[trigger]
            words(rest).contains(host) && is_plain(host) implies texts(r@).contains(host) by {
            lemma_plain(host);
            assert(hosts_in(behind).contains(host));
        }
    }
    if 0 <= k < all.len() - 1 && trimmed_start(all[k]) == "Host"@ + seq!['\\'] && !(
    "Host"@.is_prefix_of(trimmed_start(all[k + 1]))) {
        let line = trimmed_start(all[k]);
        assert(line.take(4) =~= "Host"@);
        let behind = line.skip(4);
        assert(behind =~= seq!['\\']);
        assert(behind.last() == '\\');
        assert(trimmed_end(behind) == behind);
        assert(goes_on(behind));
        assert(all.take(k + 1).drop_last() =~= all.take(k));
        assert(all.take(k + 1).last() == all[k]);
        assert(hosts_of(all.take(k + 1)).1);
        lemma_lines_name_hosts(all, k + 1);
        let next = trimmed_start(all[k + 1]);
        if next.len() >= 4 {
            assert(next.subrange(0, 4) == next.take(4));
        }
        assert(!starts_with(next, "Host"@));
        assert forall|host: Seq<char>|
            words(next).contains(host) && is_plain(host) implies #[trigger] texts(r@).contains(
            host,
        ) by {
            lemma_plain(host);
            assert(hosts_in(next).contains(host));
        }
    }
}

/// Whether the last character of a line that is no white space is a backslash.
pub open spec fn ends_in_backslash(line: Seq<char>) -> bool {
    trimmed_end(line).len() > 0 && trimmed_end(line)[trimmed_end(line).len() - 1] == '\\'
}

/// Whether a line starts with `Host`.
pub open spec fn starts_hosts(line: Seq<char>) -> bool {
    "Host"@.is_prefix_of(trimmed_start(line))
}

proof fn lemma_goes_on_through(all: Seq<Seq<char>>, from: int, to: int)
    requires
        0 <= from < to <= all.len(),
        trimmed_start(all[from]).len() > 4,
        starts_hosts(all[from]),
        trimmed_start(all[from])[4] == '\\',
        ends_in_backslash(trimmed_start(all[from]).skip(4)),
        forall|k: int|
            from < k < to ==> !starts_hosts(#[trigger] all[k]) && ends_in_backslash(
                trimmed_start(all[k]),
            ),
    ensures
        hosts_of(all.take(to)).1,
    decreases to - from,
{
    let upto = all.take(to);
    assert(upto.drop_last() =~= all.take(to - 1));
    assert(upto.last() == all[to - 1]);
    reveal_strlit("Host");
    let line = trimmed_start(all[to - 1]);
    if to - 1 == from {
        assert(line.take(4) =~= "Host"@);
        assert(starts_with(line, "Host"@));
        assert(line.skip(4)[0] == line[4]);
    } else {
        lemma_goes_on_through(all, from, to - 1);
        assert(!starts_hosts(all[to - 1]));
        if starts_with(line, "Host"@) {
            assert(line.subrange(0, 4) == line.take(4));
            assert(starts_hosts(all[to - 1]));
        }
    }
}

/// A line goes on in the next one as long as a backslash ends it, over any number of lines, and
/// the plain words of all of them are hosts.
pub proof fn law_hosts_go_on_over_lines(
    config: &str,
    r: Vec<String>,
    from: int,
    to: int,
    host: Seq<char>,
)
    requires
        call_ensures(parse_ssh_config_hosts, (config,), r),
        0 <= from < to < lines(config@).len(),
        trimmed_start(lines(config@)[from]).len() > 4,
        starts_hosts(lines(config@)[from]),
        trimmed_start(lines(config@)[from])[4] == '\\',
        ends_in_backslash(trimmed_start(lines(config@)[from]).skip(4)),
        forall|k: int|
            from < k < to ==> !starts_hosts(#[trigger] lines(config@)[k]) && ends_in_backslash(
                trimmed_start(lines(config@)[k]),
            ),
        !starts_hosts(lines(config@)[to]),
        words(trimmed_start(lines(config@)[to])).contains(host),
        is_plain(host),
    ensures
        texts(r@).contains(host),
{
    let all = lines(config@);
    lemma_goes_on_through(all, from, to);
    lemma_lines_name_hosts(all, to);
    lemma_plain(host);
    reveal_strlit("Host");
    let line = trimmed_start(all[to]);
    if starts_with(line, "Host"@) {
        assert(line.subrange(0, 4) == line.take(4));
        assert(starts_hosts(all[to]));
    }
    assert(hosts_in(line).contains(host));
    assert(hosts_of(all).0.contains(host));
}

} // verus!
