//! Snippets of users and of extensions, by language.

use vstd::prelude::*;
use std::sync::Arc;
use crate::path::{path_before, RelPath};
use crate::shared::arc_clone;
use crate::task::expansion::optional_text;
use crate::text::{chars_of, copy_text, join, joined, str_eq, text_of, texts};

verus! {

/// A text, or the lines of one.
#[derive(Debug)]
pub enum ListOrDirect {
    Single(String),
    List(Vec<String>),
}

impl ListOrDirect {
    /// The text, or the lines.
    pub fn into_lines(self) -> (r: Vec<String>)
        ensures
            r@ == (match self {
                ListOrDirect::Single(entry) => seq![entry],
                ListOrDirect::List(entries) => entries@,
            }),
    {
        match self {
            ListOrDirect::Single(entry) => {
                let mut r: Vec<String> = Vec::new();
                r.push(entry);
                r
            },
            ListOrDirect::List(entries) => entries,
        }
    }

    /// All of the text.
    pub fn text(&self) -> (r: String)
        ensures
            r@ == (match *self {
                ListOrDirect::Single(entry) => entry@,
                ListOrDirect::List(entries) => joined(texts(entries@), "\n"@),
            }),
    {
        match self {
            ListOrDirect::Single(entry) => copy_text(entry.as_str()),
            ListOrDirect::List(entries) => join(entries, "\n"),
        }
    }
}

/// A snippet with what is known of it.
#[derive(Debug)]
pub struct Snippet {
    pub prefix: Vec<String>,
    pub body: String,
    pub description: Option<String>,
    pub name: String,
}

/// Which language the snippets in a file are for, by its name. None: they are for all
/// languages.
pub open spec fn kind_of(stem: Seq<char>) -> Option<Seq<char>> {
    if stem == "snippets"@ {
        None
    } else {
        Some(stem)
    }
}

/// Which language the snippets in a file are for.
pub fn file_stem_to_key(stem: &str) -> (r: Option<String>)
    ensures
        optional_text(r) == kind_of(stem@),
{
    if str_eq(stem, "snippets") {
        None
    } else {
        Some(copy_text(stem))
    }
}

/// Where the last dot of a name is, if it has one.
pub open spec fn last_dot(name: Seq<char>) -> Option<int>
    decreases name.len(),
{
    if name.len() == 0 {
        None
    } else if name.last() == '.' {
        Some(name.len() - 1)
    } else {
        last_dot(name.drop_last())
    }
}

/// A name without its extension, and the extension. A dot at the start of a name belongs
/// to it.
pub open spec fn stem_and_extension(name: Seq<char>) -> (Seq<char>, Option<Seq<char>>) {
    match last_dot(name) {
        Some(dot) => if dot == 0 || name == seq!['.', '.'] {
            (name, None)
        } else {
            (name.take(dot), Some(name.skip(dot + 1)))
        },
        None => (name, None),
    }
}

/// A name without its extension, and the extension.
pub fn split_name(name: &str) -> (r: (String, Option<String>))
    ensures
        (r.0@, optional_text(r.1)) == stem_and_extension(name@),
{
    let chars = chars_of(name);
    let mut i: usize = chars.len();
    assert(chars@.take(i as int) =~= chars@);
    while i > 0 && chars[i - 1] != '.'
        invariant
            i <= chars@.len(),
            last_dot(chars@.take(i as int)) == last_dot(chars@),
        decreases i,
    {
        proof {
            let here = chars@.take(i as int);
            assert(here.drop_last() =~= chars@.take(i - 1));
            assert(here.last() == chars@[i - 1]);
        }
        i = i - 1;
    }
    assert(i > 0 ==> chars@.take(i as int).last() == chars@[i - 1]);
    let only_dots: bool = chars.len() == 2 && chars[0] == '.' && chars[1] == '.';
    proof {
        if only_dots {
            assert(chars@ =~= seq!['.', '.']);
        }
    }
    if i <= 1 || only_dots {
        return (copy_text(name), None);
    }
    let stem = text_of(&chars, 0, i - 1);
    let extension = text_of(&chars, i, chars.len());
    assert(stem@ =~= name@.take(i - 1));
    assert(extension@ =~= name@.skip(i as int));
    (stem, Some(extension))
}

/// A file that changed. It has no name where its path ends with a step up.
#[derive(Debug)]
pub struct ChangedFile {
    /// The names of its path, from the root on.
    pub path: RelPath,
    pub name: Option<String>,
    pub is_dir: bool,
}

/// The language whose snippets changed with a file, if any did: the file must be one
/// with snippets.
pub open spec fn changed_kind(file: ChangedFile) -> Option<Option<Seq<char>>> {
    match file.name {
        Some(name) => if stem_and_extension(name@).1 == Some("json"@) && !file.is_dir {
            Some(kind_of(stem_and_extension(name@).0))
        } else {
            None
        },
        None => None,
    }
}

/// The snippets in a file.
#[derive(Debug)]
pub struct FileSnippets {
    pub kind: Option<String>,
    /// The names of its path, from the root on.
    pub path: RelPath,
    pub snippets: Vec<Arc<Snippet>>,
}

/// The snippets that users wrote, by file.
#[derive(Debug)]
pub struct SnippetProvider {
    pub files: Vec<FileSnippets>,
}

/// Whether a file holds snippets for a language and is at a path.
pub open spec fn is_file(file: FileSnippets, kind: Option<Seq<char>>, path: Seq<Seq<char>>) -> bool {
    optional_text(file.kind) == kind && file.path@ == path
}

/// Of each language there is a path at most once, and the paths are in order.
pub open spec fn files_in_order(files: Seq<FileSnippets>) -> bool {
    forall|i: int, j: int|
        #![trigger files[i], files[j]]
        0 <= i < j < files.len() && optional_text(files[i].kind) == optional_text(files[j].kind)
            ==> path_before(files[i].path@, files[j].path@)
}

/// The files without one of them.
pub open spec fn files_without(
    files: Seq<FileSnippets>,
    kind: Option<Seq<char>>,
    path: Seq<Seq<char>>,
) -> Seq<FileSnippets>
    decreases files.len(),
{
    if files.len() == 0 {
        Seq::empty()
    } else {
        let before = files_without(files.drop_last(), kind, path);
        if is_file(files.last(), kind, path) {
            before
        } else {
            before.push(files.last())
        }
    }
}

/// The files that are left after some changed.
pub open spec fn files_after(files: Seq<FileSnippets>, changed: Seq<ChangedFile>) -> Seq<
    FileSnippets,
>
    decreases changed.len(),
{
    if changed.len() == 0 {
        files
    } else {
        let before = files_after(files, changed.drop_last());
        match changed_kind(changed.last()) {
            Some(kind) => files_without(before, kind, changed.last().path@),
            None => before,
        }
    }
}

fn same_kind(a: &Option<String>, b: &Option<String>) -> (r: bool)
    ensures
        r == (optional_text(*a) == optional_text(*b)),
{
    match (a, b) {
        (Some(a), Some(b)) => str_eq(a.as_str(), b.as_str()),
        (None, None) => true,
        _ => false,
    }
}

/// The snippets of some files for a language.
pub open spec fn snippets_in(files: Seq<FileSnippets>, kind: Option<Seq<char>>) -> Seq<Arc<Snippet>>
    decreases files.len(),
{
    if files.len() == 0 {
        Seq::empty()
    } else {
        let before = snippets_in(files.drop_last(), kind);
        if optional_text(files.last().kind) == kind {
            before + files.last().snippets@
        } else {
            before
        }
    }
}

fn append_snippets(r: &mut Vec<Arc<Snippet>>, more: &Vec<Arc<Snippet>>)
    ensures
        final(r)@ == old(r)@ + more@,
{
    let ghost start = r@;
    let mut i: usize = 0;
    assert(r@ =~= start + more@.take(0));
    while i < more.len()
        invariant
            i <= more@.len(),
            r@ == start + more@.take(i as int),
        decreases more.len() - i,
    {
        r.push(arc_clone(&more[i]));
        i = i + 1;
        assert(r@ =~= start + more@.take(i as int));
    }
    assert(more@.take(i as int) =~= more@);
}

/// The snippets of extensions for some languages.
#[derive(Debug)]
pub struct SnippetRegistry {
    pub snippets: Vec<(Option<String>, Vec<Arc<Snippet>>)>,
}

/// The snippets of extensions for a language.
pub open spec fn registered(
    snippets: Seq<(Option<String>, Vec<Arc<Snippet>>)>,
    kind: Option<Seq<char>>,
) -> Seq<Arc<Snippet>>
    decreases snippets.len(),
{
    if snippets.len() == 0 {
        Seq::empty()
    } else if optional_text(snippets.first().0) == kind {
        snippets.first().1@
    } else {
        registered(snippets.drop_first(), kind)
    }
}

impl SnippetRegistry {
    pub fn new() -> (r: SnippetRegistry)
        ensures
            r.snippets@.len() == 0,
    {
        SnippetRegistry { snippets: Vec::new() }
    }

    /// The snippets for a language.
    pub fn get_snippets(&self, kind: &Option<String>) -> (r: Vec<Arc<Snippet>>)
        ensures
            r@ == registered(self.snippets@, optional_text(*kind)),
    {
        let mut i: usize = 0;
        assert(self.snippets@.skip(0) =~= self.snippets@);
        while i < self.snippets.len()
            invariant
                i <= self.snippets@.len(),
                registered(self.snippets@.skip(i as int), optional_text(*kind)) == registered(
                    self.snippets@,
                    optional_text(*kind),
                ),
            decreases self.snippets.len() - i,
        {
            proof {
                let rest = self.snippets@.skip(i as int);
                assert(rest.drop_first() =~= self.snippets@.skip(i + 1));
                assert(rest.first() == self.snippets@[i as int]);
            }
            if same_kind(&self.snippets[i].0, kind) {
                let mut r: Vec<Arc<Snippet>> = Vec::new();
                append_snippets(&mut r, &self.snippets[i].1);
                assert(r@ =~= self.snippets@[i as int].1@);
                return r;
            }
            i = i + 1;
        }
        Vec::new()
    }
}

/// The snippets for a language: those of the provider, those that are for all projects,
/// and those of extensions.
pub open spec fn all_snippets(
    files: Seq<FileSnippets>,
    global: Option<&SnippetProvider>,
    registry: Option<&SnippetRegistry>,
    kind: Option<Seq<char>>,
) -> Seq<Arc<Snippet>> {
    snippets_in(files, kind) + (match global {
        Some(global) => snippets_in(global.files@, kind),
        None => Seq::empty(),
    }) + (match registry {
        Some(registry) => registered(registry.snippets@, kind),
        None => Seq::empty(),
    })
}

impl SnippetProvider {
    pub fn new() -> (r: SnippetProvider)
        ensures
            r.files@.len() == 0,
            r.wf(),
    {
        SnippetProvider { files: Vec::new() }
    }

    /// Of each language there is a path at most once, and the paths are in order.
    pub open spec fn wf(&self) -> bool {
        files_in_order(self.files@)
    }

    fn forget_file(&mut self, kind: &Option<String>, path: &RelPath)
        ensures
            final(self).files@ == files_without(old(self).files@, optional_text(*kind), path@),
    {
        let mut kept: Vec<FileSnippets> = Vec::new();
        let ghost all = self.files@;
        let ghost kind_text = optional_text(*kind);
        let mut done: Ghost<int> = Ghost(0int);
        assert(kept@ =~= files_without(all.take(0), kind_text, path@));
        assert(all.skip(0) =~= all);
        while self.files.len() > 0
            invariant
                0 <= done@ <= all.len(),
                self.files@ == all.skip(done@),
                kind_text == optional_text(*kind),
                kept@ == files_without(all.take(done@), kind_text, path@),
            decreases self.files.len(),
        {
            let ghost here: int = done@;
            let file = self.files.remove(0);
            proof {
                assert(file == all[here]);
                assert(all.skip(here).remove(0) =~= all.skip(here + 1));
                let next = all.take(here + 1);
                assert(next.drop_last() =~= all.take(here));
                assert(next.last() == file);
                done@ = here + 1;
            }
            if !(same_kind(&file.kind, kind) && file.path.same(path)) {
                kept.push(file);
            }
        }
        assert(all.take(done@) =~= all);
        self.files = kept;
    }

    /// Forgets what is known of files that changed.
    pub fn process_updates(&mut self, entries: &Vec<ChangedFile>)
        requires
            old(self).wf(),
        ensures
            final(self).wf(),
            final(self).files@ == files_after(old(self).files@, entries@),
    {
        let ghost start = self.files@;
        let mut i: usize = 0;
        assert(entries@.take(0) =~= Seq::empty());
        while i < entries.len()
            invariant
                i <= entries@.len(),
                self.files@ == files_after(start, entries@.take(i as int)),
            decreases entries.len() - i,
        {
            proof {
                let next = entries@.take(i + 1);
                assert(next.drop_last() =~= entries@.take(i as int));
                assert(next.last() == entries@[i as int]);
            }
            let entry = &entries[i];
            if let Some(name) = &entry.name {
                let (stem, extension) = split_name(name.as_str());
                if let Some(extension) = extension {
                    if str_eq(extension.as_str(), "json") && !entry.is_dir {
                        let kind = file_stem_to_key(stem.as_str());
                        self.forget_file(&kind, &entry.path);
                    }
                }
            }
            i = i + 1;
        }
        assert(entries@.take(i as int) =~= entries@);
        proof {
            lemma_files_stay_in_order(start, entries@);
        }
    }

    fn user_snippets(&self, language: &Option<String>) -> (r: Vec<Arc<Snippet>>)
        ensures
            r@ == snippets_in(self.files@, optional_text(*language)),
    {
        let mut r: Vec<Arc<Snippet>> = Vec::new();
        let mut i: usize = 0;
        assert(r@ =~= snippets_in(self.files@.take(0), optional_text(*language)));
        while i < self.files.len()
            invariant
                i <= self.files@.len(),
                r@ == snippets_in(self.files@.take(i as int), optional_text(*language)),
            decreases self.files.len() - i,
        {
            proof {
                let next = self.files@.take(i + 1);
                assert(next.drop_last() =~= self.files@.take(i as int));
                assert(next.last() == self.files@[i as int]);
            }
            if same_kind(&self.files[i].kind, language) {
                append_snippets(&mut r, &self.files[i].snippets);
            }
            i = i + 1;
        }
        assert(self.files@.take(i as int) =~= self.files@);
        r
    }

    /// The snippets for a language.
    pub fn lookup_snippets(
        &self,
        language: &Option<String>,
        global: Option<&SnippetProvider>,
        registry: Option<&SnippetRegistry>,
    ) -> (r: Vec<Arc<Snippet>>)
        ensures
            r@ == all_snippets(self.files@, global, registry, optional_text(*language)),
    {
        let mut r = self.user_snippets(language);
        if let Some(global) = global {
            let more = global.user_snippets(language);
            append_snippets(&mut r, &more);
        }
        if let Some(registry) = registry {
            let more = registry.get_snippets(language);
            append_snippets(&mut r, &more);
        }
        assert(r@ =~= all_snippets(self.files@, global, registry, optional_text(*language)));
        r
    }

    /// The snippets for a language, and then those for all languages.
    pub fn snippets_for(
        &self,
        language: &Option<String>,
        global: Option<&SnippetProvider>,
        registry: Option<&SnippetRegistry>,
    ) -> (r: Vec<Arc<Snippet>>)
        ensures
            r@ == all_snippets(self.files@, global, registry, optional_text(*language)) + (
            if language is Some {
                all_snippets(self.files@, global, registry, None)
            } else {
                Seq::empty()
            }),
    {
        let mut r = self.lookup_snippets(language, global, registry);
        let ghost first = r@;
        if language.is_some() {
            let no_language: Option<String> = None;
            let more = self.lookup_snippets(&no_language, global, registry);
            append_snippets(&mut r, &more);
        } else {
            assert(r@ =~= first + Seq::<Arc<Snippet>>::empty());
        }
        r
    }
}

proof fn lemma_files_without(files: Seq<FileSnippets>, kind: Option<Seq<char>>, path: Seq<Seq<char>>)
    ensures
        forall|i: int|
            0 <= i < files_without(files, kind, path).len() ==> !is_file(
                #[trigger] files_without(files, kind, path)[i],
                kind,
                path,
            ),
    decreases files.len(),
{
    if files.len() > 0 {
        let before = files_without(files.drop_last(), kind, path);
        let after = files_without(files, kind, path);
        lemma_files_without(files.drop_last(), kind, path);
        assert forall|i: int| 0 <= i < after.len() implies !is_file(
            #[trigger] after[i],
            kind,
            path,
        ) by {
            if i < before.len() {
                assert(after[i] == before[i]);
            }
        }
    }
}

/// What is left of some files is in the order that they had.
proof fn lemma_without_keeps_order(
    files: Seq<FileSnippets>,
    kind: Option<Seq<char>>,
    path: Seq<Seq<char>>,
)
    requires
        files_in_order(files),
    ensures
        files_in_order(files_without(files, kind, path)),
        forall|i: int|
            0 <= i < files_without(files, kind, path).len() ==> files.contains(
                #[trigger] files_without(files, kind, path)[i],
            ),
    decreases files.len(),
{
    if files.len() > 0 {
        let rest = files.drop_last();
        let before = files_without(rest, kind, path);
        let after = files_without(files, kind, path);
        assert(files_in_order(rest)) by {
            assert forall|i: int, j: int|
                #![trigger rest[i], rest[j]]
                0 <= i < j < rest.len() && optional_text(rest[i].kind) == optional_text(
                    rest[j].kind,
                ) implies path_before(rest[i].path@, rest[j].path@) by {
                assert(rest[i] == files[i] && rest[j] == files[j]);
            }
        }
        lemma_without_keeps_order(rest, kind, path);
        assert forall|i: int| 0 <= i < before.len() implies exists|k: int|
            0 <= k < rest.len() && files[k] == #[trigger] before[i] by {
            assert(rest.contains(before[i]));
            let k = choose|k: int| 0 <= k < rest.len() && rest[k] == before[i];
            assert(files[k] == before[i]);
        }
        assert forall|i: int| 0 <= i < after.len() implies files.contains(#[trigger] after[i]) by {
            if i < before.len() {
                assert(after[i] == before[i]);
            } else {
                assert(after[i] == files[files.len() - 1]);
            }
        }
        assert forall|i: int, j: int|
            #![trigger after[i], after[j]]
            0 <= i < j < after.len() && optional_text(after[i].kind) == optional_text(
                after[j].kind,
            ) implies path_before(after[i].path@, after[j].path@) by {
            assert(after[i] == before[i]);
            if j < before.len() {
                assert(after[j] == before[j]);
            } else {
                let k = choose|k: int| 0 <= k < rest.len() && files[k] == before[i];
                assert(after[j] == files[files.len() - 1]);
                assert(after[i] == files[k]);
            }
        }
    }
}

proof fn lemma_files_stay_in_order(files: Seq<FileSnippets>, changed: Seq<ChangedFile>)
    requires
        files_in_order(files),
    ensures
        files_in_order(files_after(files, changed)),
    decreases changed.len(),
{
    if changed.len() > 0 {
        let before = files_after(files, changed.drop_last());
        lemma_files_stay_in_order(files, changed.drop_last());
        if let Some(kind) = changed_kind(changed.last()) {
            lemma_without_keeps_order(before, kind, changed.last().path@);
        }
    }
}

/// Nothing is known any more of a file with snippets that changed last.
pub proof fn law_changed_file_is_forgotten(files: Seq<FileSnippets>, changed: Seq<ChangedFile>)
    requires
        changed.len() > 0,
        changed_kind(changed.last()) is Some,
    ensures
        forall|i: int|
            0 <= i < files_after(files, changed).len() ==> !is_file(
                #[trigger] files_after(files, changed)[i],
                changed_kind(changed.last())->0,
                changed.last().path@,
            ),
{
    lemma_files_without(
        files_after(files, changed.drop_last()),
        changed_kind(changed.last())->0,
        changed.last().path@,
    );
}

proof fn lemma_last_dot(name: Seq<char>)
    ensures
        match last_dot(name) {
            Some(dot) => 0 <= dot < name.len() && name[dot] == '.' && forall|i: int|
                dot < i < name.len() ==> #[trigger] name[i] != '.',
            None => !name.contains('.'),
        },
    decreases name.len(),
{
    if name.len() > 0 && name.last() != '.' {
        let init = name.drop_last();
        lemma_last_dot(init);
        match last_dot(init) {
            Some(dot) => {
                assert forall|i: int| dot < i < name.len() implies #[trigger] name[i] != '.' by {
                    if i < init.len() {
                        assert(init[i] == name[i]);
                    }
                }
            },
            None => {
                if name.contains('.') {
                    let i: int = choose|i: int| 0 <= i < name.len() && name[i] == '.';
                    assert(init[i] == '.');
                }
            },
        }
    }
}

/// A name is parted at its last dot, unless it starts with it. What comes before is the stem
/// and what comes after the extension. Other names have no extension.
pub proof fn law_last_dot_parts_a_name(name: &str, r: (String, Option<String>))
    requires
        call_ensures(split_name, (name,), r),
    ensures
        r.1 is None ==> r.0@ == name@,
        r.1 matches Some(extension) ==> r.0@.len() > 0 && !extension@.contains('.') && name@
            == r.0@ + seq!['.'] + extension@,
        forall|i: int|
            0 < i < name@.len() && #[trigger] name@[i] == '.' && name@ != seq!['.', '.'] ==> r.1
                is Some,
        name@ == seq!['.', '.'] ==> r.1 is None,
{
    lemma_last_dot(name@);
    match last_dot(name@) {
        Some(dot) => {
            if !(dot == 0 || name@ == seq!['.', '.']) {
                let extension = name@.skip(dot + 1);
                assert(name@ =~= name@.take(dot) + seq!['.'] + extension);
                if extension.contains('.') {
                    let i: int = choose|i: int| 0 <= i < extension.len() && extension[i] == '.';
                    assert(name@[i + dot + 1] == '.');
                }
            }
            if dot == 0 {
                assert forall|i: int| 0 < i < name@.len() implies #[trigger] name@[i] != '.' by {
                }
            }
        },
        None => {},
    }
}

/// Snippets in a file of the name `snippets` are for all languages, those in any other for
/// the language that the file is named after.
pub proof fn law_files_are_named_after_languages(stem: &str, r: Option<String>)
    requires
        call_ensures(file_stem_to_key, (stem,), r),
    ensures
        stem@ == "snippets"@ ==> r is None,
        stem@ != "snippets"@ ==> r is Some && r->0@ == stem@,
{
}

/// The text of a snippet is its lines with a line feed between any two of them.
pub proof fn law_body_is_its_lines(body: ListOrDirect, all: Vec<String>, text: String, same: String)
    requires
        call_ensures(ListOrDirect::into_lines, (body,), all),
        call_ensures(ListOrDirect::text, (&body,), text),
        call_ensures(join, (&all, "\n"), same),
    ensures
        text@ == same@,
        body matches ListOrDirect::Single(line) ==> all@ == seq![line] && text@ == line@,
        body matches ListOrDirect::List(lines) ==> all@ == lines@,
{
    if let ListOrDirect::Single(line) = body {
        assert(texts(all@).len() == 1 && texts(all@)[0] == line@);
    }
}

/// Whether a change is one of the file of some snippets: a file, no directory, whose name
/// ends in `.json` and gives the kind of the snippets.
pub open spec fn is_change_of(change: ChangedFile, file: FileSnippets) -> bool {
    !change.is_dir && change.path@ == file.path@ && match change.name {
        Some(name) => match file.kind {
            Some(kind) => kind@ != "snippets"@ && name@ == kind@ + ".json"@ && kind@.len() > 0,
            None => name@ == "snippets.json"@,
        },
        None => false,
    }
}

proof fn lemma_json_name(stem: Seq<char>)
    requires
        stem.len() > 0,
    ensures
        stem_and_extension(stem + ".json"@) == (stem, Some("json"@)),
{
    reveal_strlit(".json");
    reveal_strlit("json");
    let name = stem + ".json"@;
    lemma_last_dot(name);
    let n: int = stem.len() as int;
    assert(name[n] == '.');
    assert(name.contains('.'));
    let dot: int = last_dot(name)->0;
    assert(dot == n) by {
        if dot < n {
            assert(name[n] != '.');
        } else if dot > n {
            assert(name[n + 1] == 'j' && name[n + 2] == 's' && name[n + 3] == 'o' && name[n + 4]
                == 'n');
        }
    }
    assert(name.take(n) =~= stem);
    assert(name.skip(n + 1) =~= "json"@);
    assert(name.len() > 2);
    assert(name != seq!['.', '.']);
}

proof fn lemma_change(change: ChangedFile, file: FileSnippets)
    ensures
        is_change_of(change, file) <==> changed_kind(change) is Some && is_file(
            file,
            changed_kind(change)->0,
            change.path@,
        ),
{
    reveal_strlit(".json");
    reveal_strlit("json");
    reveal_strlit("snippets");
    reveal_strlit("snippets.json");
    assert("snippets.json"@ =~= "snippets"@ + ".json"@);
    if is_change_of(change, file) {
        match file.kind {
            Some(kind) => lemma_json_name(kind@),
            None => lemma_json_name("snippets"@),
        }
    }
    if changed_kind(change) is Some && is_file(file, changed_kind(change)->0, change.path@) {
        let name = change.name->0@;
        lemma_last_dot(name);
        let dot: int = last_dot(name)->0;
        assert(name =~= name.take(dot) + ".json"@) by {
            assert(name.skip(dot + 1) == "json"@);
            assert(name.len() == dot + 5);
            assert forall|i: int| dot < i < name.len() implies name[i] == ".json"@[i - dot] by {
                assert(name.skip(dot + 1)[i - dot - 1] == "json"@[i - dot - 1]);
            }
        }
    }
}

proof fn lemma_files_left(files: Seq<FileSnippets>, kind: Option<Seq<char>>, path: Seq<Seq<char>>)
    ensures
        forall|file: FileSnippets| #[trigger]
            files_without(files, kind, path).contains(file) <==> files.contains(file) && !is_file(
                file,
                kind,
                path,
            ),
    decreases files.len(),
{
    if files.len() > 0 {
        let init = files.drop_last();
        lemma_files_left(init, kind, path);
        let before = files_without(init, kind, path);
        let after = files_without(files, kind, path);
        assert forall|file: FileSnippets| #[trigger]
            after.contains(file) <==> files.contains(file) && !is_file(file, kind, path) by {
            if after.contains(file) {
                let i: int = choose|i: int| 0 <= i < after.len() && after[i] == file;
                if i < before.len() {
                    assert(before[i] == file);
                    assert(before.contains(file));
                    let k: int = choose|k: int| 0 <= k < init.len() && init[k] == file;
                    assert(files[k] == file);
                } else {
                    assert(files[files.len() - 1] == file);
                }
            }
            if files.contains(file) && !is_file(file, kind, path) {
                let i: int = choose|i: int| 0 <= i < files.len() && files[i] == file;
                if i < init.len() {
                    assert(init[i] == file);
                    assert(before.contains(file));
                    let k: int = choose|k: int| 0 <= k < before.len() && before[k] == file;
                    assert(after[k] == file);
                } else {
                    assert(after[after.len() - 1] == file);
                }
            }
        }
    }
}

proof fn lemma_files_after(files: Seq<FileSnippets>, changed: Seq<ChangedFile>)
    ensures
        forall|file: FileSnippets| #[trigger]
            files_after(files, changed).contains(file) <==> files.contains(file) && forall|k: int|
                0 <= k < changed.len() ==> !is_change_of(#[trigger] changed[k], file),
    decreases changed.len(),
{
    if changed.len() > 0 {
        let init = changed.drop_last();
        let last = changed.last();
        lemma_files_after(files, init);
        let before = files_after(files, init);
        if let Some(kind) = changed_kind(last) {
            lemma_files_left(before, kind, last.path@);
        }
        assert forall|file: FileSnippets| #[trigger]
            files_after(files, changed).contains(file) <==> files.contains(file) && forall|k: int|
                0 <= k < changed.len() ==> !is_change_of(#[trigger] changed[k], file) by {
            lemma_change(last, file);
            assert(files_after(files, changed).contains(file) <==> before.contains(file)
                && !is_change_of(last, file));
            if forall|k: int| 0 <= k < changed.len() ==> !is_change_of(#[trigger] changed[k], file) {
                assert forall|k: int| 0 <= k < init.len() implies !is_change_of(
                    #[trigger] init[k],
                    file,
                ) by {
                    assert(init[k] == changed[k]);
                }
                assert(!is_change_of(changed[changed.len() - 1], file));
            }
            if before.contains(file) && !is_change_of(last, file) {
                assert forall|k: int| 0 <= k < changed.len() implies !is_change_of(
                    #[trigger] changed[k],
                    file,
                ) by {
                    if k < init.len() {
                        assert(init[k] == changed[k]);
                    }
                }
            }
        }
    }
}

/// Files that change lose their snippets until they are read again, and no others do.
pub proof fn law_only_changed_files_are_forgotten(
    provider: &mut SnippetProvider,
    entries: Vec<ChangedFile>,
    r: (),
    file: FileSnippets,
)
    requires
        call_ensures(SnippetProvider::process_updates, (provider, &entries), r),
    ensures
        final(provider).files@.contains(file) <==> old(provider).files@.contains(file)
            && forall|k: int|
            0 <= k < entries@.len() ==> !is_change_of(#[trigger] entries@[k], file),
{
    lemma_files_after(old(provider).files@, entries@);
}

/// Snippets are looked up among those of the files first, then among those that are for all
/// projects, and last among those of extensions. What is for all languages comes after what
/// is for one.
pub proof fn law_order_of_the_snippets(
    provider: SnippetProvider,
    global: SnippetProvider,
    registry: SnippetRegistry,
    language: Option<String>,
    own: Vec<Arc<Snippet>>,
    shared: Vec<Arc<Snippet>>,
    of_extensions: Vec<Arc<Snippet>>,
    found: Vec<Arc<Snippet>>,
    for_all: Vec<Arc<Snippet>>,
    r: Vec<Arc<Snippet>>,
)
    requires
        call_ensures(SnippetProvider::lookup_snippets, (&provider, &language, None, None), own),
        call_ensures(SnippetProvider::lookup_snippets, (&global, &language, None, None), shared),
        call_ensures(SnippetRegistry::get_snippets, (&registry, &language), of_extensions),
        call_ensures(
            SnippetProvider::lookup_snippets,
            (&provider, &language, Some(&global), Some(&registry)),
            found,
        ),
        call_ensures(
            SnippetProvider::lookup_snippets,
            (&provider, &None, Some(&global), Some(&registry)),
            for_all,
        ),
        call_ensures(
            SnippetProvider::snippets_for,
            (&provider, &language, Some(&global), Some(&registry)),
            r,
        ),
    ensures
        found@ == own@ + shared@ + of_extensions@,
        language is Some ==> r@ == found@ + for_all@,
        language is None ==> r@ == found@,
{
}

/// The snippets of a language are those of the files of the language, file by file. What an
/// extension registered for it comes whole.
pub proof fn law_snippets_of_a_language(
    provider: SnippetProvider,
    longer: SnippetProvider,
    file: FileSnippets,
    registry: SnippetRegistry,
    language: Option<String>,
    own: Vec<Arc<Snippet>>,
    more: Vec<Arc<Snippet>>,
    of_extensions: Vec<Arc<Snippet>>,
    i: int,
)
    requires
        longer.files@ == provider.files@.push(file),
        call_ensures(SnippetProvider::lookup_snippets, (&provider, &language, None, None), own),
        call_ensures(SnippetProvider::lookup_snippets, (&longer, &language, None, None), more),
        call_ensures(SnippetRegistry::get_snippets, (&registry, &language), of_extensions),
        0 <= i < registry.snippets@.len(),
        optional_text(registry.snippets@[i].0) == optional_text(language),
        forall|j: int|
            0 <= j < i ==> optional_text((#[trigger] registry.snippets@[j]).0) != optional_text(
                language,
            ),
    ensures
        provider.files@.len() == 0 ==> own@.len() == 0,
        optional_text(file.kind) == optional_text(language) ==> more@ == own@ + file.snippets@,
        optional_text(file.kind) != optional_text(language) ==> more@ == own@,
        of_extensions@ == registry.snippets@[i].1@,
{
    assert(longer.files@.drop_last() =~= provider.files@);
    assert(longer.files@.last() == file);
    lemma_registered(registry.snippets@, optional_text(language), i);
}

proof fn lemma_registered(
    snippets: Seq<(Option<String>, Vec<Arc<Snippet>>)>,
    kind: Option<Seq<char>>,
    i: int,
)
    requires
        0 <= i < snippets.len(),
        optional_text(snippets[i].0) == kind,
        forall|j: int| 0 <= j < i ==> optional_text((#[trigger] snippets[j]).0) != kind,
    ensures
        registered(snippets, kind) == snippets[i].1@,
    decreases i,
{
    if i > 0 {
        let rest = snippets.drop_first();
        assert(optional_text(snippets[0].0) != kind);
        assert forall|j: int| 0 <= j < i - 1 implies optional_text((#[trigger] rest[j]).0)
            != kind by {
            assert(rest[j] == snippets[j + 1]);
        }
        lemma_registered(rest, kind, i - 1);
    }
}

} // verus!
