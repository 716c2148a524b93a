//! Paths as the names they are made of.

use vstd::prelude::*;
use crate::text::{
    chars_of, copy_text, copy_texts, lemma_text_before_total, lemma_text_before_transitive, str_before,
    str_eq, text_before, texts,
};

verus! {

/// A path inside a worktree: names, one below the other. The empty path is the
/// root.
#[derive(Debug)]
pub struct RelPath {
    pub components: Vec<String>,
}

impl View for RelPath {
    type V = Seq<Seq<char>>;

    open spec fn view(&self) -> Seq<Seq<char>> {
        texts(self.components@)
    }
}

/// Whether a path is the path of the directory that another lies in.
pub open spec fn is_parent(parent: Seq<Seq<char>>, child: Seq<Seq<char>>) -> bool {
    child.len() > 0 && child.drop_last() == parent
}

/// The directory that a path lies in.
pub open spec fn parent_of(path: Seq<Seq<char>>) -> Option<Seq<Seq<char>>> {
    if path.len() == 0 {
        None
    } else {
        Some(path.drop_last())
    }
}

/// Whether a path is another one or lies below it.
pub open spec fn is_below(path: Seq<Seq<char>>, dir: Seq<Seq<char>>) -> bool {
    dir.len() <= path.len() && path.take(dir.len() as int) == dir
}

/// Whether a path comes before another: at the first name in which they differ,
/// or where it ends first.
pub open spec fn path_before(a: Seq<Seq<char>>, b: Seq<Seq<char>>) -> bool
    decreases a.len(),
{
    if b.len() == 0 {
        false
    } else if a.len() == 0 {
        true
    } else if a[0] != b[0] {
        text_before(a[0], b[0])
    } else {
        path_before(a.drop_first(), b.drop_first())
    }
}

pub proof fn lemma_path_before_total(a: Seq<Seq<char>>, b: Seq<Seq<char>>)
    ensures
        !path_before(a, a),
        a == b || path_before(a, b) || path_before(b, a),
        !(path_before(a, b) && path_before(b, a)),
    decreases a.len(),
{
    if a.len() > 0 {
        lemma_path_before_total(a.drop_first(), a.drop_first());
    }
    if a.len() > 0 && b.len() > 0 {
        lemma_text_before_total(a[0], b[0]);
        if a[0] == b[0] {
            lemma_path_before_total(a.drop_first(), b.drop_first());
            if a.drop_first() == b.drop_first() {
                assert(a =~= seq![a[0]] + a.drop_first());
                assert(b =~= seq![b[0]] + b.drop_first());
            }
        }
    } else if a.len() == 0 && b.len() == 0 {
        assert(a =~= b);
    }
}

pub proof fn lemma_path_before_transitive(
    a: Seq<Seq<char>>,
    b: Seq<Seq<char>>,
    c: Seq<Seq<char>>,
)
    requires
        path_before(a, b),
        path_before(b, c),
    ensures
        path_before(a, c),
    decreases a.len(),
{
    if a.len() > 0 {
        lemma_text_before_total(a[0], c[0]);
        lemma_text_before_total(a[0], b[0]);
        if a[0] == b[0] && b[0] == c[0] {
            lemma_path_before_transitive(a.drop_first(), b.drop_first(), c.drop_first());
        } else if a[0] != b[0] && b[0] != c[0] {
            lemma_text_before_transitive(a[0], b[0], c[0]);
        }
    }
}

proof fn lemma_path_before_at(a: Seq<Seq<char>>, b: Seq<Seq<char>>, i: int)
    requires
        0 <= i <= a.len(),
        i <= b.len(),
        forall|j: int| 0 <= j < i ==> #[trigger] a[j] == b[j],
    ensures
        i < a.len() && i < b.len() && a[i] != b[i] ==> path_before(a, b) == text_before(a[i], b[i]),
        i == a.len() || i == b.len() ==> path_before(a, b) == (a.len() < b.len()),
    decreases i,
{
    if i > 0 {
        assert(a[0] == b[0]);
        let x = a.drop_first();
        let y = b.drop_first();
        assert forall|j: int| 0 <= j < i - 1 implies #[trigger] x[j] == y[j] by {
            assert(a[j + 1] == b[j + 1]);
        }
        lemma_path_before_at(x, y, i - 1);
    }
}

impl RelPath {
    /// Whether two paths agree in their first `n` names.
    fn agrees(&self, other: &RelPath, n: usize) -> (r: bool)
        requires
            n <= self@.len(),
            n <= other@.len(),
        ensures
            r == (self@.take(n as int) == other@.take(n as int)),
    {
        let mut i: usize = 0;
        while i < n
            invariant
                i <= n,
                n <= self@.len(),
                n <= other@.len(),
                forall|j: int| 0 <= j < i ==> #[trigger] self@[j] == other@[j],
            decreases n - i,
        {
            if !str_eq(self.components[i].as_str(), other.components[i].as_str()) {
                assert(self@.take(n as int)[i as int] != other@.take(n as int)[i as int]);
                return false;
            }
            assert(self@[i as int] == other@[i as int]);
            i = i + 1;
        }
        assert(self@.take(n as int) =~= other@.take(n as int));
        true
    }

    pub fn same(&self, other: &RelPath) -> (r: bool)
        ensures
            r == (self@ == other@),
    {
        let n: usize = self.components.len();
        if n != other.components.len() {
            return false;
        }
        assert(self@.take(n as int) =~= self@);
        assert(other@.take(n as int) =~= other@);
        self.agrees(other, n)
    }

    /// Whether the path is another one or lies below it.
    pub fn starts_with(&self, dir: &RelPath) -> (r: bool)
        ensures
            r == is_below(self@, dir@),
    {
        let n: usize = dir.components.len();
        if n > self.components.len() {
            return false;
        }
        assert(dir@.take(n as int) =~= dir@);
        self.agrees(dir, n)
    }

    /// What is left of the path below a directory.
    pub fn strip_prefix(&self, dir: &RelPath) -> (r: Option<RelPath>)
        ensures
            match r {
                Some(rest) => is_below(self@, dir@) && rest@ == self@.skip(dir@.len() as int),
                None => !is_below(self@, dir@),
            },
    {
        if !self.starts_with(dir) {
            return None;
        }
        let mut components: Vec<String> = Vec::new();
        let start: usize = dir.components.len();
        let mut i: usize = start;
        while i < self.components.len()
            invariant
                start <= i <= self.components@.len(),
                start == dir@.len(),
                components@.len() == i - start,
                forall|j: int| 0 <= j < i - start ==> (#[trigger] components@[j])@ == self@[start + j],
            decreases self.components.len() - i,
        {
            components.push(copy_text(self.components[i].as_str()));
            i = i + 1;
        }
        let rest = RelPath { components };
        assert(rest@ =~= self@.skip(dir@.len() as int));
        Some(rest)
    }

    /// Whether the path is that of the directory that another lies in.
    pub fn is_parent_of(&self, child: &RelPath) -> (r: bool)
        ensures
            r == is_parent(self@, child@),
    {
        let n: usize = self.components.len();
        if child.components.len() == 0 || child.components.len() - 1 != n {
            assert(child@.len() > 0 ==> child@.drop_last().len() != self@.len());
            return false;
        }
        assert(self@.take(n as int) =~= self@);
        assert(child@.take(n as int) =~= child@.drop_last());
        self.agrees(child, n)
    }

    /// The directory that the path lies in.
    pub fn parent(&self) -> (r: Option<RelPath>)
        ensures
            match r {
                Some(parent) => parent_of(self@) == Some(parent@),
                None => parent_of(self@) is None,
            },
    {
        if self.components.len() == 0 {
            None
        } else {
            let mut components: Vec<String> = copy_texts(&self.components);
            let ghost all = components@;
            assert(all.len() == texts(all).len());
            let _last = components.pop();
            let parent = RelPath { components };
            assert(parent@ =~= self@.drop_last()) by {
                assert(texts(all) == self@);
                assert forall|i: int| 0 <= i < parent@.len() implies parent@[i] == self@[i] by {
                    assert(texts(all)[i] == self@[i]);
                }
            }
            Some(parent)
        }
    }

    /// A path below this one.
    pub fn join(&self, path: &RelPath) -> (r: RelPath)
        ensures
            r@ == self@ + path@,
    {
        let mut components: Vec<String> = copy_texts(&self.components);
        let mut rest: Vec<String> = copy_texts(&path.components);
        let ghost first = components@;
        let ghost second = rest@;
        components.append(&mut rest);
        let r = RelPath { components };
        assert(texts(first + second) =~= texts(first) + texts(second));
        r
    }

    pub fn copy(&self) -> (r: RelPath)
        ensures
            r@ == self@,
    {
        RelPath { components: copy_texts(&self.components) }
    }

    /// The last name of the path.
    pub fn file_name(&self) -> (r: Option<&String>)
        ensures
            match r {
                Some(name) => self@.len() > 0 && name@ == self@.last(),
                None => self@.len() == 0,
            },
    {
        let n: usize = self.components.len();
        if n == 0 {
            None
        } else {
            Some(&self.components[n - 1])
        }
    }

    /// Whether the path comes before another.
    pub fn comes_before(&self, other: &RelPath) -> (r: bool)
        ensures
            r == path_before(self@, other@),
    {
        let mut i: usize = 0;
        while i < self.components.len() && i < other.components.len()
            invariant
                i <= self@.len(),
                i <= other@.len(),
                forall|j: int| 0 <= j < i ==> #[trigger] self@[j] == other@[j],
            decreases self.components.len() - i,
        {
            let a: &str = self.components[i].as_str();
            let b: &str = other.components[i].as_str();
            if !str_eq(a, b) {
                proof {
                    lemma_path_before_at(self@, other@, i as int);
                }
                return str_before(a, b);
            }
            assert(self@[i as int] == other@[i as int]);
            i = i + 1;
        }
        proof {
            lemma_path_before_at(self@, other@, i as int);
        }
        self.components.len() < other.components.len()
    }
}

/// A part of a path.
#[derive(Debug)]
pub enum Component {
    Normal(String),
    ParentDir,
    CurDir,
}

/// Any path.
#[derive(Debug)]
pub struct AnyPath {
    pub absolute: bool,
    pub components: Vec<Component>,
}

/// What a part of a path is written as.
pub open spec fn component_text(component: Component) -> Seq<char> {
    match component {
        Component::Normal(name) => name@,
        Component::ParentDir => seq!['.', '.'],
        Component::CurDir => seq!['.'],
    }
}

/// What a path is written as.
pub open spec fn path_text(absolute: bool, components: Seq<Component>) -> Seq<char>
    decreases components.len(),
{
    if components.len() == 0 {
        if absolute {
            seq!['/']
        } else {
            Seq::empty()
        }
    } else if components.len() == 1 {
        (if absolute {
            seq!['/']
        } else {
            Seq::empty()
        }) + component_text(components[0])
    } else {
        path_text(absolute, components.drop_last()).push('/') + component_text(components.last())
    }
}

/// The last name in a path: that of what it leads to, or, where it ends with a
/// step up, of the last thing on the way that has a name.
pub open spec fn last_name(components: Seq<Component>) -> Option<Seq<char>>
    decreases components.len(),
{
    if components.len() == 0 {
        None
    } else {
        match components.last() {
            Component::Normal(name) => Some(name@),
            _ => last_name(components.drop_last()),
        }
    }
}

/// The name to show for a path: its last name, or all of it where it has none.
pub open spec fn name_of(path: AnyPath) -> Seq<char> {
    match last_name(path.components@) {
        Some(name) => name,
        None => path_text(path.absolute, path.components@),
    }
}

impl AnyPath {
    /// What the path is written as.
    pub fn to_text(&self) -> (r: String)
        ensures
            r@ == path_text(self.absolute, self.components@),
    {
        let mut r: String = String::new();
        if self.absolute {
            r.push('/');
        }
        let mut i: usize = 0;
        assert(self.components@.take(0) =~= Seq::empty());
        assert(r@ =~= path_text(self.absolute, self.components@.take(0)));
        while i < self.components.len()
            invariant
                i <= self.components@.len(),
                r@ == path_text(self.absolute, self.components@.take(i as int)),
            decreases self.components.len() - i,
        {
            if i > 0 {
                r.push('/');
            }
            match &self.components[i] {
                Component::Normal(name) => {
                    r.push_str(name.as_str());
                },
                Component::ParentDir => {
                    r.push('.');
                    r.push('.');
                },
                Component::CurDir => {
                    r.push('.');
                },
            }
            proof {
                let next = self.components@.take(i + 1);
                assert(next.drop_last() =~= self.components@.take(i as int));
                assert(next.last() == self.components@[i as int]);
                assert(r@ =~= path_text(self.absolute, next));
            }
            i = i + 1;
        }
        assert(self.components@.take(i as int) =~= self.components@);
        r
    }
}

/// The name to show for a path: its last name, or all of it where it has none.
pub fn file_name(path: &AnyPath) -> (r: String)
    ensures
        r@ == name_of(*path),
{
    let mut i: usize = path.components.len();
    assert(path.components@.take(i as int) =~= path.components@);
    while i > 0
        invariant
            i <= path.components@.len(),
            last_name(path.components@.take(i as int)) == last_name(path.components@),
        decreases i,
    {
        proof {
            let here = path.components@.take(i as int);
            assert(here.drop_last() =~= path.components@.take(i - 1));
            assert(here.last() == path.components@[i - 1]);
        }
        if let Component::Normal(name) = &path.components[i - 1] {
            return copy_text(name.as_str());
        }
        i = i - 1;
    }
    path.to_text()
}

/// A path and what lies behind it. A path that starts with a slash stands for itself.
pub open spec fn joined_path(base: Seq<char>, part: Seq<char>) -> Seq<char> {
    if part.len() > 0 && part[0] == '/' {
        part
    } else if base.len() == 0 || base.last() == '/' {
        base + part
    } else {
        base + seq!['/'] + part
    }
}

/// A path and what lies behind it.
pub fn join_path(base: &str, part: &str) -> (r: String)
    ensures
        r@ == joined_path(base@, part@),
{
    let base_chars = chars_of(base);
    let part_chars = chars_of(part);
    if part_chars.len() > 0 && part_chars[0] == '/' {
        return copy_text(part);
    }
    let mut r = copy_text(base);
    if base_chars.len() > 0 && base_chars[base_chars.len() - 1] != '/' {
        r.push('/');
    }
    r.push_str(part);
    assert(r@ =~= joined_path(base@, part@));
    r
}

/// The kind of machine.
#[derive(Copy, Clone, Debug, PartialEq, Eq, Structural)]
pub enum Os {
    Windows,
    Other,
}

/// Whether a character stands between the names in a path.
pub open spec fn is_separator(c: char, os: Os) -> bool {
    c == '/' || (os == Os::Windows && c == '\\')
}

/// What stands between the names in a path.
pub open spec fn separator_of(os: Os) -> char {
    match os {
        Os::Windows => '\\',
        Os::Other => '/',
    }
}

/// The drive that a path starts with, if there is one: a letter and a colon.
pub open spec fn drive_of(path: Seq<char>, os: Os) -> Seq<char> {
    if os == Os::Windows && path.len() >= 2 && path[1] == ':' && ('a' <= path[0] <= 'z' || 'A'
        <= path[0] <= 'Z') {
        path.take(2)
    } else {
        Seq::empty()
    }
}

/// A path and what lies behind it. A path with a drive or of a network share stands for
/// itself, and so does one that starts with a separator, below the drive of the first
/// path.
pub open spec fn pushed_path(base: Seq<char>, part: Seq<char>, os: Os) -> Seq<char> {
    if drive_of(part, os).len() > 0 || (os == Os::Windows && part.len() >= 2 && is_separator(
        part[0],
        os,
    ) && is_separator(part[1], os)) {
        part
    } else if part.len() > 0 && is_separator(part[0], os) {
        drive_of(base, os) + part
    } else if base.len() == 0 || is_separator(base.last(), os) || base == drive_of(base, os) {
        base + part
    } else {
        base.push(separator_of(os)) + part
    }
}

fn separates(c: char, os: Os) -> (r: bool)
    ensures
        r == is_separator(c, os),
{
    c == '/' || (os == Os::Windows && c == '\\')
}

fn has_drive(chars: &Vec<char>, os: Os) -> (r: bool)
    ensures
        r == (drive_of(chars@, os).len() > 0),
        r ==> drive_of(chars@, os) == chars@.take(2) && chars@.len() >= 2,
        !r ==> drive_of(chars@, os) == Seq::<char>::empty(),
{
    os == Os::Windows && chars.len() >= 2 && chars[1] == ':' && (('a' <= chars[0] && chars[0]
        <= 'z') || ('A' <= chars[0] && chars[0] <= 'Z'))
}

/// A path and what lies behind it.
pub fn push_path(base: &str, part: &str, os: Os) -> (r: String)
    ensures
        r@ == pushed_path(base@, part@, os),
{
    let base_chars = chars_of(base);
    let part_chars = chars_of(part);
    if has_drive(&part_chars, os) || (os == Os::Windows && part_chars.len() >= 2 && separates(
        part_chars[0],
        os,
    ) && separates(part_chars[1], os)) {
        return copy_text(part);
    }
    let on_drive: bool = has_drive(&base_chars, os);
    if part_chars.len() > 0 && separates(part_chars[0], os) {
        let mut r = String::new();
        if on_drive {
            r.push(base_chars[0]);
            r.push(base_chars[1]);
        }
        r.push_str(part);
        assert(r@ =~= drive_of(base@, os) + part@);
        return r;
    }
    let mut r = copy_text(base);
    let n: usize = base_chars.len();
    if n > 0 && !separates(base_chars[n - 1], os) && !(on_drive && n == 2) {
        assert(base@ != drive_of(base@, os));
        r.push(
            match os {
                Os::Windows => '\\',
                Os::Other => '/',
            },
        );
    } else if n == 2 && on_drive {
        assert(base@ =~= drive_of(base@, os));
    }
    r.push_str(part);
    assert(r@ =~= pushed_path(base@, part@, os));
    r
}

impl AnyPath {
    /// The path without its last part.
    pub fn parent(&self) -> (r: Option<AnyPath>)
        ensures
            match r {
                Some(parent) => self.components@.len() > 0 && parent.absolute == self.absolute
                    && parent.components@ == self.components@.drop_last(),
                None => self.components@.len() == 0,
            },
    {
        if self.components.len() == 0 {
            return None;
        }
        let mut components: Vec<Component> = Vec::new();
        let mut i: usize = 0;
        while i < self.components.len() - 1
            invariant
                i <= self.components@.len() - 1,
                components@ =~= self.components@.take(i as int),
            decreases self.components.len() - i,
        {
            components.push(
                match &self.components[i] {
                    Component::Normal(name) => Component::Normal(name.clone()),
                    Component::ParentDir => Component::ParentDir,
                    Component::CurDir => Component::CurDir,
                },
            );
            i = i + 1;
        }
        assert(components@ =~= self.components@.drop_last());
        Some(AnyPath { absolute: self.absolute, components })
    }
}

} // verus!
