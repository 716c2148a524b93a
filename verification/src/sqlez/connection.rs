//! Connections to a database.

use vstd::prelude::*;
use crate::text::{
    byte_len, chars_of, copy_text, debug_text, find_text, first_word, format_debug, has_prefix,
    is_ascii_text, lemma_byte_len_push, lowercase, occurrence, signed_decimal, signed_decimal_text, starts_with, str_eq, text_len,
    text_of, to_lowercase, trim, trimmed, word_from,
};

verus! {

/// The code of a call that succeeded.
pub const SQLITE_OK: i32 = 0;

/// The code of a call that led to an error of no special kind.
pub const SQLITE_ERROR: i32 = 1;

/// The code of a call that led to a row.
pub const SQLITE_ROW: i32 = 100;

/// A connection to a database.
#[derive(Copy, Clone, Debug, PartialEq, Eq, Structural)]
pub struct Connection {
    persistent: bool,
    write: bool,
}

/// A database that is to be opened.
#[derive(Debug)]
pub struct OpenPlan {
    pub uri: String,
    /// Whether what is stored stays when the program ends.
    pub persistent: bool,
}

/// The name of a database in memory: one that all who know a name share, or one for a
/// single connection.
pub open spec fn memory_uri(uri: Option<&str>) -> Seq<char> {
    match uri {
        Some(uri) => "file:"@ + uri@ + "?mode=memory&cache=shared"@,
        None => ":memory:"@,
    }
}

impl Connection {
    /// Whether what is stored stays.
    pub closed spec fn is_persistent(&self) -> bool {
        self.persistent
    }

    /// Whether something may be stored.
    pub closed spec fn may_write(&self) -> bool {
        self.write
    }

    /// The connection that opening a database leads to.
    pub fn open(plan: &OpenPlan) -> (r: Connection)
        ensures
            r.is_persistent() == plan.persistent,
            r.may_write(),
    {
        Connection { persistent: plan.persistent, write: true }
    }

    /// The database to be opened for a file. Where `failed` says that it could not be, it
    /// is one in memory.
    pub fn open_file(uri: &str, failed: bool) -> (r: OpenPlan)
        ensures
            r.persistent == !failed,
            r.uri@ == (if failed {
                memory_uri(Some(uri))
            } else {
                uri@
            }),
    {
        if failed {
            Connection::open_memory(Some(uri))
        } else {
            OpenPlan { uri: copy_text(uri), persistent: true }
        }
    }

    /// A database in memory.
    pub fn open_memory(uri: Option<&str>) -> (r: OpenPlan)
        ensures
            !r.persistent,
            r.uri@ == memory_uri(uri),
    {
        let path = match uri {
            Some(uri) => {
                let mut path = copy_text("file:");
                path.push_str(uri);
                path.push_str("?mode=memory&cache=shared");
                path
            },
            None => copy_text(":memory:"),
        };
        OpenPlan { uri: path, persistent: false }
    }

    pub fn persistent(&self) -> (r: bool)
        ensures
            r == self.is_persistent(),
    {
        self.persistent
    }

    pub fn can_write(&self) -> (r: bool)
        ensures
            r == self.may_write(),
    {
        self.write
    }

    /// Lets something be stored, until `end_write`.
    pub fn begin_write(&mut self)
        ensures
            final(self).may_write(),
            final(self).is_persistent() == old(self).is_persistent(),
    {
        self.write = true;
    }

    /// Lets nothing be stored any more.
    pub fn end_write(&mut self)
        ensures
            !final(self).may_write(),
            final(self).is_persistent() == old(self).is_persistent(),
    {
        self.write = false;
    }
}

/// How an error is told of.
pub open spec fn failure_text(code: i32, message: Option<&str>) -> Seq<char> {
    "Sqlite call failed with code "@ + signed_decimal(code as int) + " and message: "@ + (
    match message {
        Some(message) => "Some("@ + debug_text(message@) + ")"@,
        None => "None"@,
    })
}

/// What the last call led to: nothing to tell of, or an error.
pub fn last_error(code: i32, message: Option<&str>) -> (r: Result<(), String>)
    ensures
        match r {
            Ok(()) => code == SQLITE_OK || code == SQLITE_ROW,
            Err(text) => code != SQLITE_OK && code != SQLITE_ROW && text@ == failure_text(
                code,
                message,
            ),
        },
{
    if code == SQLITE_OK || code == SQLITE_ROW {
        return Ok(());
    }
    let mut text = copy_text("Sqlite call failed with code ");
    text.push_str(signed_decimal_text(code as i64).as_str());
    text.push_str(" and message: ");
    match message {
        Some(message) => {
            text.push_str("Some(");
            text.push_str(format_debug(message).as_str());
            text.push_str(")");
            assert(text@ =~= failure_text(code, Some(message)));
        },
        None => {
            text.push_str("None");
        },
    }
    Err(text)
}

/// A table, and a column of it, that a statement changes.
#[derive(Debug)]
pub struct AlteredTable {
    pub table: String,
    pub column: String,
}

/// The word behind a number of characters.
pub open spec fn word_behind(text: Seq<char>, n: nat) -> Seq<char> {
    first_word(
        text.skip(
            if n < text.len() {
                n as int
            } else {
                text.len() as int
            },
        ),
    )
}

/// How many bytes there are up to the end of a part of a text.
pub open spec fn bytes_through(text: Seq<char>, at: nat, part: Seq<char>) -> nat {
    byte_len(text.take(at as int)) + byte_len(part)
}

/// The column that a statement in lower case changes.
pub open spec fn altered_column(text: Seq<char>) -> Seq<char> {
    match occurrence(text, "rename column"@) {
        Some(at) => word_behind(text, bytes_through(text, at, "rename column"@)),
        None => match occurrence(text, "drop column"@) {
            Some(at) => word_behind(text, bytes_through(text, at, "drop column"@)),
            None => "__place_holder_column_for_syntax_checking"@,
        },
    }
}

/// The table and the column that a statement in lower case changes, if it changes any.
pub open spec fn altered(text: Seq<char>) -> Option<(Seq<char>, Seq<char>)> {
    if !starts_with(text, "alter"@) {
        None
    } else {
        match occurrence(text, "table"@) {
            None => None,
            Some(at) => {
                let table = word_behind(text, bytes_through(text, at, "table"@));
                if table.len() == 0 {
                    None
                } else {
                    Some((table, altered_column(text)))
                }
            },
        }
    }
}

fn word_after(chars: &Vec<char>, at: usize, part: &str) -> (r: String)
    requires
        at + part@.len() <= chars@.len(),
    ensures
        r@ == word_behind(chars@, bytes_through(chars@, at as nat, part@)),
{
    let before = text_of(chars, 0, at);
    assert(before@ =~= chars@.take(at as int));
    let skipped: usize = text_len(before.as_str()).saturating_add(text_len(part));
    let from: usize = if skipped < chars.len() {
        skipped
    } else {
        chars.len()
    };
    word_from(chars, from)
}

/// The table and the column that a statement in lower case changes.
pub fn altered_table(text: &str) -> (r: Option<AlteredTable>)
    ensures
        match r {
            Some(found) => altered(text@) == Some((found.table@, found.column@)),
            None => altered(text@) is None,
        },
{
    if !has_prefix(text, "alter") {
        return None;
    }
    let chars = chars_of(text);
    let at: usize = match find_text(&chars, "table") {
        Some(at) => at,
        None => {
            return None;
        },
    };
    let table = word_after(&chars, at, "table");
    if str_eq(table.as_str(), "") {
        proof {
            reveal_strlit("");
        }
        return None;
    }
    proof {
        reveal_strlit("");
        if table@.len() == 0 {
            assert(table@ =~= ""@);
        }
    }
    let column = match find_text(&chars, "rename column") {
        Some(at) => word_after(&chars, at, "rename column"),
        None => match find_text(&chars, "drop column") {
            Some(at) => word_after(&chars, at, "drop column"),
            None => copy_text("__place_holder_column_for_syntax_checking"),
        },
    };
    Some(AlteredTable { table, column })
}

/// The table and the column that a statement changes.
pub fn parse_alter_table(remaining_sql: &str) -> (r: Option<AlteredTable>)
    ensures
        match r {
            Some(found) => altered(lowercase(remaining_sql@)) == Some(
                (found.table@, found.column@),
            ),
            None => altered(lowercase(remaining_sql@)) is None,
        },
{
    let lower = to_lowercase(remaining_sql);
    altered_table(lower.as_str())
}

/// How the next statement is checked.
#[derive(Debug)]
pub enum SyntaxCheck {
    /// No statement is left.
    Done,
    /// The statement is prepared on the connection.
    Prepare,
    /// The statement is prepared on a new database in memory, once this was run there:
    /// it changes a table, and is only read when there is such a table.
    PrepareAfter(String),
}

/// What makes a table with a column.
pub open spec fn create_table_text(table: Seq<char>, column: Seq<char>) -> Seq<char> {
    "CREATE TABLE "@ + table + "("@ + column + ")"@
}

/// How the next of some statements is checked.
pub fn next_check(remaining_sql: &str) -> (r: SyntaxCheck)
    ensures
        ({
            let rest = trimmed(remaining_sql@);
            if rest.len() == 0 || rest == ";"@ {
                r == SyntaxCheck::Done
            } else {
                match altered(lowercase(rest)) {
                    Some((table, column)) => r matches SyntaxCheck::PrepareAfter(sql) && sql@
                        == create_table_text(table, column),
                    None => r == SyntaxCheck::Prepare,
                }
            }
        }),
{
    let rest = trim(remaining_sql);
    proof {
        reveal_strlit("");
        if rest@.len() == 0 {
            assert(rest@ =~= ""@);
        }
    }
    if str_eq(rest.as_str(), "") || str_eq(rest.as_str(), ";") {
        return SyntaxCheck::Done;
    }
    match parse_alter_table(rest.as_str()) {
        Some(found) => {
            let mut sql = copy_text("CREATE TABLE ");
            sql.push_str(found.table.as_str());
            sql.push_str("(");
            sql.push_str(found.column.as_str());
            sql.push_str(")");
            SyntaxCheck::PrepareAfter(sql)
        },
        None => SyntaxCheck::Prepare,
    }
}

/// What preparing a statement says of its syntax: an error, where it is told apart from
/// other errors by a place in the statement. The place is counted from the start of all
/// statements, `checked` bytes of which were in order.
pub fn syntax_error(code: i32, offset: i32, message: String, checked: usize) -> (r: Option<
    (String, usize),
>)
    requires
        checked + offset <= usize::MAX,
    ensures
        r == (if code == SQLITE_ERROR && offset >= 0 {
            Some((message, (checked + offset) as usize))
        } else {
            None
        }),
{
    if code == SQLITE_ERROR && offset >= 0 {
        Some((message, checked + offset as usize))
    } else {
        None
    }
}

/// A database in memory is used for a file that could not be opened, and nobody takes it
/// for the file.
pub proof fn law_fallback_is_not_the_file(uri: &str)
    ensures
        memory_uri(Some(uri)) != uri@,
{
    reveal_strlit("file:");
    assert(memory_uri(Some(uri)).len() > uri@.len());
}

proof fn lemma_ascii_len(text: Seq<char>)
    requires
        is_ascii_text(text),
    ensures
        byte_len(text) == text.len(),
    decreases text.len(),
{
    if text.len() == 0 {
        reveal_with_fuel(vstd::utf8::encode_utf8, 1);
        assert(text =~= Seq::empty());
    } else {
        let init = text.drop_last();
        assert forall|i: int| 0 <= i < init.len() implies (#[trigger] init[i] as u32) < 0x80 by {
            assert(init[i] == text[i]);
        }
        lemma_ascii_len(init);
        lemma_byte_len_push(init, text.last());
        assert(init.push(text.last()) =~= text);
        assert((text[text.len() - 1] as u32) < 0x80);
    }
}

proof fn lemma_word_behind(text: Seq<char>, at: nat, part: Seq<char>)
    requires
        is_ascii_text(text),
        is_ascii_text(part),
        at + part.len() <= text.len(),
    ensures
        word_behind(text, bytes_through(text, at, part)) == first_word(
            text.skip((at + part.len()) as int),
        ),
{
    let front = text.take(at as int);
    assert forall|i: int| 0 <= i < front.len() implies (#[trigger] front[i] as u32) < 0x80 by {
        assert(front[i] == text[i]);
    }
    lemma_ascii_len(front);
    lemma_ascii_len(part);
}

proof fn lemma_occurs_inside(text: Seq<char>, part: Seq<char>)
    requires
        occurrence(text, part) is Some,
    ensures
        occurrence(text, part)->0 + part.len() <= text.len(),
    decreases text.len(),
{
    if !starts_with(text, part) {
        lemma_occurs_inside(text.drop_first(), part);
    }
}

/// What a statement that alters a table is about: the word behind `table` is the table. The
/// word behind `rename column`, or else behind `drop column`, is the column, and a
/// placeholder stands for it where there is none. Other statements alter no table.
pub proof fn law_what_is_altered(text: &str, r: Option<AlteredTable>)
    requires
        is_ascii_text(text@),
        call_ensures(altered_table, (text,), r),
    ensures
        !"alter"@.is_prefix_of(text@) ==> r is None,
        occurrence(text@, "table"@) is None ==> r is None,
        "alter"@.is_prefix_of(text@) && occurrence(text@, "table"@) is Some ==> {
            let table = first_word(text@.skip((occurrence(text@, "table"@)->0 + 5) as int));
            let renamed = occurrence(text@, "rename column"@);
            let dropped = occurrence(text@, "drop column"@);
            &&& r is Some <==> table.len() > 0
            &&& r matches Some(found) ==> found.table@ == table && found.column@ == (
            if renamed is Some {
                first_word(text@.skip((renamed->0 + 13) as int))
            } else if dropped is Some {
                first_word(text@.skip((dropped->0 + 11) as int))
            } else {
                "__place_holder_column_for_syntax_checking"@
            })
        },
{
    reveal_strlit("alter");
    reveal_strlit("table");
    reveal_strlit("rename column");
    reveal_strlit("drop column");
    if text@.len() >= 5 {
        assert(text@.subrange(0, 5) == text@.take(5));
    }
    assert("alter"@.is_prefix_of(text@) == starts_with(text@, "alter"@));
    if let Some(at) = occurrence(text@, "table"@) {
        lemma_occurs_inside(text@, "table"@);
        lemma_word_behind(text@, at, "table"@);
    }
    if let Some(at) = occurrence(text@, "rename column"@) {
        lemma_occurs_inside(text@, "rename column"@);
        lemma_word_behind(text@, at, "rename column"@);
    }
    if let Some(at) = occurrence(text@, "drop column"@) {
        lemma_occurs_inside(text@, "drop column"@);
        lemma_word_behind(text@, at, "drop column"@);
    }
}

/// What is left of a script is done where nothing but white space or one semicolon is. Before
/// a table is altered, a table of its name is made that has the column.
pub proof fn law_tables_are_made_before_they_are_altered(
    remaining: &str,
    rest: String,
    same: &str,
    altered: Option<AlteredTable>,
    r: SyntaxCheck,
)
    requires
        call_ensures(trim, (remaining,), rest),
        same@ == rest@,
        call_ensures(parse_alter_table, (same,), altered),
        call_ensures(next_check, (remaining,), r),
    ensures
        r == SyntaxCheck::Done <==> rest@.len() == 0 || rest@ == seq![';'],
        rest@.len() > 0 && rest@ != seq![';'] && altered is None ==> r == SyntaxCheck::Prepare,
        rest@.len() > 0 && rest@ != seq![';'] && altered is Some ==> (r matches
            SyntaxCheck::PrepareAfter(sql) && sql@ == "CREATE TABLE "@ + altered->0.table@ + "("@
            + altered->0.column@ + ")"@),
{
    reveal_strlit(";");
    assert(";"@ =~= seq![';']);
}

/// A database that cannot be opened is replaced by one in memory that goes by its name. Calls
/// fail for all codes but those of success and of a row, and an error that has a place is
/// moved by what was checked before.
pub proof fn law_connections_and_errors(
    uri: &str,
    failed: bool,
    plan: OpenPlan,
    none: OpenPlan,
    memory: OpenPlan,
    code: i32,
    message: Option<&str>,
    last: Result<(), String>,
    offset: i32,
    text: String,
    checked: usize,
    error: Option<(String, usize)>,
)
    requires
        call_ensures(Connection::open_file, (uri, failed), plan),
        call_ensures(Connection::open_memory, (None,), none),
        call_ensures(Connection::open_memory, (Some(uri),), memory),
        call_ensures(last_error, (code, message), last),
        checked + offset <= usize::MAX,
        call_ensures(syntax_error, (code, offset, text, checked), error),
    ensures
        !failed ==> plan.uri@ == uri@ && plan.persistent,
        failed ==> plan.uri@ == memory.uri@ && !plan.persistent,
        memory.uri@ == "file:"@ + uri@ + "?mode=memory&cache=shared"@ && !memory.persistent,
        none.uri@ == ":memory:"@ && !none.persistent,
        last is Ok <==> code == 0 || code == 100,
        last matches Err(text) ==> ("Sqlite call failed with code "@ + signed_decimal(code as int)
            + " and message: "@).is_prefix_of(text@),
        error is Some <==> code == 1 && offset >= 0,
        error matches Some((same, at)) ==> same == text && at == checked + offset,
{
    if let Err(text) = last {
        let front = "Sqlite call failed with code "@ + signed_decimal(code as int)
            + " and message: "@;
        assert(text@.subrange(0, front.len() as int) =~= front);
    }
}

} // verus!
