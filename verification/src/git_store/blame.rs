//! Who wrote the lines of a file, as it is sent.

use vstd::prelude::*;

verus! {

/// Who wrote some lines.
#[derive(Debug)]
pub struct BlameEntry {
    /// The bytes of the commit's hash.
    pub sha: Vec<u8>,
    pub start: u32,
    pub end: u32,
    pub original_line_number: u32,
    pub author: Option<String>,
    pub author_mail: Option<String>,
    pub author_time: Option<i64>,
    pub author_tz: Option<String>,
    pub committer_name: Option<String>,
    pub committer_email: Option<String>,
    pub committer_time: Option<i64>,
    pub committer_tz: Option<String>,
    pub summary: Option<String>,
    pub previous: Option<String>,
    pub filename: String,
}

/// The message of a commit.
#[derive(Debug)]
pub struct CommitMessage {
    /// The bytes of the commit's hash.
    pub oid: Vec<u8>,
    pub message: String,
}

/// Who wrote the lines of a file.
#[derive(Debug)]
pub struct Blame {
    pub entries: Vec<BlameEntry>,
    pub messages: Vec<CommitMessage>,
    pub remote_url: Option<String>,
}

/// Who wrote some lines, as it is sent.
#[derive(Debug)]
pub struct WireBlameEntry {
    pub sha: Vec<u8>,
    pub start_line: u32,
    pub end_line: u32,
    pub original_line_number: u32,
    pub author: Option<String>,
    pub author_mail: Option<String>,
    pub author_time: Option<i64>,
    pub author_tz: Option<String>,
    pub committer: Option<String>,
    pub committer_mail: Option<String>,
    pub committer_time: Option<i64>,
    pub committer_tz: Option<String>,
    pub summary: Option<String>,
    pub previous: Option<String>,
    pub filename: String,
}

/// Who wrote the lines of a file, as it is sent.
#[derive(Debug)]
pub struct BlameResponse {
    pub entries: Vec<WireBlameEntry>,
    pub messages: Vec<CommitMessage>,
    pub remote_url: Option<String>,
}

/// An entry as it is sent.
pub open spec fn blame_wire(entry: BlameEntry) -> WireBlameEntry {
    WireBlameEntry {
        sha: entry.sha,
        start_line: entry.start,
        end_line: entry.end,
        original_line_number: entry.original_line_number,
        author: entry.author,
        author_mail: entry.author_mail,
        author_time: entry.author_time,
        author_tz: entry.author_tz,
        committer: entry.committer_name,
        committer_mail: entry.committer_email,
        committer_time: entry.committer_time,
        committer_tz: entry.committer_tz,
        summary: entry.summary,
        previous: entry.previous,
        filename: entry.filename,
    }
}

fn blame_entry_to_proto(entry: BlameEntry) -> (r: WireBlameEntry)
    ensures
        r == blame_wire(entry),
{
    WireBlameEntry {
        sha: entry.sha,
        start_line: entry.start,
        end_line: entry.end,
        original_line_number: entry.original_line_number,
        author: entry.author,
        author_mail: entry.author_mail,
        author_time: entry.author_time,
        author_tz: entry.author_tz,
        committer: entry.committer_name,
        committer_mail: entry.committer_email,
        committer_time: entry.committer_time,
        committer_tz: entry.committer_tz,
        summary: entry.summary,
        previous: entry.previous,
        filename: entry.filename,
    }
}

/// Who wrote the lines of a file, as it is sent. A file that is in no repository has no
/// answer.
pub fn serialize_blame_buffer_response(blame: Option<Blame>) -> (r: Option<BlameResponse>)
    ensures
        match blame {
            None => r is None,
            Some(blame) => r is Some && r->0.entries@ == blame.entries@.map_values(
                |entry: BlameEntry| blame_wire(entry),
            ) && r->0.messages == blame.messages && r->0.remote_url == blame.remote_url,
        },
{
    let blame = match blame {
        Some(blame) => blame,
        None => {
            return None;
        },
    };
    let ghost all = blame.entries@;
    let mut entries: Vec<WireBlameEntry> = Vec::new();
    for entry in iter: blame.entries
        invariant
            iter.seq() == all,
            entries@.len() == iter.index(),
            forall|k: int|
                0 <= k < entries@.len() ==> #[trigger] entries@[k] == blame_wire(all[k]),
    {
        entries.push(blame_entry_to_proto(entry));
    }
    assert(entries@ =~= all.map_values(|entry: BlameEntry| blame_wire(entry)));
    Some(BlameResponse { entries, messages: blame.messages, remote_url: blame.remote_url })
}

} // verus!
