//! From what the process table holds to a snapshot: the pid in the name of an
//! entry, the name, parent and executable of a process, with what stands in
//! for each where it could not be read.

use crate::process::{snapshot_view, well_formed, Process, ProcessView};
use crate::text::{
    chars_of, decimal, parse_number, parse_range, parsed_number, push_decimal, trim, trim_range,
    trimmed,
};
use std::collections::HashMap;
use vstd::prelude::*;
use vstd::string::StringExecFns;

verus! {

/// Where the process table is found.
pub const PROC_ROOT: &'static str = "/proc";

/// The record of a process that holds its name.
pub const COMM: &'static str = "comm";

/// The record of a process that holds, among others, its parent's pid.
pub const STATUS: &'static str = "status";

/// The record of a process that links to its executable.
pub const EXE: &'static str = "exe";

/// The name of a process whose name could not be read: the one placeholder
/// for every such process, whatever kept the name from being read.
pub const UNKNOWN_NAME: &'static str = "<unknown>";

/// The executable of a process whose executable could not be resolved.
pub const NO_ACCESS: &'static str = "<no access>";

/// The text that `String::from_utf8_lossy` of std makes of bytes.
pub uninterp spec fn utf8_lossy(bytes: Seq<u8>) -> Seq<char>;

/// Turns bytes into text with `String::from_utf8_lossy` of std, which puts
/// the replacement character in place of what is no UTF-8.
///
/// Believed of it: the same bytes give the same text.
#[verifier::external_body]
fn decode_lossy(bytes: &Vec<u8>) -> (text: String)
    ensures
        text@ == utf8_lossy(bytes@),
{
    String::from_utf8_lossy(bytes).into_owned()
}

/// The label in front of the parent pid in a status record.
pub open spec fn ppid_field() -> Seq<char> {
    seq!['P', 'P', 'i', 'd', ':']
}

/// The position of the first line feed of a text, its length where it has none.
pub open spec fn first_feed(text: Seq<char>) -> int
    decreases text.len(),
{
    if text.len() == 0 || text[0] == '\n' {
        0
    } else {
        1 + first_feed(text.drop_first())
    }
}

/// The lines of a text: what stands between its line feeds. A line feed at
/// the very end starts no further line.
pub open spec fn split_lines(text: Seq<char>) -> Seq<Seq<char>>
    decreases text.len(),
{
    let end = first_feed(text);
    if text.len() == 0 {
        Seq::empty()
    } else if end < 0 || end >= text.len() {
        seq![text]
    } else {
        seq![text.take(end)] + split_lines(text.skip(end + 1))
    }
}

/// The parent pid that a line of a status record gives, if it is the line of
/// that field: the number after the label, white space around it aside, and 0
/// where no number stands there.
pub open spec fn line_ppid(line: Seq<char>) -> Option<u32> {
    if ppid_field().is_prefix_of(line) {
        Some(
            match parsed_number(trimmed(line.skip(ppid_field().len() as int))) {
                Some(ppid) => ppid,
                None => 0,
            },
        )
    } else {
        None
    }
}

/// The parent pid after reading `lines` in order, each line of the field
/// replacing what was `found` before.
pub open spec fn ppid_after(lines: Seq<Seq<char>>, found: u32) -> u32
    decreases lines.len(),
{
    if lines.len() == 0 {
        found
    } else {
        ppid_after(
            lines.drop_first(),
            match line_ppid(lines.first()) {
                Some(ppid) => ppid,
                None => found,
            },
        )
    }
}

/// The parent pid that a status record gives: that of its last line of the
/// field, and 0 where it has none.
pub open spec fn parent_pid(status: Seq<char>) -> u32 {
    ppid_after(split_lines(status), 0)
}

/// Where a record of a process is found: under the pid, in decimal, below
/// the process table.
pub open spec fn path_of(pid: u32, record: Seq<char>) -> Seq<char> {
    PROC_ROOT@ + "/"@ + decimal(pid as nat) + "/"@ + record
}

/// Where a record of a process is found.
pub fn record_path(pid: u32, record: &str) -> (path: String)
    ensures
        path@ == path_of(pid, record@),
{
    let mut path = PROC_ROOT.to_owned();
    path.append("/");
    push_decimal(&mut path, pid);
    path.append("/");
    path.append(record);
    assert(path@ =~= path_of(pid, record@));
    path
}

/// The pid in the name of an entry of the process table, none where the name
/// is no number.
pub fn parse_pid(name: &str) -> (pid: Option<u32>)
    ensures
        pid == parsed_number(name@),
{
    parse_number(name)
}

proof fn lemma_first_feed_found(text: Seq<char>, at: int)
    requires
        0 <= at <= text.len(),
        forall|i: int| 0 <= i < at ==> text[i] != '\n',
        at < text.len() ==> text[at] == '\n',
    ensures
        first_feed(text) == at,
    decreases at,
{
    if at > 0 {
        lemma_first_feed_found(text.drop_first(), at - 1);
    }
}

/// Whether `chars[from..to]` starts with the label of the parent pid.
fn has_ppid_field(chars: &Vec<char>, from: usize, to: usize) -> (has: bool)
    requires
        from <= to <= chars@.len(),
    ensures
        has == ppid_field().is_prefix_of(chars@.subrange(from as int, to as int)),
{
    to - from >= 5 && chars[from] == 'P' && chars[from + 1] == 'P' && chars[from + 2] == 'i'
        && chars[from + 3] == 'd' && chars[from + 4] == ':'
}

/// Reads the parent pid out of a status record.
pub fn parse_ppid(status: &str) -> (ppid: u32)
    ensures
        ppid == parent_pid(status@),
{
    let chars = chars_of(status);
    let count = chars.len();
    let mut start: usize = 0;
    let mut found: u32 = 0;
    assert(chars@.skip(0) =~= chars@);
    while start < count
        invariant
            start <= count == chars@.len(),
            parent_pid(chars@) == ppid_after(split_lines(chars@.skip(start as int)), found),
        decreases count - start,
    {
        let ghost rest = chars@.skip(start as int);
        let mut end = start;
        while end < count && chars[end] != '\n'
            invariant
                start <= end <= count == chars@.len(),
                forall|i: int| start <= i < end ==> chars@[i] != '\n',
            decreases count - end,
        {
            end += 1;
        }
        let ghost line = chars@.subrange(start as int, end as int);
        proof {
            lemma_first_feed_found(rest, end - start);
            assert(rest.take(end - start) =~= line);
            if end < count {
                assert(rest.skip(end - start + 1) =~= chars@.skip(end + 1));
                assert((seq![line] + split_lines(chars@.skip(end + 1))).drop_first()
                    =~= split_lines(chars@.skip(end + 1)));
            } else {
                assert(seq![line].drop_first() =~= split_lines(chars@.skip(count as int)));
            }
        }
        if has_ppid_field(&chars, start, end) {
            let (from, to) = trim_range(&chars, start + 5, end);
            assert(line.skip(5) =~= chars@.subrange(start + 5, end as int));
            found = match parse_range(&chars, from, to) {
                Some(ppid) => ppid,
                None => 0,
            };
        }
        start = if end < count {
            end + 1
        } else {
            count
        };
    }
    found
}

/// The name of a process, from what its name record held: the text of the
/// record without the white space around it, and a placeholder where the
/// record could not be read.
pub fn name_from_comm(raw: Option<Vec<u8>>) -> (name: String)
    ensures
        name@ == (match raw {
            Some(bytes) => trimmed(utf8_lossy(bytes@)),
            None => UNKNOWN_NAME@,
        }),
{
    match raw {
        Some(bytes) => {
            let text = decode_lossy(&bytes);
            trim(text.as_str())
        },
        None => UNKNOWN_NAME.to_owned(),
    }
}

/// The parent pid of a process, from what its status record held; 0 where
/// the record could not be read.
pub fn ppid_from_status(raw: Option<Vec<u8>>) -> (ppid: u32)
    ensures
        ppid == (match raw {
            Some(bytes) => parent_pid(utf8_lossy(bytes@)),
            None => 0,
        }),
{
    match raw {
        Some(bytes) => {
            let text = decode_lossy(&bytes);
            parse_ppid(text.as_str())
        },
        None => 0,
    }
}

/// The executable of a process, from where its link led; a placeholder where
/// the link could not be resolved.
pub fn exe_from_link(target: Option<String>) -> (exe: String)
    ensures
        exe@ == (match target {
            Some(path) => path@,
            None => NO_ACCESS@,
        }),
{
    match target {
        Some(path) => path,
        None => NO_ACCESS.to_owned(),
    }
}

/// The snapshot of a list of records: each stands under its pid, and of two
/// with the same pid the later one stays.
pub open spec fn snapshot_of(records: Seq<ProcessView>) -> Map<u32, ProcessView>
    decreases records.len(),
{
    if records.len() == 0 {
        Map::empty()
    } else {
        snapshot_of(records.drop_last()).insert(records.last().pid, records.last())
    }
}

/// A snapshot made of a list of records is well formed.
pub proof fn lemma_snapshot_of_is_well_formed(records: Seq<ProcessView>)
    ensures
        well_formed(snapshot_of(records)),
    decreases records.len(),
{
    if records.len() > 0 {
        lemma_snapshot_of_is_well_formed(records.drop_last());
    }
}

/// Gathers the records that were found into a snapshot.
pub fn collect_snapshot(found: Vec<Process>) -> (procs: HashMap<u32, Process>)
    ensures
        snapshot_view(procs@) == snapshot_of(found@.map_values(|process: Process| process@)),
        well_formed(snapshot_view(procs@)),
{
    broadcast use vstd::std_specs::hash::group_hash_axioms;

    let ghost records = found@.map_values(|process: Process| process@);
    let mut procs: HashMap<u32, Process> = HashMap::new();
    for process in it: found.into_iter()
        invariant
            records == it.seq().map_values(|process: Process| process@),
            snapshot_view(procs@) == snapshot_of(records.take(it.index())),
    {
        procs.insert(process.pid, process);
        proof {
            let next = records.take(it.index() + 1);
            assert(next.drop_last() =~= records.take(it.index()));
        }
    }
    proof {
        assert(records.take(records.len() as int) =~= records);
        lemma_snapshot_of_is_well_formed(records);
    }
    procs
}

} // verus!
