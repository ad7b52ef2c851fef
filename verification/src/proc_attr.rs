//! Which process a connection belongs to.
//!
//! The tables of `/proc`, the user database and the output of `ss` are text here; reading
//! them is left to the caller, who is told by [`Lookup`] what to read next.

use std::collections::HashMap;

use vstd::prelude::*;

use crate::number::{
    decimal, decimal_text, digit_worth, lemma_decimal_reads_back,
    lemma_number_ignores_case, lemma_numeral_is_read, lemma_numeral_value, number_of, numeral,
    parse_number, parse_u32,
};
use crate::parser::Protocol;
use crate::text::{
    after_first, after_prefix, chars, field_len, fields, is_field, is_first_occurrence,
    lemma_after_first, lemma_fields_join, lemma_prefix_is_cut, lemma_single_field, lines, lowered,
    occurs, opt_text, same_text, split, split_after, split_lines, split_whitespace, strip_prefix, text_of,
    texts, trim, trimmed, words,
};

verus! {

broadcast use vstd::std_specs::hash::group_hash_axioms;

/// A process and the user that runs it.
#[derive(Clone, Debug)]
pub struct ProcessInfo {
    pub pid: u32,
    pub name: String,
    pub username: String,
}

/// A [`ProcessInfo`] with its texts as character sequences.
pub struct ProcessView {
    pub pid: u32,
    pub name: Seq<char>,
    pub username: Seq<char>,
}

impl View for ProcessInfo {
    type V = ProcessView;

    open spec fn view(&self) -> ProcessView {
        ProcessView { pid: self.pid, name: self.name@, username: self.username@ }
    }
}

/// The view of an optional process.
pub open spec fn owner_view(owner: Option<ProcessInfo>) -> Option<ProcessView> {
    match owner {
        Some(p) => Some(p@),
        None => None,
    }
}

/// The number of a user and the name, in a line of the user database.
pub open spec fn passwd_entry(line: Seq<char>) -> Option<(u32, Seq<char>)> {
    let f = fields(line, ':');
    if f.len() > 2 {
        match number_of(f[2], 10, u32::MAX as nat) {
            Some(uid) => Some((uid as u32, f[0])),
            None => None,
        }
    } else {
        None
    }
}

/// The user names in the lines, by number; the last line for a number counts.
pub open spec fn passwd_names(all: Seq<Seq<char>>) -> Map<u32, Seq<char>>
    decreases all.len(),
{
    if all.len() == 0 {
        Map::empty()
    } else {
        let before = passwd_names(all.drop_last());
        match passwd_entry(all.last()) {
            Some((uid, name)) => before.insert(uid, name),
            None => before,
        }
    }
}

/// User names by number.
pub struct Users {
    pub names: HashMap<u32, String>,
}

impl View for Users {
    type V = Map<u32, Seq<char>>;

    open spec fn view(&self) -> Map<u32, Seq<char>> {
        self.names@.map_values(|s: String| s@)
    }
}

impl Users {
    /// Reads the user database.
    pub fn parse(contents: &str) -> (users: Self)
        ensures
            users@ == passwd_names(lines(contents@)),
    {
        let all = split_lines(contents);
        let ghost seen = lines(contents@);
        let mut users = Users { names: HashMap::new() };
        assert(users@ =~= passwd_names(seen.take(0)));
        let mut i: usize = 0;
        while i < all.len()
            invariant
                i <= all.len(),
                seen == texts(all@),
                users@ == passwd_names(seen.take(i as int)),
            decreases all.len() - i,
        {
            assert(seen[i as int] == all@[i as int]@);
            assert(seen.take(i + 1).drop_last() =~= seen.take(i as int));
            assert(seen.take(i + 1).last() == seen[i as int]);
            let f = split(all[i].as_str(), ':');
            let ghost before = users@;
            if f.len() > 2 {
                assert(texts(f@)[2] == f@[2]@);
                assert(texts(f@)[0] == f@[0]@);
                if let Some(uid) = parse_u32(f[2].as_str()) {
                    users.names.insert(uid, f[0].clone());
                    assert(users@ =~= before.insert(uid, f@[0]@));
                }
            } else {
                assert(texts(f@).len() == f@.len());
            }
            i = i + 1;
        }
        assert(seen.take(i as int) =~= seen);
        users
    }

    /// The name of a user, or its number where it has no name.
    pub fn name_of(&self, uid: u32) -> (name: String)
        ensures
            name@ == user_name(self@, uid),
    {
        match self.names.get(&uid) {
            Some(name) => name.clone(),
            None => decimal_text(uid as u64),
        }
    }
}

/// The name of a user, or its number where it has no name.
pub open spec fn user_name(users: Map<u32, Seq<char>>, uid: u32) -> Seq<char> {
    if users.contains_key(uid) {
        users[uid]
    } else {
        decimal(uid as nat)
    }
}

/// The socket tables to search for a protocol, in order.
pub open spec fn table_paths(protocol: Protocol) -> Seq<&'static str> {
    match protocol {
        Protocol::Tcp => seq!["/proc/net/tcp", "/proc/net/tcp6"],
        Protocol::Udp => seq!["/proc/net/udp", "/proc/net/udp6"],
        _ => Seq::empty(),
    }
}

/// The socket tables to search for a protocol, in order.
pub fn socket_tables(protocol: Protocol) -> (paths: Vec<&'static str>)
    ensures
        paths@ == table_paths(protocol),
{
    let mut paths: Vec<&'static str> = Vec::new();
    match protocol {
        Protocol::Tcp => {
            paths.push("/proc/net/tcp");
            paths.push("/proc/net/tcp6");
        },
        Protocol::Udp => {
            paths.push("/proc/net/udp");
            paths.push("/proc/net/udp6");
        },
        _ => {},
    }
    paths
}

/// The inode in a line of a socket table, if its local port is one of the two.
pub open spec fn line_inode(line: Seq<char>, src_port: u16, dst_port: u16) -> Option<Seq<char>> {
    let cols = words(line);
    if cols.len() < 10 || fields(cols[1], ':').len() < 2 {
        None
    } else {
        match number_of(fields(cols[1], ':')[1], 16, u16::MAX as nat) {
            Some(port) => if port == src_port || port == dst_port {
                Some(cols[9])
            } else {
                None
            },
            None => None,
        }
    }
}

/// The inode in the first line that has one of the ports.
pub open spec fn first_inode(all: Seq<Seq<char>>, src_port: u16, dst_port: u16) -> Option<Seq<char>>
    decreases all.len(),
{
    if all.len() == 0 {
        None
    } else if line_inode(all[0], src_port, dst_port) is Some {
        line_inode(all[0], src_port, dst_port)
    } else {
        first_inode(all.skip(1), src_port, dst_port)
    }
}

/// The lines of a table without its heading.
pub open spec fn table_rows(table: Seq<char>) -> Seq<Seq<char>> {
    if lines(table).len() > 0 {
        lines(table).skip(1)
    } else {
        Seq::empty()
    }
}

/// The inode in the first of the tables that has one; a table that could not be read is
/// passed over.
pub open spec fn first_table_inode(
    tables: Seq<Option<String>>,
    src_port: u16,
    dst_port: u16,
) -> Option<Seq<char>>
    decreases tables.len(),
{
    if tables.len() == 0 {
        None
    } else {
        let here = match tables[0] {
            Some(table) => first_inode(table_rows(table@), src_port, dst_port),
            None => None,
        };
        if here is Some {
            here
        } else {
            first_table_inode(tables.skip(1), src_port, dst_port)
        }
    }
}

fn inode_in_line(line: &str, src_port: u16, dst_port: u16) -> (inode: Option<String>)
    ensures
        opt_text(inode) == line_inode(line@, src_port, dst_port),
{
    let cols = split_whitespace(line);
    assert(texts(cols@).len() == cols@.len());
    if cols.len() < 10 {
        return None;
    }
    assert(texts(cols@)[1] == cols@[1]@);
    assert(texts(cols@)[9] == cols@[9]@);
    let parts = split(cols[1].as_str(), ':');
    assert(texts(parts@).len() == parts@.len());
    if parts.len() < 2 {
        return None;
    }
    assert(texts(parts@)[1] == parts@[1]@);
    match parse_number(parts[1].as_str(), 16, u16::MAX as u64) {
        Some(port) => if port == src_port as u64 || port == dst_port as u64 {
            Some(cols[9].clone())
        } else {
            None
        },
        None => None,
    }
}

fn inode_in_table(table: &str, src_port: u16, dst_port: u16) -> (inode: Option<String>)
    ensures
        opt_text(inode) == first_inode(table_rows(table@), src_port, dst_port),
{
    let all = split_lines(table);
    let ghost seen = lines(table@);
    assert(texts(all@).len() == all@.len());
    if all.len() == 0 {
        return None;
    }
    let mut i: usize = 1;
    while i < all.len()
        invariant
            1 <= i <= all.len(),
            seen == texts(all@),
            seen == lines(table@),
            seen.len() == all@.len(),
            first_inode(seen.skip(i as int), src_port, dst_port) == first_inode(
                seen.skip(1),
                src_port,
                dst_port,
            ),
        decreases all.len() - i,
    {
        assert(seen.skip(i as int)[0] == all@[i as int]@);
        assert(seen.skip(i as int).skip(1) =~= seen.skip(i + 1));
        let inode = inode_in_line(all[i].as_str(), src_port, dst_port);
        if inode.is_some() {
            return inode;
        }
        i = i + 1;
    }
    None
}

/// The inode of the socket with one of the ports, in the contents of the socket tables;
/// `None` stands for a table that could not be read.
pub fn find_inode(
    src_port: u16,
    dst_port: u16,
    tables: &Vec<Option<String>>,
) -> (inode: Option<String>)
    ensures
        opt_text(inode) == first_table_inode(tables@, src_port, dst_port),
{
    let mut i: usize = 0;
    assert(tables@.skip(0) =~= tables@);
    while i < tables.len()
        invariant
            i <= tables.len(),
            first_table_inode(tables@.skip(i as int), src_port, dst_port) == first_table_inode(
                tables@,
                src_port,
                dst_port,
            ),
        decreases tables.len() - i,
    {
        assert(tables@.skip(i as int)[0] == tables@[i as int]);
        assert(tables@.skip(i as int).skip(1) =~= tables@.skip(i + 1));
        if let Some(table) = &tables[i] {
            let inode = inode_in_table(table.as_str(), src_port, dst_port);
            if inode.is_some() {
                return inode;
            }
        }
        i = i + 1;
    }
    None
}

/// The process that a directory of `/proc` is about.
pub fn pid_of_dir(name: &str) -> (pid: Option<u32>)
    ensures
        match pid {
            Some(pid) => number_of(name@, 10, u32::MAX as nat) == Some(pid as nat),
            None => number_of(name@, 10, u32::MAX as nat) is None,
        },
{
    parse_u32(name)
}

/// What an open file that is the socket with the inode links to.
pub open spec fn socket_link(inode: Seq<char>) -> Seq<char> {
    "socket:["@ + inode + "]"@
}

/// Whether an open file links to the socket with the inode.
pub fn socket_target_matches_inode(target: &str, inode: &str) -> (matches: bool)
    ensures
        matches == (target@ == socket_link(inode@)),
{
    let mut link: String = "socket:[".to_owned();
    link.append(inode);
    link.append("]");
    same_text(target, link.as_str())
}

/// The name of the process, in the lines of its status: the last one given.
pub open spec fn status_name(all: Seq<Seq<char>>) -> Option<Seq<char>>
    decreases all.len(),
{
    if all.len() == 0 {
        None
    } else {
        match after_prefix(all.last(), "Name:"@) {
            Some(rest) => Some(trimmed(rest)),
            None => status_name(all.drop_last()),
        }
    }
}

/// The user in one line of a status.
pub open spec fn line_uid(line: Seq<char>) -> Option<u32> {
    match after_prefix(line, "Uid:"@) {
        Some(rest) => if words(rest).len() > 0 {
            match number_of(words(rest)[0], 10, u32::MAX as nat) {
                Some(uid) => Some(uid as u32),
                None => None,
            }
        } else {
            None
        },
        None => None,
    }
}

/// The user that runs the process, in the lines of its status: the last one given.
pub open spec fn status_uid(all: Seq<Seq<char>>) -> Option<u32>
    decreases all.len(),
{
    if all.len() == 0 {
        None
    } else if line_uid(all.last()) is Some {
        line_uid(all.last())
    } else {
        status_uid(all.drop_last())
    }
}

/// The name and the user of a process, if its status gives both.
pub open spec fn status_of(content: Seq<char>) -> Option<(Seq<char>, u32)> {
    match (status_name(lines(content)), status_uid(lines(content))) {
        (Some(name), Some(uid)) => Some((name, uid)),
        _ => None,
    }
}

fn uid_in_line(line: &str) -> (uid: Option<u32>)
    ensures
        uid == line_uid(line@),
{
    match strip_prefix(line, "Uid:") {
        Some(rest) => {
            let parts = split_whitespace(rest.as_str());
            assert(texts(parts@).len() == parts@.len());
            if parts.len() == 0 {
                return None;
            }
            assert(texts(parts@)[0] == parts@[0]@);
            parse_u32(parts[0].as_str())
        },
        None => None,
    }
}

/// A line that gives a name gives no user.
proof fn lemma_name_line_has_no_uid(line: Seq<char>)
    requires
        after_prefix(line, "Name:"@) is Some,
    ensures
        line_uid(line) is None,
{
    reveal_strlit("Name:");
    reveal_strlit("Uid:");
    assert(line[0] == "Name:"@[0]);
    assert("Name:"@[0] != "Uid:"@[0]);
    if "Uid:"@.is_prefix_of(line) {
        assert(line[0] == "Uid:"@[0]);
    }
}

/// Reads the status of a process: its name and the user that runs it.
pub fn parse_status(content: &str) -> (status: Option<(String, u32)>)
    ensures
        match status {
            Some((name, uid)) => status_of(content@) == Some((name@, uid)),
            None => status_of(content@) is None,
        },
{
    let all = split_lines(content);
    let ghost seen = lines(content@);
    let mut name: Option<String> = None;
    let mut uid: Option<u32> = None;
    let mut i: usize = 0;
    while i < all.len()
        invariant
            i <= all.len(),
            seen == texts(all@),
            opt_text(name) == status_name(seen.take(i as int)),
            uid == status_uid(seen.take(i as int)),
        decreases all.len() - i,
    {
        assert(seen[i as int] == all@[i as int]@);
        assert(seen.take(i + 1).drop_last() =~= seen.take(i as int));
        assert(seen.take(i + 1).last() == seen[i as int]);
        match strip_prefix(all[i].as_str(), "Name:") {
            Some(rest) => {
                proof {
                    lemma_name_line_has_no_uid(seen[i as int]);
                }
                name = Some(trim(rest.as_str()));
            },
            None => {
                if let Some(parsed) = uid_in_line(all[i].as_str()) {
                    uid = Some(parsed);
                }
            },
        }
        i = i + 1;
    }
    assert(seen.take(i as int) =~= seen);
    match (name, uid) {
        (Some(name), Some(uid)) => Some((name, uid)),
        _ => None,
    }
}

/// How many decimal digits a text begins with.
pub open spec fn digits_len(s: Seq<char>) -> nat
    decreases s.len(),
{
    if s.len() > 0 && '0' <= s[0] <= '9' {
        1 + digits_len(s.skip(1))
    } else {
        0
    }
}

/// The process id in the `users:(` field of a line of `ss`: the digits behind the first
/// `pid=`.
pub open spec fn users_pid(users: Seq<char>) -> Option<u32> {
    match after_first(users, "pid="@) {
        Some(rest) => match number_of(
            rest.take(digits_len(rest) as int),
            10,
            u32::MAX as nat,
        ) {
            Some(pid) => Some(pid as u32),
            None => None,
        },
        None => None,
    }
}

/// The process name in the `users:(` field of a line of `ss`: what stands between the
/// first two quotes, unless it is empty.
pub open spec fn users_name(users: Seq<char>) -> Option<Seq<char>> {
    match after_first(users, "\""@) {
        Some(rest) => {
            let n = field_len(rest, '"');
            if 0 < n < rest.len() {
                Some(rest.take(n as int))
            } else {
                None
            }
        },
        None => None,
    }
}

/// The process in a line of `ss`.
pub open spec fn line_owner(line: Seq<char>) -> Option<(u32, Seq<char>)> {
    match after_first(line, "users:("@) {
        Some(users) => match (users_pid(users), users_name(users)) {
            (Some(pid), Some(name)) => Some((pid, name)),
            _ => None,
        },
        None => None,
    }
}

/// The process in the first line of `ss` that names one.
pub open spec fn first_owner(all: Seq<Seq<char>>) -> Option<(u32, Seq<char>)>
    decreases all.len(),
{
    if all.len() == 0 {
        None
    } else if line_owner(all[0]) is Some {
        line_owner(all[0])
    } else {
        first_owner(all.skip(1))
    }
}

fn pid_in_users(users: &str) -> (pid: Option<u32>)
    ensures
        pid == users_pid(users@),
{
    match split_after(users, "pid=") {
        Some(rest) => {
            let v = chars(rest.as_str());
            let mut n: usize = 0;
            assert(v@.skip(0) =~= v@);
            while n < v.len() && '0' <= v[n] && v[n] <= '9'
                invariant
                    n <= v.len(),
                    n + digits_len(v@.skip(n as int)) == digits_len(v@),
                decreases v.len() - n,
            {
                assert(v@.skip(n as int).skip(1) =~= v@.skip(n + 1));
                n = n + 1;
            }
            assert(digits_len(v@) == n);
            let digits = text_of(v.as_slice(), 0, n);
            assert(digits@ =~= rest@.take(n as int));
            parse_u32(digits.as_str())
        },
        None => None,
    }
}

fn name_in_users(users: &str) -> (name: Option<String>)
    ensures
        opt_text(name) == users_name(users@),
{
    match split_after(users, "\"") {
        Some(rest) => {
            let v = chars(rest.as_str());
            let mut n: usize = 0;
            assert(v@.skip(0) =~= v@);
            while n < v.len() && v[n] != '"'
                invariant
                    n <= v.len(),
                    n + field_len(v@.skip(n as int), '"') == field_len(v@, '"'),
                decreases v.len() - n,
            {
                assert(v@.skip(n as int).skip(1) =~= v@.skip(n + 1));
                n = n + 1;
            }
            if n == 0 || n == v.len() {
                return None;
            }
            let name = text_of(v.as_slice(), 0, n);
            assert(name@ =~= rest@.take(n as int));
            Some(name)
        },
        None => None,
    }
}

/// The process in a line of `ss`.
pub fn parse_ss_users_field(line: &str) -> (owner: Option<(u32, String)>)
    ensures
        match owner {
            Some((pid, name)) => line_owner(line@) == Some((pid, name@)),
            None => line_owner(line@) is None,
        },
{
    match split_after(line, "users:(") {
        Some(users) => match (pid_in_users(users.as_str()), name_in_users(users.as_str())) {
            (Some(pid), Some(name)) => Some((pid, name)),
            _ => None,
        },
        None => None,
    }
}

/// The process in the output of `ss`: that of the first line that names one.
pub fn ss_owner(output: &str) -> (owner: Option<(u32, String)>)
    ensures
        match owner {
            Some((pid, name)) => first_owner(lines(output@)) == Some((pid, name@)),
            None => first_owner(lines(output@)) is None,
        },
{
    let all = split_lines(output);
    let ghost seen = lines(output@);
    let mut i: usize = 0;
    assert(seen.skip(0) =~= seen);
    while i < all.len()
        invariant
            i <= all.len(),
            seen == texts(all@),
            seen == lines(output@),
            first_owner(seen.skip(i as int)) == first_owner(seen),
        decreases all.len() - i,
    {
        assert(seen.skip(i as int)[0] == all@[i as int]@);
        assert(seen.skip(i as int).skip(1) =~= seen.skip(i + 1));
        let owner = parse_ss_users_field(all[i].as_str());
        if owner.is_some() {
            return owner;
        }
        i = i + 1;
    }
    None
}

/// What to look at next for the owner of a connection.
pub enum Lookup {
    /// Find the process that has the socket with this inode open.
    FindPid { inode: String },
    /// Ask `ss` for the process.
    AskSs,
    /// Read the status of the process; a name that is already known is given.
    ReadStatus { pid: u32, name: Option<String> },
    /// No owner can be found.
    Unknown,
}

/// A [`Lookup`] with its texts as character sequences.
pub enum LookupView {
    FindPid { inode: Seq<char> },
    AskSs,
    ReadStatus { pid: u32, name: Option<Seq<char>> },
    Unknown,
}

impl View for Lookup {
    type V = LookupView;

    open spec fn view(&self) -> LookupView {
        match self {
            Lookup::FindPid { inode } => LookupView::FindPid { inode: inode@ },
            Lookup::AskSs => LookupView::AskSs,
            Lookup::ReadStatus { pid, name } => LookupView::ReadStatus {
                pid: *pid,
                name: opt_text(*name),
            },
            Lookup::Unknown => LookupView::Unknown,
        }
    }
}

/// How many more things there are to look at, at most.
pub open spec fn steps_left(next: LookupView) -> nat {
    match next {
        LookupView::FindPid { .. } => 3,
        LookupView::AskSs => 2,
        LookupView::ReadStatus { .. } => 1,
        LookupView::Unknown => 0,
    }
}

/// Where to go on once the socket tables did not lead to a process: `ss` knows about TCP.
pub open spec fn fallback(protocol: Protocol) -> LookupView {
    if protocol is Tcp {
        LookupView::AskSs
    } else {
        LookupView::Unknown
    }
}

fn fall_back(protocol: Protocol) -> (next: Lookup)
    ensures
        next@ == fallback(protocol),
{
    match protocol {
        Protocol::Tcp => Lookup::AskSs,
        _ => Lookup::Unknown,
    }
}

/// Where to go on from the socket tables.
pub open spec fn next_after_inode(protocol: Protocol, inode: Option<Seq<char>>) -> LookupView {
    match inode {
        Some(inode) => if inode != "0"@ {
            LookupView::FindPid { inode }
        } else {
            fallback(protocol)
        },
        None => fallback(protocol),
    }
}

/// Where to go on from the search for the process that has the socket open.
pub open spec fn next_after_pid(protocol: Protocol, pid: Option<u32>) -> LookupView {
    match pid {
        Some(pid) => LookupView::ReadStatus { pid, name: None },
        None => fallback(protocol),
    }
}

/// Where to go on from the output of `ss`.
pub open spec fn next_after_ss(output: Option<Seq<char>>) -> LookupView {
    match output {
        Some(output) => match first_owner(lines(output)) {
            Some((pid, name)) => LookupView::ReadStatus { pid, name: Some(name) },
            None => LookupView::Unknown,
        },
        None => LookupView::Unknown,
    }
}

/// Goes on from the socket tables: inode 0 is no socket.
pub fn after_inode(protocol: Protocol, inode: Option<String>) -> (next: Lookup)
    ensures
        next@ == next_after_inode(protocol, opt_text(inode)),
{
    match inode {
        Some(inode) => if !same_text(inode.as_str(), "0") {
            Lookup::FindPid { inode }
        } else {
            fall_back(protocol)
        },
        None => fall_back(protocol),
    }
}

/// Goes on from the search for the process that has the socket open, one step nearer to
/// the end.
pub fn after_pid(protocol: Protocol, pid: Option<u32>) -> (next: Lookup)
    ensures
        next@ == next_after_pid(protocol, pid),
        steps_left(next@) < 3,
{
    match pid {
        Some(pid) => Lookup::ReadStatus { pid, name: None },
        None => fall_back(protocol),
    }
}

/// Goes on from the output of `ss`, one step nearer to the end; `None` stands for a failed
/// call.
pub fn after_ss(output: Option<&str>) -> (next: Lookup)
    ensures
        next@ == next_after_ss(crate::filter::opt_str(output)),
        steps_left(next@) < 2,
{
    match output {
        Some(output) => match ss_owner(output) {
            Some((pid, name)) => Lookup::ReadStatus { pid, name: Some(name) },
            None => Lookup::Unknown,
        },
        None => Lookup::Unknown,
    }
}

/// The owner, from the status of its process; `None` stands for a status that could not
/// be read.
pub open spec fn owner_from_status(
    pid: u32,
    name: Option<Seq<char>>,
    status: Option<Seq<char>>,
    users: Map<u32, Seq<char>>,
) -> Option<ProcessView> {
    match status {
        Some(content) => match status_of(content) {
            Some((status_name, uid)) => Some(
                ProcessView {
                    pid,
                    name: match name {
                        Some(name) => name,
                        None => status_name,
                    },
                    username: user_name(users, uid),
                },
            ),
            None => None,
        },
        None => None,
    }
}

/// The owner of the connection, once the status of its process was read.
pub fn after_status(
    pid: u32,
    name: Option<String>,
    status: Option<&str>,
    users: &Users,
) -> (owner: Option<ProcessInfo>)
    ensures
        owner_view(owner) == owner_from_status(
            pid,
            opt_text(name),
            crate::filter::opt_str(status),
            users@,
        ),
{
    match status {
        Some(content) => match parse_status(content) {
            Some((status_name, uid)) => {
                let username = users.name_of(uid);
                let name = match name {
                    Some(name) => name,
                    None => status_name,
                };
                Some(ProcessInfo { pid, name, username })
            },
            None => None,
        },
        None => None,
    }
}

/// A line of a socket table with at least ten words gives the tenth of them as the inode
/// exactly if the second word has one of the two ports behind its first colon, in
/// hexadecimal; the state of the socket and all other words do not matter.
pub proof fn lemma_socket_is_found_by_port(line: Seq<char>, src_port: u16, dst_port: u16, port: u16)
    requires
        words(line).len() >= 10,
        fields(words(line)[1], ':').len() >= 2,
        number_of(fields(words(line)[1], ':')[1], 16, 65535) == Some(port as nat),
    ensures
        port == src_port || port == dst_port ==> line_inode(line, src_port, dst_port) == Some(
            words(line)[9],
        ),
        port != src_port && port != dst_port ==> line_inode(line, src_port, dst_port) is None,
        line_inode(line, src_port, dst_port) == line_inode(line, dst_port, src_port),
{
}

/// The local port is written in hexadecimal behind the address, in capitals or not.
pub proof fn lemma_socket_line_is_read(
    line: Seq<char>,
    address: Seq<char>,
    digits: Seq<char>,
    port: u16,
    other: u16,
)
    requires
        words(line).len() >= 10,
        words(line)[1] == address + seq![':'] + digits,
        is_field(address, ':'),
        is_field(digits, ':'),
        lowered(digits) == numeral(port as nat, 16),
    ensures
        line_inode(line, port, other) == Some(words(line)[9]),
        line_inode(line, other, port) == Some(words(line)[9]),
{
    lemma_fields_join(address, digits, ':');
    lemma_single_field(address, ':');
    lemma_single_field(digits, ':');
    lemma_number_ignores_case(digits, 16, 65535);
    lemma_numeral_is_read(port as nat, 16, 65535);
    assert(fields(words(line)[1], ':')[1] == digits);
    lemma_socket_is_found_by_port(line, port, other, port);
    lemma_socket_is_found_by_port(line, other, port, port);
}

/// Two lines with the same local address and the same inode give the same, whatever else
/// stands in them.
pub proof fn lemma_other_columns_do_not_matter(
    a: Seq<char>,
    b: Seq<char>,
    src_port: u16,
    dst_port: u16,
)
    requires
        words(a).len() >= 10,
        words(b).len() >= 10,
        words(a)[1] == words(b)[1],
        words(a)[9] == words(b)[9],
    ensures
        line_inode(a, src_port, dst_port) == line_inode(b, src_port, dst_port),
{
}

proof fn lemma_first_inode(all: Seq<Seq<char>>, src_port: u16, dst_port: u16, i: int)
    requires
        0 <= i < all.len(),
        line_inode(all[i], src_port, dst_port) is Some,
        forall|k: int| 0 <= k < i ==> line_inode(#[trigger] all[k], src_port, dst_port) is None,
    ensures
        first_inode(all, src_port, dst_port) == line_inode(all[i], src_port, dst_port),
    decreases all.len(),
{
    if i > 0 {
        let more = all.skip(1);
        assert(line_inode(all[0], src_port, dst_port) is None);
        assert forall|k: int| 0 <= k < i - 1 implies line_inode(
            #[trigger] more[k],
            src_port,
            dst_port,
        ) is None by {
            assert(more[k] == all[k + 1]);
        }
        assert(more[i - 1] == all[i]);
        lemma_first_inode(more, src_port, dst_port, i - 1);
    }
}

proof fn lemma_no_inode(all: Seq<Seq<char>>, src_port: u16, dst_port: u16)
    requires
        forall|k: int|
            0 <= k < all.len() ==> line_inode(#[trigger] all[k], src_port, dst_port) is None,
    ensures
        first_inode(all, src_port, dst_port) is None,
    decreases all.len(),
{
    if all.len() > 0 {
        let more = all.skip(1);
        assert(line_inode(all[0], src_port, dst_port) is None);
        assert forall|k: int| 0 <= k < more.len() implies line_inode(
            #[trigger] more[k],
            src_port,
            dst_port,
        ) is None by {
            assert(more[k] == all[k + 1]);
        }
        lemma_no_inode(more, src_port, dst_port);
    }
}

/// Of a table, all lines but the heading are searched, and the first that gives an inode
/// counts; a table without such a line leads to the next one, as does one that could not
/// be read.
pub proof fn lemma_tables_are_searched_in_order(
    table: String,
    others: Seq<Option<String>>,
    src_port: u16,
    dst_port: u16,
    i: int,
)
    ensures
        first_table_inode(Seq::empty(), src_port, dst_port) is None,
        first_table_inode(seq![None] + others, src_port, dst_port) == first_table_inode(
            others,
            src_port,
            dst_port,
        ),
        1 <= i < lines(table@).len() && line_inode(lines(table@)[i], src_port, dst_port) is Some && (
        forall|k: int|
            1 <= k < i ==> line_inode(#[trigger] lines(table@)[k], src_port, dst_port) is None)
            ==> first_table_inode(seq![Some(table)] + others, src_port, dst_port) == line_inode(
            lines(table@)[i],
            src_port,
            dst_port,
        ),
        (forall|k: int|
            1 <= k < lines(table@).len() ==> line_inode(
                #[trigger] lines(table@)[k],
                src_port,
                dst_port,
            ) is None) ==> first_table_inode(seq![Some(table)] + others, src_port, dst_port)
            == first_table_inode(others, src_port, dst_port),
{
    let all = lines(table@);
    let rows = table_rows(table@);
    let unread = seq![None::<String>] + others;
    let read = seq![Some(table)] + others;
    assert(unread[0] is None);
    assert(unread.skip(1) =~= others);
    assert(read[0] == Some(table));
    assert(read.skip(1) =~= others);
    if 1 <= i < all.len() && line_inode(all[i], src_port, dst_port) is Some && (forall|k: int|
        1 <= k < i ==> line_inode(#[trigger] all[k], src_port, dst_port) is None) {
        assert(rows[i - 1] == all[i]);
        assert forall|k: int| 0 <= k < i - 1 implies line_inode(
            #[trigger] rows[k],
            src_port,
            dst_port,
        ) is None by {
            assert(rows[k] == all[k + 1]);
        }
        lemma_first_inode(rows, src_port, dst_port, i - 1);
    }
    if forall|k: int|
        1 <= k < all.len() ==> line_inode(#[trigger] all[k], src_port, dst_port) is None {
        assert forall|k: int| 0 <= k < rows.len() implies line_inode(
            #[trigger] rows[k],
            src_port,
            dst_port,
        ) is None by {
            assert(rows[k] == all[k + 1]);
        }
        lemma_no_inode(rows, src_port, dst_port);
    }
}

/// The links of different sockets are different.
pub proof fn lemma_links_tell_sockets_apart(a: Seq<char>, b: Seq<char>)
    ensures
        socket_link(a) == socket_link(b) <==> a == b,
        "socket:["@.is_prefix_of(socket_link(a)),
        socket_link(a).len() == a.len() + 9,
{
    reveal_strlit("socket:[");
    reveal_strlit("]");
    assert(socket_link(a).take(8) =~= "socket:["@);
    assert(socket_link(a).subrange(8, socket_link(a).len() - 1) =~= a);
    assert(socket_link(b).subrange(8, socket_link(b).len() - 1) =~= b);
}

/// A line of the user database gives the user's name and number: the first and the third
/// field, whatever the others are.
pub proof fn lemma_passwd_line_is_read(
    name: Seq<char>,
    secret: Seq<char>,
    uid: u32,
    rest: Seq<char>,
)
    requires
        is_field(name, ':'),
        is_field(secret, ':'),
    ensures
        passwd_entry(
            name + seq![':'] + secret + seq![':'] + decimal(uid as nat) + seq![':'] + rest,
        ) == Some((uid, name)),
{
    let d = decimal(uid as nat);
    lemma_numeral_value(uid as nat, 10);
    assert forall|i: int| 0 <= i < d.len() implies #[trigger] d[i] != ':' by {
        assert(digit_worth(d[i]) < 10);
    }
    lemma_single_field(name, ':');
    lemma_single_field(secret, ':');
    lemma_single_field(d, ':');
    let a = name + seq![':'] + secret;
    let b = a + seq![':'] + d;
    lemma_fields_join(name, secret, ':');
    lemma_fields_join(a, d, ':');
    lemma_fields_join(b, rest, ':');
    let f = fields(b + seq![':'] + rest, ':');
    assert(f[0] == name);
    assert(f[2] == d);
    lemma_decimal_reads_back(uid as nat, u32::MAX as nat);
}

/// A user has the name in the last line that gives one for the number; without such a line
/// the number itself stands for the name.
pub proof fn lemma_last_name_counts(all: Seq<Seq<char>>, uid: u32, name: Seq<char>, i: int)
    requires
        i >= -1,
        forall|k: int|
            i < k < all.len() ==> !(passwd_entry(#[trigger] all[k]) matches Some((u, _)) && u
                == uid),
    ensures
        0 <= i < all.len() && passwd_entry(all[i]) == Some((uid, name)) ==> user_name(
            passwd_names(all),
            uid,
        ) == name,
        i < 0 ==> user_name(passwd_names(all), uid) == decimal(uid as nat),
    decreases all.len(),
{
    if all.len() > 0 && i < all.len() - 1 {
        let front = all.drop_last();
        assert forall|k: int| i < k < front.len() implies !(passwd_entry(
            #[trigger] front[k],
        ) matches Some((u, _)) && u == uid) by {
            assert(front[k] == all[k]);
        }
        lemma_last_name_counts(front, uid, name, i);
        assert(all[all.len() - 1] == all.last());
    }
}

/// The status of a process gives the name in its last line of that kind, without the white
/// space around it.
pub proof fn lemma_status_gives_name(all: Seq<Seq<char>>, rest: Seq<char>, i: int)
    requires
        i >= -1,
        forall|k: int| i < k < all.len() ==> !"Name:"@.is_prefix_of(#[trigger] all[k]),
    ensures
        0 <= i < all.len() && all[i] == "Name:"@ + rest ==> status_name(all) == Some(trimmed(rest)),
        i < 0 ==> status_name(all) is None,
    decreases all.len(),
{
    if all.len() > 0 {
        assert(all[all.len() - 1] == all.last());
        if i == all.len() - 1 {
            lemma_prefix_is_cut("Name:"@, rest, all.last());
        } else if i < all.len() - 1 {
            let front = all.drop_last();
            assert forall|k: int| i < k < front.len() implies !"Name:"@.is_prefix_of(
                #[trigger] front[k],
            ) by {
                assert(front[k] == all[k]);
            }
            lemma_status_gives_name(front, rest, i);
        }
    }
}

/// The status of a process gives the user in its last line of that kind: the first of the
/// numbers there.
pub proof fn lemma_status_gives_user(all: Seq<Seq<char>>, rest: Seq<char>, uid: u32, i: int)
    requires
        i >= -1,
        forall|k: int| i < k < all.len() ==> !"Uid:"@.is_prefix_of(#[trigger] all[k]),
    ensures
        0 <= i < all.len() && all[i] == "Uid:"@ + rest && words(rest).len() > 0 && words(rest)[0]
            == decimal(uid as nat) ==> status_uid(all) == Some(uid),
        i < 0 ==> status_uid(all) is None,
    decreases all.len(),
{
    lemma_decimal_reads_back(uid as nat, u32::MAX as nat);
    if all.len() > 0 {
        assert(all[all.len() - 1] == all.last());
        if i == all.len() - 1 {
            lemma_prefix_is_cut("Uid:"@, rest, all.last());
        } else if i < all.len() - 1 {
            let front = all.drop_last();
            assert forall|k: int| i < k < front.len() implies !"Uid:"@.is_prefix_of(
                #[trigger] front[k],
            ) by {
                assert(front[k] == all[k]);
            }
            lemma_status_gives_user(front, rest, uid, i);
        }
    }
}

/// A status names its process only if it gives both a name and a user.
pub proof fn lemma_status_needs_both(content: Seq<char>)
    ensures
        status_of(content) matches Some((name, uid)) ==> status_name(lines(content)) == Some(name)
            && status_uid(lines(content)) == Some(uid),
        status_of(content) is None <==> status_name(lines(content)) is None || status_uid(
            lines(content),
        ) is None,
{
}

proof fn lemma_digits_len(d: Seq<char>, rest: Seq<char>)
    requires
        forall|i: int| 0 <= i < d.len() ==> '0' <= #[trigger] d[i] <= '9',
        rest.len() == 0 || !('0' <= rest[0] <= '9'),
    ensures
        digits_len(d + rest) == d.len(),
    decreases d.len(),
{
    if d.len() == 0 {
        assert(d + rest =~= rest);
    } else {
        assert((d + rest)[0] == d[0]);
        assert((d + rest).skip(1) =~= d.skip(1) + rest);
        lemma_digits_len(d.skip(1), rest);
    }
}

proof fn lemma_quoted_len(name: Seq<char>, rest: Seq<char>)
    requires
        is_field(name, '"'),
    ensures
        field_len(name + seq!['"'] + rest, '"') == name.len(),
    decreases name.len(),
{
    let s = name + seq!['"'] + rest;
    if name.len() == 0 {
        assert(s[0] == '"');
    } else {
        assert(s[0] == name[0]);
        assert(s.skip(1) =~= name.skip(1) + seq!['"'] + rest);
        lemma_quoted_len(name.skip(1), rest);
    }
}

/// A line of `ss` names the process behind its first `users:(`: by the number behind the
/// first `pid=` there, and by what stands between the first two quotes there.
pub proof fn lemma_ss_line_is_read(
    line: Seq<char>,
    u: int,
    p: int,
    q: int,
    pid: u32,
    name: Seq<char>,
    behind_pid: Seq<char>,
    behind_name: Seq<char>,
)
    requires
        is_first_occurrence(line, "users:("@, u),
        ({
            let users = line.skip(u + 7);
            &&& is_first_occurrence(users, "pid="@, p)
            &&& users.skip(p + 4) == decimal(pid as nat) + behind_pid
            &&& behind_pid.len() == 0 || !('0' <= behind_pid[0] <= '9')
            &&& is_first_occurrence(users, "\""@, q)
            &&& users.skip(q + 1) == name + seq!['"'] + behind_name
            &&& is_field(name, '"')
            &&& name.len() > 0
        }),
    ensures
        line_owner(line) == Some((pid, name)),
{
    reveal_strlit("users:(");
    reveal_strlit("pid=");
    reveal_strlit("\"");
    let users = line.skip(u + 7);
    let d = decimal(pid as nat);
    lemma_after_first(line, "users:("@, u);
    lemma_after_first(users, "pid="@, p);
    lemma_after_first(users, "\""@, q);
    lemma_numeral_value(pid as nat, 10);
    assert forall|i: int| 0 <= i < d.len() implies '0' <= #[trigger] d[i] <= '9' by {
        assert(digit_worth(d[i]) < 10);
    }
    lemma_digits_len(d, behind_pid);
    assert((d + behind_pid).take(d.len() as int) =~= d);
    lemma_decimal_reads_back(pid as nat, u32::MAX as nat);
    lemma_quoted_len(name, behind_name);
    let rest = name + seq!['"'] + behind_name;
    assert(rest.take(name.len() as int) =~= name);
}

/// The owner is that of the first line of `ss` that names one.
pub proof fn lemma_first_owner_counts(all: Seq<Seq<char>>, i: int)
    requires
        forall|k: int| 0 <= k < i && k < all.len() ==> line_owner(#[trigger] all[k]) is None,
        i >= 0,
    ensures
        i < all.len() && line_owner(all[i]) is Some ==> first_owner(all) == line_owner(all[i]),
        i >= all.len() ==> first_owner(all) is None,
    decreases all.len(),
{
    if i > 0 && all.len() > 0 {
        let more = all.skip(1);
        assert(line_owner(all[0]) is None);
        assert forall|k: int| 0 <= k < i - 1 && k < more.len() implies line_owner(
            #[trigger] more[k],
        ) is None by {
            assert(more[k] == all[k + 1]);
        }
        lemma_first_owner_counts(more, i - 1);
        if i < all.len() {
            assert(more[i - 1] == all[i]);
        }
    }
}

/// The owner of a connection is looked for where it can be found: by the inode of the
/// socket, unless that is 0; else, and if no process has the socket open, TCP is left to
/// `ss`, and nothing can be found for other protocols.
pub proof fn lemma_lookup_goes_on(
    protocol: Protocol,
    inode: Seq<char>,
    pid: u32,
    output: Seq<char>,
)
    ensures
        inode != "0"@ ==> next_after_inode(protocol, Some(inode)) == (LookupView::FindPid {
            inode,
        }),
        next_after_inode(protocol, Some("0"@)) == next_after_inode(protocol, None),
        next_after_inode(protocol, None) == next_after_pid(protocol, None),
        next_after_pid(protocol, None) == LookupView::AskSs <==> protocol == Protocol::Tcp,
        next_after_pid(protocol, None) == LookupView::Unknown <==> protocol != Protocol::Tcp,
        next_after_pid(protocol, Some(pid)) == (LookupView::ReadStatus { pid, name: None }),
        next_after_ss(None) == LookupView::Unknown,
        first_owner(lines(output)) matches Some((p, name)) ==> next_after_ss(Some(output)) == (
        LookupView::ReadStatus { pid: p, name: Some(name) }),
        first_owner(lines(output)) is None ==> next_after_ss(Some(output)) == LookupView::Unknown,
{
}

/// The owner is the process that was found, under the name that was found with it or else
/// the one in its status, and the user in its status; without a status there is no owner.
pub proof fn lemma_owner_is_complete(
    pid: u32,
    name: Option<Seq<char>>,
    content: Seq<char>,
    users: Map<u32, Seq<char>>,
)
    ensures
        owner_from_status(pid, name, None, users) is None,
        owner_from_status(pid, name, Some(content), users) is Some <==> status_of(content) is Some,
        owner_from_status(pid, name, Some(content), users) matches Some(p) ==> {
            &&& p.pid == pid
            &&& name matches Some(n) ==> p.name == n
            &&& name is None ==> (status_of(content) matches Some((n, _)) && p.name == n)
            &&& status_of(content) matches Some((_, uid)) && p.username == if users.contains_key(
                uid,
            ) {
                users[uid]
            } else {
                decimal(uid as nat)
            }
        },
{
}

/// TCP and UDP each have two tables of their own, that of IPv4 before that of IPv6, which
/// has the same name with a 6 behind it; no other protocol has any.
pub proof fn lemma_tables_of_protocol(protocol: Protocol)
    ensures
        protocol == Protocol::Tcp || protocol == Protocol::Udp <==> table_paths(protocol).len()
            == 2,
        !(protocol == Protocol::Tcp || protocol == Protocol::Udp) ==> table_paths(protocol).len()
            == 0,
        protocol == Protocol::Tcp ==> table_paths(protocol)[0]@ == "/proc/net/tcp"@,
        protocol == Protocol::Udp ==> table_paths(protocol)[0]@ == "/proc/net/udp"@,
        table_paths(protocol).len() == 2 ==> table_paths(protocol)[1]@
            == table_paths(protocol)[0]@.push('6'),
{
    reveal_strlit("/proc/net/tcp");
    reveal_strlit("/proc/net/tcp6");
    reveal_strlit("/proc/net/udp");
    reveal_strlit("/proc/net/udp6");
    assert("/proc/net/tcp6"@ =~= "/proc/net/tcp"@.push('6'));
    assert("/proc/net/udp6"@ =~= "/proc/net/udp"@.push('6'));
}

/// A line of the user database is of no use exactly if it has fewer than three fields or
/// its third field is no number.
pub proof fn lemma_passwd_line_needs_a_number(line: Seq<char>)
    ensures
        passwd_entry(line) is None <==> fields(line, ':').len() < 3 || number_of(
            fields(line, ':')[2],
            10,
            u32::MAX as nat,
        ) is None,
        passwd_entry(line) matches Some((uid, name)) ==> name == fields(line, ':')[0] && number_of(
            fields(line, ':')[2],
            10,
            u32::MAX as nat,
        ) == Some(uid as nat),
{
}

/// A line of `ss` names no process if it lacks one of the marks.
pub proof fn lemma_ss_line_needs_its_marks(line: Seq<char>, u: int)
    ensures
        !occurs(line, "users:("@) ==> line_owner(line) is None,
        is_first_occurrence(line, "users:("@, u) && !occurs(line.skip(u + 7), "pid="@)
            ==> line_owner(line) is None,
        is_first_occurrence(line, "users:("@, u) && !occurs(line.skip(u + 7), "\""@)
            ==> line_owner(line) is None,
{
    reveal_strlit("users:(");
    lemma_after_first(line, "users:("@, u);
    lemma_after_first(line.skip(u + 7), "pid="@, 0);
    lemma_after_first(line.skip(u + 7), "\""@, 0);
}

/// A line that has too few words, or no local port, gives no inode.
pub proof fn lemma_incomplete_line_gives_no_inode(line: Seq<char>, src_port: u16, dst_port: u16)
    ensures
        words(line).len() < 10 ==> line_inode(line, src_port, dst_port) is None,
        words(line).len() >= 10 && (fields(words(line)[1], ':').len() < 2 || number_of(
            fields(words(line)[1], ':')[1],
            16,
            65535,
        ) is None) ==> line_inode(line, src_port, dst_port) is None,
{
}

/// A process is seen as it is, and so is what to look at next.
pub proof fn lemma_process_is_seen(p: ProcessInfo, inode: String, pid: u32, name: Option<String>)
    ensures
        p@.pid == p.pid,
        p@.name == p.name@,
        p@.username == p.username@,
        owner_view(Some(p)) == Some(p@),
        owner_view(None) is None,
        (Lookup::FindPid { inode })@ == (LookupView::FindPid { inode: inode@ }),
        (Lookup::ReadStatus { pid, name })@ == (LookupView::ReadStatus {
            pid,
            name: opt_text(name),
        }),
        Lookup::AskSs@ == LookupView::AskSs,
        Lookup::Unknown@ == LookupView::Unknown,
{
}

/// The names of users are seen as they are.
pub proof fn lemma_users_are_seen(users: Users, uid: u32)
    ensures
        users@.contains_key(uid) == users.names@.contains_key(uid),
        users.names@.contains_key(uid) ==> users@[uid] == users.names@[uid]@,
{
}

/// A socket with one of the ports is found wherever it stands: an inode is given exactly if
/// some line behind the heading of some table that was read gives one.
pub proof fn lemma_socket_in_any_table_is_found(
    tables: Seq<Option<String>>,
    src_port: u16,
    dst_port: u16,
)
    ensures
        first_table_inode(tables, src_port, dst_port) is Some <==> exists|t: int, i: int|
            #![trigger line_of_table(tables, t, i)]
            line_of_table(tables, t, i) matches Some(line) && line_inode(
                line,
                src_port,
                dst_port,
            ) is Some,
    decreases tables.len(),
{
    if tables.len() > 0 {
        let others = tables.skip(1);
        lemma_socket_in_any_table_is_found(others, src_port, dst_port);
        assert forall|t: int, i: int|
            t > 0 implies #[trigger] line_of_table(tables, t, i) == line_of_table(
            others,
            t - 1,
            i,
        ) by {
            if 0 <= t - 1 < others.len() {
                assert(others[t - 1] == tables[t]);
            }
        }
        assert forall|t: int, i: int|
            t >= 0 implies #[trigger] line_of_table(others, t, i) == line_of_table(
            tables,
            t + 1,
            i,
        ) by {}
        if let Some(table) = tables[0] {
            let rows = table_rows(table@);
            let all = lines(table@);
            if first_inode(rows, src_port, dst_port) is Some {
                let k = lemma_inode_is_in_a_line(rows, src_port, dst_port);
                assert(rows[k] == all[k + 1]);
                assert(line_of_table(tables, 0, k + 1) == Some(all[k + 1]));
            } else {
                assert forall|i: int|
                    line_of_table(tables, 0, i) is Some implies line_inode(
                    #[trigger] line_of_table(tables, 0, i)->0,
                    src_port,
                    dst_port,
                ) is None by {
                    assert(rows[i - 1] == all[i]);
                    lemma_no_inode_in_any_line(rows, src_port, dst_port, i - 1);
                }
            }
        } else {
            assert forall|i: int| #[trigger] line_of_table(tables, 0, i) is None by {}
        }
        if first_table_inode(others, src_port, dst_port) is Some {
            let (t, i) = choose|t: int, i: int|
                #![trigger line_of_table(others, t, i)]
                line_of_table(others, t, i) matches Some(line) && line_inode(
                    line,
                    src_port,
                    dst_port,
                ) is Some;
            assert(t >= 0);
            assert(line_of_table(tables, t + 1, i) == line_of_table(others, t, i));
        }
        if exists|t: int, i: int|
            #![trigger line_of_table(tables, t, i)]
            line_of_table(tables, t, i) matches Some(line) && line_inode(
                line,
                src_port,
                dst_port,
            ) is Some {
            let (t, i) = choose|t: int, i: int|
                #![trigger line_of_table(tables, t, i)]
                line_of_table(tables, t, i) matches Some(line) && line_inode(
                    line,
                    src_port,
                    dst_port,
                ) is Some;
            if t > 0 {
                assert(line_of_table(others, t - 1, i) == line_of_table(tables, t, i));
            }
        }
    }
}

/// A line behind the heading of a table that was read.
pub open spec fn line_of_table(tables: Seq<Option<String>>, t: int, i: int) -> Option<Seq<char>> {
    if 0 <= t < tables.len() {
        match tables[t] {
            Some(table) => if 1 <= i < lines(table@).len() {
                Some(lines(table@)[i])
            } else {
                None
            },
            None => None,
        }
    } else {
        None
    }
}

proof fn lemma_inode_is_in_a_line(all: Seq<Seq<char>>, src_port: u16, dst_port: u16) -> (i: int)
    requires
        first_inode(all, src_port, dst_port) is Some,
    ensures
        0 <= i < all.len(),
        line_inode(all[i], src_port, dst_port) is Some,
    decreases all.len(),
{
    if line_inode(all[0], src_port, dst_port) is Some {
        0
    } else {
        let k = lemma_inode_is_in_a_line(all.skip(1), src_port, dst_port);
        assert(all.skip(1)[k] == all[k + 1]);
        k + 1
    }
}

proof fn lemma_no_inode_in_any_line(all: Seq<Seq<char>>, src_port: u16, dst_port: u16, i: int)
    requires
        first_inode(all, src_port, dst_port) is None,
        0 <= i < all.len(),
    ensures
        line_inode(all[i], src_port, dst_port) is None,
    decreases all.len(),
{
    if i > 0 {
        assert(all.skip(1)[i - 1] == all[i]);
        lemma_no_inode_in_any_line(all.skip(1), src_port, dst_port, i - 1);
    }
}

} // verus!
