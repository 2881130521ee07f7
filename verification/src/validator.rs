//! The validator on this machine: which process it is, which sockets it holds
//! open, as whom it runs and what its ports are for.

use std::collections::{HashMap, HashSet};

use vstd::prelude::*;
use vstd::slice::slice_subrange;

use crate::net::strings_view;
use crate::number::{decimal, law_decimal_reads_back, lemma_decimal_chars, push_decimal};
use crate::source::{decode, decoded, text_view, CommandOutput, FileText};
use crate::text::{
    after_last, chars_of, cut_first, cut_last, find, find_last, has_prefix, int_error_text, is_space,
    is_text, labelled, law_first_cut_is_at_the_first, law_last_cut_is_at_the_last, lemma_label,
    lemma_occurs, lemma_position_at, lemma_trim_keeps, lemma_uint_bound, lines, lines_of, lower,
    lowered, parse_uint, position, same_text, space_end, spaces_to_underscores, split_first,
    split_last, string_of, strip_prefix, trim, trimmed, uint_value, underscored, views,
    without_prefix, words, words_of, IntError,
};

verus! {

broadcast use vstd::std_specs::hash::group_hash_axioms;

// ---- the process ----

/// One entry of `/proc`: its name, and where it is a process the command line,
/// if that could be read.
pub struct ProcEntry {
    pub name: String,
    pub cmdline: Option<String>,
}

/// The process that an entry of `/proc` stands for.
pub open spec fn pid_value(name: Seq<char>) -> Option<u32> {
    match uint_value(name, 10, u32::MAX as int) {
        Ok(v) => Some(v as u32),
        Err(_) => None,
    }
}

/// The name of the program that a command line starts: the first argument,
/// which a zero ends, behind its last slash.
pub open spec fn program_name(cmdline: Seq<char>) -> Seq<char> {
    let argv0 = cmdline.subrange(0, position(cmdline, '\0', 0));
    argv0.subrange(after_last(argv0, '/', argv0.len() as int), argv0.len() as int)
}

/// Whether a command line starts a validator.
pub open spec fn starts_validator(cmdline: Seq<char>) -> bool {
    program_name(cmdline) == "agave-validator"@ || program_name(cmdline) == "solana-validator"@
}

/// The validator's process, if an entry of `/proc` is one.
pub open spec fn validator_at(e: ProcEntry) -> Option<u32> {
    match e.cmdline {
        Some(c) if starts_validator(c@) => pid_value(e.name@),
        _ => None,
    }
}

/// The first validator among the entries from `i` on.
pub open spec fn first_validator(es: Seq<ProcEntry>, i: int) -> Option<u32>
    decreases es.len() - i,
{
    if 0 <= i < es.len() {
        match validator_at(es[i]) {
            Some(pid) => Some(pid),
            None => first_validator(es, i + 1),
        }
    } else {
        None
    }
}

/// Reads the name of an entry of `/proc` as a process number.
pub fn proc_pid(name: &str) -> (r: Option<u32>)
    ensures
        r == pid_value(name@),
{
    let chars = chars_of(name);
    match parse_uint(chars.as_slice(), 10, 4294967295) {
        Ok(v) => Some(v as u32),
        Err(_) => None,
    }
}

/// Tells whether a command line starts a validator. The name of the program is
/// taken from the first argument: the kernel's short name of a process breaks
/// off before `agave-validator` ends.
pub fn is_validator(cmdline: &str) -> (r: bool)
    ensures
        r == starts_validator(cmdline@),
{
    let chars = chars_of(cmdline);
    let s = chars.as_slice();
    let argv0 = slice_subrange(s, 0, find(s, '\0', 0));
    let bin = slice_subrange(argv0, find_last(argv0, '/'), argv0.len());
    is_text(bin, "agave-validator") || is_text(bin, "solana-validator")
}

/// Finds the validator among the entries of `/proc`: the first whose command
/// line starts one.
pub fn find_agave_pid(entries: &Vec<ProcEntry>) -> (r: Option<u32>)
    ensures
        r == first_validator(entries@, 0),
{
    let mut i: usize = 0;
    while i < entries.len()
        invariant
            i <= entries@.len(),
            first_validator(entries@, 0) == first_validator(entries@, i as int),
        decreases entries@.len() - i,
    {
        match (proc_pid(entries[i].name.as_str()), &entries[i].cmdline) {
            (Some(pid), Some(c)) => {
                if is_validator(c.as_str()) {
                    return Some(pid);
                }
            },
            _ => {},
        }
        i = i + 1;
    }
    None
}

/// The process that was asked for, else the validator among the entries of
/// `/proc`.
pub fn resolve_pid(pid_override: Option<u32>, entries: &Vec<ProcEntry>) -> (r: Option<u32>)
    ensures
        r == (match pid_override {
            Some(pid) => Some(pid),
            None => first_validator(entries@, 0),
        }),
{
    match pid_override {
        Some(pid) => Some(pid),
        None => find_agave_pid(entries),
    }
}

// ---- its sockets ----

/// A text without the character `c` at its end, if it ends in it.
pub open spec fn without_last(s: Seq<char>, c: char) -> Option<Seq<char>> {
    if s.len() > 0 && s.last() == c {
        Some(s.drop_last())
    } else {
        None
    }
}

/// The inode of the socket that an open file is, by what its link reads:
/// `socket:[4026]`.
pub open spec fn socket_inode(target: Seq<char>) -> Option<u64> {
    match without_prefix(target, "socket:["@) {
        None => None,
        Some(rest) => match without_last(rest, ']') {
            None => None,
            Some(inner) => match uint_value(inner, 10, u64::MAX as int) {
                Ok(v) => Some(v as u64),
                Err(_) => None,
            },
        },
    }
}

/// The inodes of the sockets among the first `n` open files.
pub open spec fn socket_inodes(targets: Seq<Seq<char>>, n: int) -> Set<u64>
    decreases n,
{
    if n <= 0 {
        Set::empty()
    } else {
        match socket_inode(targets[n - 1]) {
            Some(i) => socket_inodes(targets, n - 1).insert(i),
            None => socket_inodes(targets, n - 1),
        }
    }
}

fn read_socket_inode(target: &str) -> (r: Option<u64>)
    ensures
        r == socket_inode(target@),
{
    let chars = chars_of(target);
    let rest = match strip_prefix(chars.as_slice(), "socket:[") {
        Some(rest) => rest,
        None => {
            return None;
        },
    };
    if rest.len() == 0 || rest[rest.len() - 1] != ']' {
        return None;
    }
    let inner = slice_subrange(rest, 0, rest.len() - 1);
    assert(inner@ =~= rest@.drop_last());
    match parse_uint(inner, 10, u64::MAX) {
        Ok(v) => Some(v),
        Err(_) => None,
    }
}

/// Picks the sockets out of what the links of a process's open files read.
/// Other files are passed over.
pub fn walk_fd_inodes(targets: &Vec<String>) -> (r: HashSet<u64>)
    ensures
        r@ == socket_inodes(strings_view(targets@), targets@.len() as int),
{
    let mut out: HashSet<u64> = HashSet::new();
    let mut i: usize = 0;
    while i < targets.len()
        invariant
            i <= targets@.len(),
            out@ == socket_inodes(strings_view(targets@), i as int),
        decreases targets@.len() - i,
    {
        assert(strings_view(targets@)[i as int] == targets@[i as int]@);
        match read_socket_inode(targets[i].as_str()) {
            Some(inode) => {
                out.insert(inode);
            },
            None => {},
        }
        i = i + 1;
    }
    out
}

// ---- whom it runs as ----

/// The path of a file about a process.
pub open spec fn proc_path(pid: u32, file: Seq<char>) -> Seq<char> {
    "/proc/"@ + decimal(pid as nat) + "/"@ + file
}

fn proc_file(pid: u32, file: &str) -> (r: String)
    ensures
        r@ == proc_path(pid, file@),
{
    let mut out = "/proc/".to_string();
    push_decimal(&mut out, pid as u128);
    out.append("/");
    out.append(file);
    out
}

/// The program that a process was started from, by what its link `exe` reads;
/// `None` stands for a link that is no text.
pub open spec fn bin_value(pid: u32, link: Result<Option<String>, String>) -> Result<
    Seq<char>,
    Seq<char>,
> {
    let path = proc_path(pid, "exe"@);
    match link {
        Err(e) => Err(path + ": "@ + e@),
        Ok(None) => Err(path + ": not valid utf8"@),
        Ok(Some(p)) => Ok(p@),
    }
}

/// The program that the running validator was started from. It is not looked up
/// by name: the search path of this program need not lead to it.
pub fn agave_bin_path(pid: u32, link: Result<Option<String>, String>) -> (r: Result<String, String>)
    ensures
        text_view(r) == bin_value(pid, link),
{
    let mut path = proc_file(pid, "exe");
    match link {
        Err(e) => {
            path.append(": ");
            path.append(e.as_str());
            Err(path)
        },
        Ok(None) => {
            path.append(": not valid utf8");
            Err(path)
        },
        Ok(Some(p)) => Ok(p),
    }
}

/// The user in a line of a status file: the first word behind `Uid:`.
pub open spec fn uid_word(line: Seq<char>) -> Option<Seq<char>> {
    match without_prefix(line, "Uid:"@) {
        Some(rest) if words_of(rest).len() > 0 => Some(words_of(rest)[0]),
        _ => None,
    }
}

/// The first user in the lines from `i` on.
pub open spec fn first_uid(ls: Seq<Seq<char>>, i: int) -> Option<Seq<char>>
    decreases ls.len() - i,
{
    if 0 <= i < ls.len() {
        match uid_word(ls[i]) {
            Some(w) => Some(w),
            None => first_uid(ls, i + 1),
        }
    } else {
        None
    }
}

/// The real user that a process runs as, by its status file, or why it cannot be
/// told.
pub open spec fn uid_value(pid: u32, file: Result<Seq<char>, Seq<char>>) -> Result<u32, Seq<char>> {
    let path = proc_path(pid, "status"@);
    match file {
        Err(e) => Err(path + ": "@ + e),
        Ok(t) => match first_uid(lines_of(t), 0) {
            None => Err(path + ": no Uid line found"@),
            Some(w) => match uint_value(w, 10, u32::MAX as int) {
                Ok(v) => Ok(v as u32),
                Err(e) => Err(path + ": bad Uid line: "@ + int_error_text(e)),
            },
        },
    }
}

/// The real user that the validator runs as. Its admin socket takes no other,
/// not even root.
pub fn agave_uid(pid: u32, file: &FileText) -> (r: Result<u32, String>)
    ensures
        (match r {
            Ok(u) => Ok(u),
            Err(e) => Err(e@),
        }) == uid_value(pid, text_view(*file)),
{
    let mut path = proc_file(pid, "status");
    match file {
        Err(e) => {
            path.append(": ");
            path.append(e.as_str());
            Err(path)
        },
        Ok(t) => {
            let chars = chars_of(t.as_str());
            let ls = lines(chars.as_slice());
            let mut i: usize = 0;
            while i < ls.len()
                invariant
                    i <= ls@.len(),
                    text_view(*file) == Ok::<Seq<char>, Seq<char>>(t@),
                    views(ls@) == lines_of(t@),
                    path@ == proc_path(pid, "status"@),
                    first_uid(lines_of(t@), 0) == first_uid(lines_of(t@), i as int),
                decreases ls@.len() - i,
            {
                assert(views(ls@)[i as int] == ls@[i as int]@);
                match strip_prefix(ls[i], "Uid:") {
                    Some(rest) => {
                        let ws = words(rest);
                        if ws.len() > 0 {
                            assert(views(ws@)[0] == ws@[0]@);
                            return match parse_uint(ws[0], 10, 4294967295) {
                                Ok(v) => Ok(v as u32),
                                Err(e) => {
                                    path.append(": bad Uid line: ");
                                    path.append(e.message());
                                    Err(path)
                                },
                            };
                        }
                    },
                    None => {},
                }
                i = i + 1;
            }
            path.append(": no Uid line found");
            Err(path)
        },
    }
}

// ---- the roles of its ports ----

/// The role that a label of the contact information stands for.
pub open spec fn known_role(label: Seq<char>) -> Option<Seq<char>> {
    if label == "Gossip"@ {
        Some("gossip"@)
    } else if label == "TVU"@ {
        Some("tvu"@)
    } else if label == "TVU QUIC"@ {
        Some("tvu_quic"@)
    } else if label == "TPU"@ {
        Some("tpu"@)
    } else if label == "TPU QUIC"@ {
        Some("tpu_quic"@)
    } else if label == "TPU Forwards"@ {
        Some("tpu_forwards"@)
    } else if label == "TPU Forwards QUIC"@ {
        Some("tpu_forwards_quic"@)
    } else if label == "TPU Votes"@ {
        Some("tpu_vote"@)
    } else if label == "TPU Votes QUIC"@ {
        Some("tpu_vote_quic"@)
    } else if label == "Serve Repair"@ {
        Some("serve_repair"@)
    } else if label == "Serve Repair QUIC"@ {
        Some("serve_repair_quic"@)
    } else if label == "Repair"@ {
        Some("repair"@)
    } else if label == "RPC"@ {
        Some("rpc"@)
    } else if label == "RPC Pubsub"@ {
        Some("rpc_pubsub"@)
    } else {
        None
    }
}

/// The role of a label: the known one, else the label in lower case with
/// underscores for spaces.
pub open spec fn role_text(label: Seq<char>) -> Seq<char> {
    match known_role(label) {
        Some(role) => role,
        None => underscored(lowered(label)),
    }
}

/// Looks a label up among those that are known.
pub fn find_known_role(label: &str) -> (r: Option<&'static str>)
    ensures
        (match r {
            Some(role) => Some(role@),
            None => None,
        }) == known_role(label@),
{
    if same_text(label, "Gossip") {
        Some("gossip")
    } else if same_text(label, "TVU") {
        Some("tvu")
    } else if same_text(label, "TVU QUIC") {
        Some("tvu_quic")
    } else if same_text(label, "TPU") {
        Some("tpu")
    } else if same_text(label, "TPU QUIC") {
        Some("tpu_quic")
    } else if same_text(label, "TPU Forwards") {
        Some("tpu_forwards")
    } else if same_text(label, "TPU Forwards QUIC") {
        Some("tpu_forwards_quic")
    } else if same_text(label, "TPU Votes") {
        Some("tpu_vote")
    } else if same_text(label, "TPU Votes QUIC") {
        Some("tpu_vote_quic")
    } else if same_text(label, "Serve Repair") {
        Some("serve_repair")
    } else if same_text(label, "Serve Repair QUIC") {
        Some("serve_repair_quic")
    } else if same_text(label, "Repair") {
        Some("repair")
    } else if same_text(label, "RPC") {
        Some("rpc")
    } else if same_text(label, "RPC Pubsub") {
        Some("rpc_pubsub")
    } else {
        None
    }
}

/// Names the role of a label. Of a label that is not known the letters turn to
/// lower case and the spaces to underscores.
pub fn label_to_role(label: &str) -> (r: String)
    ensures
        r@ == role_text(label@),
{
    match find_known_role(label) {
        Some(role) => role.to_string(),
        None => {
            let text = lower(label);
            spaces_to_underscores(text.as_str())
        },
    }
}

/// The port and role in a line of the contact information: a label, a colon, and
/// a value that ends in a colon and a port. The ports 0 and 1 stand for sockets
/// that are not bound.
pub open spec fn contact_role(line: Seq<char>) -> Option<(u16, Seq<char>)> {
    match cut_first(line, ':') {
        None => None,
        Some((label, value)) => match cut_last(trimmed(value), ':') {
            None => None,
            Some((_, port)) => match uint_value(port, 10, u16::MAX as int) {
                Ok(p) if p > 1 => Some((p as u16, role_text(trimmed(label)))),
                _ => None,
            },
        },
    }
}

/// The roles in the first `n` lines of the contact information, by port; of two
/// lines for one port the later counts.
pub open spec fn contact_roles(ls: Seq<Seq<char>>, n: int) -> Map<u16, Seq<char>>
    decreases n,
{
    if n <= 0 {
        Map::empty()
    } else {
        match contact_role(ls[n - 1]) {
            Some((port, role)) => contact_roles(ls, n - 1).insert(port, role),
            None => contact_roles(ls, n - 1),
        }
    }
}

/// The roles in the contact information, by port.
pub open spec fn contact_value(text: Seq<char>) -> Map<u16, Seq<char>> {
    contact_roles(lines_of(text), lines_of(text).len() as int)
}

/// The roles by port, as text.
pub open spec fn roles_view(roles: HashMap<u16, String>) -> Map<u16, Seq<char>> {
    roles@.map_values(|s: String| s@)
}

fn read_contact_role(line: &[char]) -> (r: Option<(u16, String)>)
    ensures
        (match r {
            Some((port, role)) => Some((port, role@)),
            None => None,
        }) == contact_role(line@),
{
    let (label, value) = match split_first(line, ':') {
        Some(p) => p,
        None => {
            return None;
        },
    };
    let port_chars = match split_last(trim(value), ':') {
        Some((_, p)) => p,
        None => {
            return None;
        },
    };
    match parse_uint(port_chars, 10, 65535) {
        Ok(p) => if p <= 1 {
            None
        } else {
            let name = string_of(trim(label));
            Some((p as u16, label_to_role(name.as_str())))
        },
        Err(_) => None,
    }
}

/// Reads the contact information that the validator prints. Lines whose value
/// does not end in a port are passed over.
pub fn parse_contact_info(text: &str) -> (r: HashMap<u16, String>)
    ensures
        roles_view(r) == contact_value(text@),
{
    let chars = chars_of(text);
    let ls = lines(chars.as_slice());
    let mut roles: HashMap<u16, String> = HashMap::new();
    assert(roles_view(roles) =~= Map::empty());
    let mut i: usize = 0;
    while i < ls.len()
        invariant
            i <= ls@.len(),
            views(ls@) == lines_of(text@),
            roles_view(roles) == contact_roles(lines_of(text@), i as int),
        decreases ls@.len() - i,
    {
        assert(views(ls@)[i as int] == ls@[i as int]@);
        let ghost was = roles;
        match read_contact_role(ls[i]) {
            Some((port, role)) => {
                roles.insert(port, role);
                assert(roles_view(roles) =~= roles_view(was).insert(port, role@));
            },
            None => {},
        }
        i = i + 1;
    }
    roles
}

/// Why the contact information could not be had from a program that failed.
pub open spec fn contact_failure(
    bin: Seq<char>,
    status: Seq<char>,
    stderr: Seq<char>,
    stdout: Seq<char>,
) -> Seq<char> {
    bin + " contact-info: "@ + status + " stderr: "@ + trimmed(stderr) + " stdout: "@ + trimmed(
        stdout,
    )
}

/// Says why the contact information could not be had from a program that failed.
pub fn describe_contact_failure(bin: &str, status: &str, stderr: &str, stdout: &str) -> (r: String)
    ensures
        r@ == contact_failure(bin@, status@, stderr@, stdout@),
{
    let err_chars = chars_of(stderr);
    let err = string_of(trim(err_chars.as_slice()));
    let out_chars = chars_of(stdout);
    let text = string_of(trim(out_chars.as_slice()));
    let mut out = bin.to_string();
    out.append(" contact-info: ");
    out.append(status);
    out.append(" stderr: ");
    out.append(err.as_str());
    out.append(" stdout: ");
    out.append(text.as_str());
    out
}

/// The roles of the validator's ports, by what its `contact-info` command left
/// behind.
pub open spec fn roles_value(bin: Seq<char>, output: Result<CommandOutput, String>) -> Result<
    Map<u16, Seq<char>>,
    Seq<char>,
> {
    match output {
        Err(e) => Err(bin + " contact-info: "@ + e@),
        Ok(o) => if o.success {
            Ok(contact_value(decoded(o.stdout@)))
        } else {
            Err(
                contact_failure(bin, o.status@, decoded(o.stderr@), decoded(o.stdout@)),
            )
        },
    }
}

/// Reads the roles of the validator's ports from the output of its
/// `contact-info` command, which asks the local admin socket and not the public
/// RPC port: what is needed there a voting validator leaves off.
pub fn refresh_port_roles(bin: &str, output: &Result<CommandOutput, String>) -> (r: Result<
    HashMap<u16, String>,
    String,
>)
    ensures
        (match r {
            Ok(m) => Ok(roles_view(m)),
            Err(e) => Err(e@),
        }) == roles_value(bin@, *output),
{
    match output {
        Err(e) => {
            let mut out = bin.to_string();
            out.append(" contact-info: ");
            out.append(e.as_str());
            Err(out)
        },
        Ok(o) => {
            let stdout = decode(o.stdout.as_slice());
            if o.success {
                Ok(parse_contact_info(stdout.as_str()))
            } else {
                let stderr = decode(o.stderr.as_slice());
                Err(
                    describe_contact_failure(
                        bin,
                        o.status.as_str(),
                        stderr.as_str(),
                        stdout.as_str(),
                    ),
                )
            }
        },
    }
}

/// Ports that are not bound have no role: neither 0, which stands for a socket
/// that is switched off, nor 1, which stands for one that does not exist.
pub proof fn law_unbound_ports_have_no_role(ls: Seq<Seq<char>>, n: int)
    ensures
        !contact_roles(ls, n).contains_key(0),
        !contact_roles(ls, n).contains_key(1),
    decreases n,
{
    if n > 0 {
        law_unbound_ports_have_no_role(ls, n - 1);
    }
}

// ---- what holds of all processes and ports ----

/// An inode is among the open sockets if and only if the link of some open file names it.
pub proof fn law_every_open_socket_counts(targets: Seq<Seq<char>>, n: int, inode: u64)
    requires
        0 <= n <= targets.len(),
    ensures
        socket_inodes(targets, n).contains(inode) <==> exists|k: int|
            0 <= k < n && socket_inode(#[trigger] targets[k]) == Some(inode),
    decreases n,
{
    if n > 0 {
        law_every_open_socket_counts(targets, n - 1, inode);
        if socket_inode(targets[n - 1]) == Some(inode) {
            assert(socket_inode(targets[n - 1]) == Some(inode));
        }
    }
}

/// The link of an open socket is `socket:[`, the inode and `]`, and reads back as the
/// inode; one that does not begin and end so names none.
pub proof fn law_open_socket_reads_back(inode: u64, link: Seq<char>)
    ensures
        socket_inode("socket:["@ + decimal(inode as nat) + "]"@) == Some(inode),
        !has_prefix(link, "socket:["@) ==> socket_inode(link) is None,
        link.len() > 0 && link.last() != ']' ==> socket_inode(link) is None,
{
    reveal_strlit("socket:[");
    reveal_strlit("]");
    let d = decimal(inode as nat);
    let s = "socket:["@ + d + "]"@;
    assert(s.subrange(0, 8) =~= "socket:["@);
    let rest = s.subrange(8, s.len() as int);
    assert(rest =~= d + "]"@);
    assert(rest.last() == ']');
    assert(rest.drop_last() =~= d);
    law_decimal_reads_back(inode as nat, u64::MAX as int);
    if has_prefix(link, "socket:["@) && link.last() != ']' {
        let r = link.subrange(8, link.len() as int);
        if r.len() > 0 {
            assert(r.last() == link.last());
        }
    }
}

/// The program that a command line starts is named behind the last slash of its first
/// argument, whatever the other arguments are.
pub proof fn law_program_is_the_name_of_the_first_argument(
    dir: Seq<char>,
    name: Seq<char>,
    args: Seq<char>,
)
    requires
        !dir.contains('\0'),
        !name.contains('\0'),
        !name.contains('/'),
    ensures
        program_name(dir.push('/') + name.push('\0') + args) == name,
        program_name(name.push('\0') + args) == name,
        program_name(name) == name,
        starts_validator(dir.push('/') + name.push('\0') + args) <==> name == "agave-validator"@
            || name == "solana-validator"@,
{
    let argv0 = dir.push('/') + name;
    let s = dir.push('/') + name.push('\0') + args;
    assert(s =~= argv0.push('\0') + args);
    assert(!argv0.contains('\0')) by {
        if argv0.contains('\0') {
            let k = argv0.index_of('\0');
            if k < dir.len() {
                assert(dir.contains(dir[k]));
            } else if k > dir.len() {
                assert(name[k - dir.len() - 1] == '\0');
                assert(name.contains(name[k - dir.len() - 1]));
            }
        }
    }
    lemma_first_argument(argv0, args);
    lemma_first_argument(name, args);
    lemma_behind_slash(dir, name);
    lemma_no_slash(name, name.len() as int);
    assert(name.subrange(0, name.len() as int) =~= name);
}

proof fn lemma_first_argument(argv0: Seq<char>, args: Seq<char>)
    requires
        !argv0.contains('\0'),
    ensures
        ({
            let s = argv0.push('\0') + args;
            s.subrange(0, position(s, '\0', 0)) == argv0
        }),
        argv0.subrange(0, position(argv0, '\0', 0)) == argv0,
{
    let s = argv0.push('\0') + args;
    let n = argv0.len() as int;
    assert(s[n] == '\0');
    assert forall|k: int| 0 <= k < n implies s[k] != '\0' by {
        assert(s[k] == argv0[k]);
        assert(argv0.contains(argv0[k]));
    }
    lemma_position_at(s, '\0', 0, n);
    assert(s.subrange(0, n) =~= argv0);
    law_first_cut_is_at_the_first(argv0, '\0');
    assert(argv0.push('\0')[n] == '\0');
    lemma_position_to_end(argv0, '\0', 0);
    assert(argv0.subrange(0, n) =~= argv0);
}

proof fn lemma_position_to_end(s: Seq<char>, c: char, i: int)
    requires
        0 <= i <= s.len(),
        !s.contains(c),
    ensures
        position(s, c, i) == s.len(),
    decreases s.len() - i,
{
    if i < s.len() {
        assert(s.contains(s[i]));
        lemma_position_to_end(s, c, i + 1);
    }
}

proof fn lemma_no_slash(s: Seq<char>, j: int)
    requires
        0 <= j <= s.len(),
        !s.contains('/'),
    ensures
        after_last(s, '/', j) == 0,
    decreases j,
{
    if j > 0 {
        assert(s.contains(s[j - 1]));
        lemma_no_slash(s, j - 1);
    }
}

proof fn lemma_behind_slash(dir: Seq<char>, name: Seq<char>)
    requires
        !name.contains('/'),
    ensures
        ({
            let s = dir.push('/') + name;
            s.subrange(after_last(s, '/', s.len() as int), s.len() as int) == name
        }),
{
    let s = dir.push('/') + name;
    lemma_slash_at(s, dir.len() as int + 1, s.len() as int, name, dir.len() as int);
    assert(s.subrange(dir.len() as int + 1, s.len() as int) =~= name);
}

proof fn lemma_slash_at(s: Seq<char>, at: int, j: int, name: Seq<char>, n: int)
    requires
        0 <= n,
        at == n + 1,
        at <= j <= s.len(),
        s[n] == '/',
        forall|k: int| at <= k < j ==> #[trigger] s[k] == name[k - at] && k - at < name.len(),
        !name.contains('/'),
    ensures
        after_last(s, '/', j) == at,
    decreases j,
{
    if j > at {
        assert(s[j - 1] == name[j - 1 - at]);
        assert(name.contains(name[j - 1 - at]));
        lemma_slash_at(s, at, j - 1, name, n);
    }
}

/// The validator is the first entry whose name is a process number and whose command line
/// starts one.
pub proof fn law_first_validator_is_found(es: Seq<ProcEntry>, i: int, at: int, pid: u32)
    requires
        0 <= i <= at < es.len(),
        uint_value(es[at].name@, 10, u32::MAX as int) == Ok::<int, IntError>(pid as int),
        es[at].cmdline matches Some(c) && starts_validator(c@),
        forall|k: int|
            i <= k < at ==> uint_value((#[trigger] es[k]).name@, 10, u32::MAX as int) is Err
                || es[k].cmdline is None || !starts_validator(es[k].cmdline->0@),
    ensures
        first_validator(es, i) == Some(pid),
    decreases at - i,
{
    if i < at {
        law_first_validator_is_found(es, i + 1, at, pid);
    }
}

/// Where no entry is a process that starts a validator there is none.
pub proof fn law_no_validator_is_found(es: Seq<ProcEntry>, i: int)
    requires
        0 <= i <= es.len(),
        forall|k: int|
            i <= k < es.len() ==> uint_value((#[trigger] es[k]).name@, 10, u32::MAX as int) is Err
                || es[k].cmdline is None || !starts_validator(es[k].cmdline->0@),
    ensures
        first_validator(es, i) is None,
    decreases es.len() - i,
{
    if i < es.len() {
        law_no_validator_is_found(es, i + 1);
    }
}

/// The user is the first word behind `Uid:` in the first line that has one; it must be a
/// number of 32 bits.
pub proof fn law_user_is_behind_the_uid(pid: u32, t: Seq<char>, at: int, rest: Seq<char>)
    requires
        0 <= at < lines_of(t).len(),
        lines_of(t)[at] == "Uid:"@ + rest,
        words_of(rest).len() > 0,
        forall|k: int| 0 <= k < at ==> !has_prefix(#[trigger] lines_of(t)[k], "Uid:"@),
    ensures
        match uint_value(words_of(rest)[0], 10, u32::MAX as int) {
            Ok(v) => uid_value(pid, Ok::<Seq<char>, Seq<char>>(t)) == Ok::<u32, Seq<char>>(v as u32)
                && v as u32 == v,
            Err(_) => uid_value(pid, Ok::<Seq<char>, Seq<char>>(t)) is Err,
        },
{
    let ls = lines_of(t);
    let p = "Uid:"@;
    assert(ls[at].subrange(0, p.len() as int) =~= p);
    assert(ls[at].subrange(p.len() as int, ls[at].len() as int) =~= rest);
    lemma_first_uid(ls, 0, at);
    lemma_uint_bound(words_of(rest)[0], 10, u32::MAX as int);
}

proof fn lemma_first_uid(ls: Seq<Seq<char>>, i: int, at: int)
    requires
        0 <= i <= at < ls.len(),
        uid_word(ls[at]) is Some,
        forall|k: int| i <= k < at ==> !has_prefix(#[trigger] ls[k], "Uid:"@),
    ensures
        first_uid(ls, i) == uid_word(ls[at]),
    decreases at - i,
{
    if i < at {
        lemma_first_uid(ls, i + 1, at);
    }
}

/// A line of the contact information is a label, a colon, an address, a colon and a port,
/// and reads back as the port and the role of the label. The ports 0 and 1 have no role.
pub proof fn law_contact_line_reads_back(label: Seq<char>, host: Seq<char>, port: u16)
    requires
        label.len() > 0 && !is_space(label[0]) && !is_space(label.last()),
        !label.contains(':'),
        host.len() > 0 && !is_space(host[0]),
    ensures
        port > 1 ==> contact_role(label + ": "@ + host + ":"@ + decimal(port as nat)) == Some(
            (port, role_text(label)),
        ),
        port <= 1 ==> contact_role(label + ": "@ + host + ":"@ + decimal(port as nat)) is None,
        contact_role(label) is None,
{
    reveal_strlit(": ");
    reveal_strlit(":");
    let d = decimal(port as nat);
    let line = label + ": "@ + host + ":"@ + d;
    let n = label.len() as int;
    assert(line[n] == ':');
    assert forall|k: int| 0 <= k < n implies line[k] != ':' by {
        assert(line[k] == label[k]);
        assert(label.contains(label[k]));
    }
    lemma_position_at(line, ':', 0, n);
    assert(line.subrange(0, n) =~= label);
    lemma_trim_keeps(label);
    let value = line.subrange(n + 1, line.len() as int);
    let body = host + ":"@ + d;
    assert(value =~= seq![' '] + body);
    lemma_decimal_chars(port as nat);
    lemma_trim_one_space(body);
    assert(body =~= host.push(':') + d);
    assert(!d.contains(':')) by {
        if d.contains(':') {
            let k = d.index_of(':');
            assert(d[k] == ':');
        }
    }
    law_last_cut_is_at_the_last(body, ':');
    lemma_last_cut(host, d);
    law_decimal_reads_back(port as nat, u16::MAX as int);
    law_first_cut_is_at_the_first(label, ':');
}

proof fn lemma_trim_one_space(s: Seq<char>)
    requires
        s.len() > 0,
        !is_space(s[0]),
        !is_space(s.last()),
    ensures
        trimmed(seq![' '] + s) == s,
{
    let t = seq![' '] + s;
    assert(is_space(t[0]));
    assert(t[1] == s[0]);
    assert(space_end(t, 0) == space_end(t, 1));
    assert(space_end(t, 1) == 1);
    assert(t.last() == s.last());
    assert(t.subrange(1, t.len() as int) =~= s);
}

proof fn lemma_last_cut(a: Seq<char>, b: Seq<char>)
    requires
        !b.contains(':'),
    ensures
        cut_last(a.push(':') + b, ':') == Some((a, b)),
{
    let s = a.push(':') + b;
    law_last_cut_is_at_the_last(s, ':');
    assert(s[a.len() as int] == ':');
    assert(s.contains(s[a.len() as int]));
    let (x, y) = cut_last(s, ':').unwrap();
    assert(s == x.push(':') + y);
    if x.len() < a.len() {
        let k = a.len() - x.len() - 1;
        assert(y[k] == s[a.len() as int]);
        assert(y.contains(y[k]));
    }
    if x.len() > a.len() {
        let k = x.len() - a.len() - 1;
        assert(b[k] == s[x.len() as int]);
        assert(s[x.len() as int] == ':');
        assert(b.contains(b[k]));
    }
    assert(x =~= s.subrange(0, a.len() as int));
    assert(a =~= s.subrange(0, a.len() as int));
    assert(y =~= s.subrange(a.len() as int + 1, s.len() as int));
    assert(b =~= s.subrange(a.len() as int + 1, s.len() as int));
}

/// A role is its label in lower case with underscores for spaces, whether the label is
/// known or not; but the votes of the TPU go by the singular.
pub proof fn law_role_is_the_label_in_lower_case(label: Seq<char>)
    ensures
        label != "TPU Votes"@ && label != "TPU Votes QUIC"@ ==> role_text(label) == underscored(
            lowered(label),
        ),
        role_text("TPU Votes"@) == "tpu_vote"@,
        role_text("TPU Votes QUIC"@) == "tpu_vote_quic"@,
{
    reveal_strlit("Gossip");
    reveal_strlit("gossip");
    reveal_strlit("TVU");
    reveal_strlit("tvu");
    reveal_strlit("TVU QUIC");
    reveal_strlit("tvu_quic");
    reveal_strlit("TPU");
    reveal_strlit("tpu");
    reveal_strlit("TPU QUIC");
    reveal_strlit("tpu_quic");
    reveal_strlit("TPU Forwards");
    reveal_strlit("tpu_forwards");
    reveal_strlit("TPU Forwards QUIC");
    reveal_strlit("tpu_forwards_quic");
    reveal_strlit("Serve Repair");
    reveal_strlit("serve_repair");
    reveal_strlit("Serve Repair QUIC");
    reveal_strlit("serve_repair_quic");
    reveal_strlit("Repair");
    reveal_strlit("repair");
    reveal_strlit("RPC");
    reveal_strlit("rpc");
    reveal_strlit("RPC Pubsub");
    reveal_strlit("rpc_pubsub");
    reveal_strlit("TPU Votes");
    reveal_strlit("TPU Votes QUIC");
    assert(underscored(lowered("Gossip"@)) =~= "gossip"@);
    assert(underscored(lowered("TVU"@)) =~= "tvu"@);
    assert(underscored(lowered("TVU QUIC"@)) =~= "tvu_quic"@);
    assert(underscored(lowered("TPU"@)) =~= "tpu"@);
    assert(underscored(lowered("TPU QUIC"@)) =~= "tpu_quic"@);
    assert(underscored(lowered("TPU Forwards"@)) =~= "tpu_forwards"@);
    assert(underscored(lowered("TPU Forwards QUIC"@)) =~= "tpu_forwards_quic"@);
    assert(underscored(lowered("Serve Repair"@)) =~= "serve_repair"@);
    assert(underscored(lowered("Serve Repair QUIC"@)) =~= "serve_repair_quic"@);
    assert(underscored(lowered("Repair"@)) =~= "repair"@);
    assert(underscored(lowered("RPC"@)) =~= "rpc"@);
    assert(underscored(lowered("RPC Pubsub"@)) =~= "rpc_pubsub"@);
    lemma_vote_labels();
}

proof fn lemma_vote_labels()
    ensures
        known_role("TPU Votes"@) == Some("tpu_vote"@),
        known_role("TPU Votes QUIC"@) == Some("tpu_vote_quic"@),
{
    reveal_strlit("Gossip");
    reveal_strlit("TVU");
    reveal_strlit("TVU QUIC");
    reveal_strlit("TPU");
    reveal_strlit("TPU QUIC");
    reveal_strlit("TPU Forwards");
    reveal_strlit("TPU Forwards QUIC");
    reveal_strlit("Serve Repair");
    reveal_strlit("Serve Repair QUIC");
    reveal_strlit("Repair");
    reveal_strlit("RPC");
    reveal_strlit("RPC Pubsub");
    reveal_strlit("TPU Votes");
    reveal_strlit("TPU Votes QUIC");
    let a = "TPU Votes"@;
    let b = "TPU Votes QUIC"@;
    assert(a.len() == 9 && b.len() == 14);
    assert("Gossip"@.len() == 6);
    assert("TVU"@.len() == 3);
    assert("TVU QUIC"@.len() == 8);
    assert("TPU"@.len() == 3);
    assert("TPU QUIC"@.len() == 8);
    assert("TPU Forwards"@.len() == 12);
    assert("TPU Forwards QUIC"@.len() == 17);
    assert("Serve Repair"@.len() == 12);
    assert("Serve Repair QUIC"@.len() == 17);
    assert("Repair"@.len() == 6);
    assert("RPC"@.len() == 3);
    assert("RPC Pubsub"@.len() == 10);
}

/// One more line adds the role of its port, in place of an earlier one, if it has one.
pub proof fn law_one_more_contact_line(ls: Seq<Seq<char>>, n: int)
    requires
        0 <= n,
    ensures
        contact_roles(ls, 0).dom().is_empty(),
        contact_role(ls[n]) matches Some((port, role)) ==> contact_roles(ls, n + 1)
            == contact_roles(ls, n).insert(port, role),
        contact_role(ls[n]) is None ==> contact_roles(ls, n + 1) == contact_roles(ls, n),
{
}

/// The roles are those that the command printed, if and only if it succeeded; else the
/// error names the program and shows what went wrong.
pub proof fn law_roles_are_what_the_command_printed(bin: Seq<char>, o: CommandOutput, e: String)
    ensures
        o.success ==> roles_value(bin, Ok(o)) == Ok::<Map<u16, Seq<char>>, Seq<char>>(
            contact_value(decoded(o.stdout@)),
        ),
        !o.success ==> (roles_value(bin, Ok(o)) matches Err(m) && has_prefix(m, bin) && labelled(
            m,
            " stderr: "@,
            trimmed(decoded(o.stderr@)),
            " stdout: "@,
        ) && labelled(m, " contact-info: "@, o.status@, " stderr: "@) && labelled(
            m,
            " stdout: "@,
            trimmed(decoded(o.stdout@)),
            Seq::empty(),
        )),
        roles_value(bin, Err(e)) matches Err(m) && has_prefix(m, bin) && labelled(
            m,
            " contact-info: "@,
            e@,
            Seq::empty(),
        ),
{
    let none = Seq::<char>::empty();
    let c = " contact-info: "@;
    let m = bin + c + e@;
    assert(m.subrange(0, bin.len() as int) =~= bin);
    assert(m =~= bin + (c + e@ + none) + none);
    lemma_occurs(m, bin, c + e@ + none, none);
    let st = o.status@;
    let er = trimmed(decoded(o.stderr@));
    let so = trimmed(decoded(o.stdout@));
    let f = bin + c + st + " stderr: "@ + er + " stdout: "@ + so;
    assert(f.subrange(0, bin.len() as int) =~= bin);
    assert(f =~= bin + (c + st + (" stderr: "@ + er + (" stdout: "@ + so + none))));
    let a = lemma_label(f, bin, c, st, " stderr: "@, er, " stdout: "@ + so + none);
    let b = lemma_label(f, a, " stderr: "@, er, " stdout: "@, so, none);
    assert(f =~= b + (" stdout: "@ + so + none) + none);
    lemma_occurs(f, b, " stdout: "@ + so + none, none);
}

/// The program of a process is what its link reads; where that fails or is no text the
/// error names the link.
pub proof fn law_program_is_what_the_link_reads(pid: u32, p: String, e: String)
    ensures
        bin_value(pid, Ok(Some(p))) == Ok::<Seq<char>, Seq<char>>(p@),
        bin_value(pid, Ok(None)) is Err,
        bin_value(pid, Err(e)) matches Err(m) && has_prefix(
            m,
            "/proc/"@ + decimal(pid as nat) + "/exe"@,
        ) && labelled(m, ": "@, e@, Seq::empty()),
{
    reveal_strlit("/exe");
    reveal_strlit("/");
    reveal_strlit("exe");
    assert("/exe"@ =~= "/"@ + "exe"@);
    let path = "/proc/"@ + decimal(pid as nat) + "/exe"@;
    let none = Seq::<char>::empty();
    assert(proc_path(pid, "exe"@) =~= path);
    let m = path + ": "@ + e@;
    assert(m.subrange(0, path.len() as int) =~= path);
    assert(m =~= path + (": "@ + e@ + none) + none);
    lemma_occurs(m, path, ": "@ + e@ + none, none);
}

}
