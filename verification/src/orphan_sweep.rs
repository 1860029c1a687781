//! Sweeping away players that a daemon left behind when it died hard.
//!
//! A leftover player names this daemon's own socket among its arguments but
//! does not belong to this daemon's control group. Players of another
//! daemon, with a socket of its own, are left alone.

use vstd::prelude::*;
use vstd::utf8::encode_utf8;

use crate::text::{
    chars_of, concat2, decimal_text, lemma_decimal_round_trip, parse_u64, parsed_u64, string_of,
    trimmed_end,
};

verus! {

/// Whether `arg` stands in a command line as a whole argument at a place:
/// arguments are separated by NUL bytes.
pub open spec fn argument_at(cmdline: Seq<u8>, arg: Seq<u8>, i: int) -> bool {
    &&& 0 <= i
    &&& i + arg.len() <= cmdline.len()
    &&& cmdline.subrange(i, i + arg.len()) == arg
    &&& i == 0 || cmdline[i - 1] == 0
    &&& i + arg.len() == cmdline.len() || cmdline[i + arg.len()] == 0
}

/// Whether `arg` is one of the arguments of a command line. No argument
/// holds a NUL byte.
pub open spec fn has_argument(cmdline: Seq<u8>, arg: Seq<u8>) -> bool {
    !arg.contains(0u8) && exists|i: int| argument_at(cmdline, arg, i)
}

fn holds_nul(bytes: &[u8]) -> (r: bool)
    ensures
        r == bytes@.contains(0u8),
{
    let mut i: usize = 0;
    while i < bytes.len()
        invariant
            i <= bytes@.len(),
            forall|k: int| 0 <= k < i ==> #[trigger] bytes@[k] != 0,
        decreases bytes@.len() - i,
    {
        if bytes[i] == 0 {
            assert(bytes@[i as int] == 0u8);
            return true;
        }
        i += 1;
    }
    false
}

/// Whether `arg` stands as a whole argument at a place.
fn stands_at(cmdline: &[u8], arg: &[u8], at: usize) -> (r: bool)
    ensures
        r == argument_at(cmdline@, arg@, at as int),
{
    let n: usize = arg.len();
    let len: usize = cmdline.len();
    if at > len || n > len - at {
        return false;
    }
    if at > 0 && cmdline[at - 1] != 0 {
        return false;
    }
    if at + n < len && cmdline[at + n] != 0 {
        return false;
    }
    let mut i: usize = 0;
    while i < n
        invariant
            i <= n,
            n == arg@.len(),
            len == cmdline@.len(),
            at + n <= len,
            forall|k: int| 0 <= k < i ==> #[trigger] arg@[k] == cmdline@[at + k],
        decreases n - i,
    {
        if cmdline[at + i] != arg[i] {
            assert(cmdline@.subrange(at as int, at + n)[i as int] != arg@[i as int]);
            return false;
        }
        i += 1;
    }
    assert(cmdline@.subrange(at as int, at + n) =~= arg@);
    true
}

fn is_argument(cmdline: &[u8], arg: &[u8]) -> (r: bool)
    ensures
        r == has_argument(cmdline@, arg@),
{
    if holds_nul(arg) {
        return false;
    }
    let mut at: usize = 0;
    while at < cmdline.len()
        invariant
            at <= cmdline@.len(),
            !arg@.contains(0u8),
            forall|k: int| 0 <= k < at ==> !argument_at(cmdline@, arg@, k),
        decreases cmdline@.len() - at,
    {
        if stands_at(cmdline, arg, at) {
            return true;
        }
        at += 1;
    }
    let last: bool = stands_at(cmdline, arg, at);
    assert(forall|k: int| argument_at(cmdline@, arg@, k) ==> 0 <= k <= at);
    last
}

/// Whether a process is a leftover player: one of its arguments is exactly
/// the one that names this daemon's socket, but it belongs to another
/// control group.
pub open spec fn is_orphan(
    cmdline: Seq<u8>,
    cgroup: Seq<char>,
    own: Seq<char>,
    ipc_arg: Seq<char>,
) -> bool {
    has_argument(cmdline, encode_utf8(ipc_arg)) && cgroup != own
}

/// Whether a process is a leftover player. The whole argument counts: a
/// part of one, or the socket's name alone, would catch strangers and other
/// daemons' players.
pub fn is_tmus_mpv_orphan(cmdline: &[u8], cgroup: &str, own: &str, ipc_arg: &str) -> (r: bool)
    requires
        ipc_arg@.len() > 0,
    ensures
        r == is_orphan(cmdline@, cgroup@, own@, ipc_arg@),
{
    is_argument(cmdline, ipc_arg.as_bytes()) && !cgroup.eq(own)
}

/// The argument that names a socket.
pub open spec fn socket_argument(socket: Seq<char>) -> Seq<char> {
    "--input-ipc-server="@ + socket
}

fn trim_end(s: &str) -> (r: String)
    ensures
        r@ == trimmed_end(s@),
{
    let chars = chars_of(s);
    let mut n: usize = chars.len();
    assert(s@.subrange(0, n as int) =~= s@);
    while n > 0 && chars[n - 1].is_whitespace()
        invariant
            n <= chars@.len(),
            chars@ == s@,
            trimmed_end(s@) == trimmed_end(s@.subrange(0, n as int)),
        decreases n,
    {
        assert(s@.subrange(0, n as int).drop_last() =~= s@.subrange(0, n - 1));
        n -= 1;
    }
    string_of(&chars, 0, n)
}

/// The number of a process, where the name of its directory is one.
pub open spec fn pid_of(name: Seq<char>) -> Option<u32> {
    match parsed_u64(name) {
        Some(n) => if n <= u32::MAX {
            Some(n as u32)
        } else {
            None
        },
        None => None,
    }
}

/// The number of a process, where the name of its directory is one.
pub fn parse_pid(name: &str) -> (r: Option<u32>)
    ensures
        r == pid_of(name@),
{
    match parse_u64(name) {
        Some(n) => if n <= 0xffff_ffff {
            Some(n as u32)
        } else {
            None
        },
        None => None,
    }
}

/// A process, as it was found.
#[derive(Debug, PartialEq, Eq)]
pub struct ProcessEntry {
    pub pid: u32,
    pub cmdline: Vec<u8>,
    pub cgroup: String,
}

/// Whether a process is to be swept away.
pub open spec fn to_sweep(p: ProcessEntry, own: Seq<char>, socket: Seq<char>) -> bool {
    is_orphan(p.cmdline@, trimmed_end(p.cgroup@), trimmed_end(own), socket_argument(socket))
}

/// The numbers of the processes to be swept away, in their order.
pub open spec fn swept(
    processes: Seq<ProcessEntry>,
    own: Seq<char>,
    socket: Seq<char>,
) -> Seq<u32>
    decreases processes.len(),
{
    if processes.len() == 0 {
        Seq::empty()
    } else {
        let before = swept(processes.drop_last(), own, socket);
        if to_sweep(processes.last(), own, socket) {
            before.push(processes.last().pid)
        } else {
            before
        }
    }
}

/// The processes to be swept away. `own_cgroup` is this daemon's control
/// group, `socket` its player's socket.
pub fn orphans(processes: &Vec<ProcessEntry>, own_cgroup: &str, socket: &str) -> (r: Vec<u32>)
    ensures
        r@ == swept(processes@, own_cgroup@, socket@),
{
    let own = trim_end(own_cgroup);
    let ipc_arg = concat2("--input-ipc-server=", socket);
    proof {
        reveal_strlit("--input-ipc-server=");
    }
    let mut out: Vec<u32> = Vec::new();
    let mut i: usize = 0;
    assert(processes@.subrange(0, 0) =~= Seq::empty());
    while i < processes.len()
        invariant
            i <= processes@.len(),
            own@ == trimmed_end(own_cgroup@),
            ipc_arg@ == socket_argument(socket@),
            ipc_arg@.len() > 0,
            out@ == swept(processes@.subrange(0, i as int), own_cgroup@, socket@),
        decreases processes@.len() - i,
    {
        assert(processes@.subrange(0, i + 1).drop_last() =~= processes@.subrange(0, i as int));
        let cgroup = trim_end(processes[i].cgroup.as_str());
        if is_tmus_mpv_orphan(
            processes[i].cmdline.as_slice(),
            cgroup.as_str(),
            own.as_str(),
            ipc_arg.as_str(),
        ) {
            out.push(processes[i].pid);
        }
        i += 1;
    }
    assert(processes@.subrange(0, i as int) =~= processes@);
    out
}

/// The daemon's own children, which share its control group, are never
/// swept away.
pub proof fn lemma_own_children_are_safe(p: ProcessEntry, own: Seq<char>, socket: Seq<char>)
    requires
        trimmed_end(p.cgroup@) == trimmed_end(own),
    ensures
        !to_sweep(p, own, socket),
{
}

/// A process that was not given this daemon's socket is never swept away,
/// whatever its arguments hold or begin with.
pub proof fn lemma_strangers_are_safe(p: ProcessEntry, own: Seq<char>, socket: Seq<char>)
    requires
        forall|i: int|
            !#[trigger] argument_at(p.cmdline@, encode_utf8(socket_argument(socket)), i),
    ensures
        !to_sweep(p, own, socket),
{
}

/// Arguments as the system shows them: a NUL byte behind each.
pub open spec fn command_line(args: Seq<Seq<u8>>) -> Seq<u8>
    decreases args.len(),
{
    if args.len() == 0 {
        Seq::empty()
    } else {
        command_line(args.drop_last()) + args.last().push(0u8)
    }
}

/// A command line has exactly the arguments that it was made of, as wholes.
pub proof fn lemma_only_whole_arguments_count(args: Seq<Seq<u8>>, arg: Seq<u8>)
    requires
        forall|k: int| 0 <= k < args.len() ==> !(#[trigger] args[k]).contains(0u8),
        arg.len() > 0,
        !arg.contains(0u8),
    ensures
        has_argument(command_line(args), arg) == args.contains(arg),
    decreases args.len(),
{
    if args.len() > 0 {
        let before = args.drop_last();
        let head = command_line(before);
        let last = args.last();
        let line = command_line(args);
        lemma_only_whole_arguments_count(before, arg);
        lemma_line_ends_in_nul(before);
        assert(line == head + last.push(0u8));
        assert(!last.contains(0u8));
        assert forall|i: int| #[trigger] argument_at(line, arg, i) implies args.contains(arg) by {
            let end = i + arg.len();
            assert(forall|k: int| 0 <= k < arg.len() ==> line[i + k] == arg[k]) by {
                assert forall|k: int| 0 <= k < arg.len() implies line[i + k] == arg[k] by {
                    assert(line.subrange(i, end)[k] == arg[k]);
                }
            }
            if end < head.len() {
                assert(head.subrange(i, end) =~= arg);
                assert(argument_at(head, arg, i));
                assert(before.contains(arg));
                let k = before.index_of(arg);
                assert(args[k] == arg);
            } else if i < head.len() {
                assert(line[head.len() - 1] == 0);
                assert(arg[head.len() - 1 - i] == 0);
            } else {
                if i > head.len() {
                    assert(line[i - 1] == last.push(0u8)[i - 1 - head.len()]);
                    assert(i - 1 - head.len() < last.len());
                    assert(last[i - 1 - head.len()] == 0);
                }
                if end == line.len() {
                    assert(line[end - 1] == 0);
                    assert(arg[arg.len() - 1] == 0);
                }
                assert(line[end] == last.push(0u8)[end - head.len()]);
                if end - head.len() < last.len() {
                    assert(last[end - head.len()] == 0);
                }
                assert(last =~= arg) by {
                    assert forall|k: int| 0 <= k < last.len() implies last[k] == arg[k] by {
                        assert(line[i + k] == last.push(0u8)[k]);
                    }
                }
                assert(args[args.len() - 1] == arg);
            }
        }
        if args.contains(arg) {
            let k = args.index_of(arg);
            if k < before.len() {
                assert(before[k] == arg);
                let i = choose|i: int| argument_at(head, arg, i);
                assert(line.subrange(i, i + arg.len()) =~= arg);
                if i + arg.len() == head.len() {
                    assert(head.subrange(i, i + arg.len())[arg.len() - 1] == head.last());
                    assert(arg[arg.len() - 1] == 0);
                }
                assert(argument_at(line, arg, i));
            } else {
                assert(line.subrange(head.len() as int, (head.len() + arg.len()) as int) =~= arg);
                assert(argument_at(line, arg, head.len() as int));
            }
        }
    } else {
        assert(!args.contains(arg));
    }
}

proof fn lemma_line_ends_in_nul(args: Seq<Seq<u8>>)
    ensures
        command_line(args).len() > 0 ==> command_line(args).last() == 0,
{
}

/// The processes that are swept away are those that are leftover players,
/// by their numbers and in their order: a player that was started with this
/// daemon's socket and belongs to another control group is one.
pub proof fn lemma_leftover_players_are_swept(
    processes: Seq<ProcessEntry>,
    own: Seq<char>,
    socket: Seq<char>,
    p: ProcessEntry,
    args: Seq<Seq<u8>>,
)
    requires
        forall|k: int| 0 <= k < args.len() ==> !(#[trigger] args[k]).contains(0u8),
    ensures
        swept(processes, own, socket) == processes.filter_map(
            |p: ProcessEntry|
                if to_sweep(p, own, socket) {
                    Some(p.pid)
                } else {
                    None
                },
        ),
        p.cmdline@ == command_line(args) && args.contains(
            encode_utf8("--input-ipc-server="@ + socket),
        ) && encode_utf8("--input-ipc-server="@ + socket).len() > 0 && trimmed_end(p.cgroup@)
            != trimmed_end(own) ==> to_sweep(p, own, socket),
    decreases processes.len(),
{
    if processes.len() > 0 {
        let rest = processes.drop_last();
        lemma_leftover_players_are_swept(rest, own, socket, p, args);
        let pick = |p: ProcessEntry|
            if to_sweep(p, own, socket) {
                Some(p.pid)
            } else {
                None
            };
        assert(swept(processes, own, socket) =~= processes.filter_map(pick));
    } else {
        assert(swept(processes, own, socket) =~= Seq::empty());
    }
    let arg = encode_utf8("--input-ipc-server="@ + socket);
    if args.contains(arg) && arg.len() > 0 {
        let k = args.index_of(arg);
        assert(args[k] == arg);
        lemma_only_whole_arguments_count(args, arg);
    }
}

/// The directory of a process is named by its number.
pub proof fn lemma_processes_are_named_by_numbers(n: u64)
    ensures
        n <= u32::MAX ==> pid_of(decimal_text(n as nat)) == Some(n as u32),
        n > u32::MAX ==> pid_of(decimal_text(n as nat)) is None,
{
    lemma_decimal_round_trip(n);
}

} // verus!
