//! Command dispatch: one request line in, one mutation plus decay tick, one
//! status payload out.
//!
//! A request line is trimmed of surrounding whitespace and must then be one
//! of the single bytes `F`, `P` or `Q`. A recognized command mutates the
//! creature, always advances time by one tick, and yields the status line of
//! the state just produced; anything else leaves the creature alone and
//! yields no payload.

use vstd::prelude::*;
use vstd::slice::slice_subrange;

use crate::codec::spec_status;
use crate::tamo::{spec_feed, spec_is_dead, spec_play, spec_quench, spec_time_pass, Tamo};

verus! {

/// The three recognized commands.
#[derive(Clone, Copy, Debug, PartialEq, Eq, Structural)]
pub enum Command {
    Feed,
    Quench,
    Play,
}

/// The command a trimmed request maps to, if any.
pub open spec fn spec_command_of(req: Seq<u8>) -> Option<Command> {
    if req.len() == 1 {
        if req[0] == 70 {
            Option::Some(Command::Feed)
        } else if req[0] == 80 {
            Option::Some(Command::Play)
        } else if req[0] == 81 {
            Option::Some(Command::Quench)
        } else {
            Option::None
        }
    } else {
        Option::None
    }
}

/// Map a trimmed request to its command.
pub fn process_request_string(request_contents: &[u8]) -> (r: Option<Command>)
    ensures
        r == spec_command_of(request_contents@),
{
    if request_contents.len() == 1 {
        let b = request_contents[0];
        if b == 70 {
            Option::Some(Command::Feed)
        } else if b == 80 {
            Option::Some(Command::Play)
        } else if b == 81 {
            Option::Some(Command::Quench)
        } else {
            Option::None
        }
    } else {
        Option::None
    }
}

/// The mutation a command performs, before the decay tick.
pub open spec fn spec_apply(t: Tamo, c: Command) -> Tamo {
    match c {
        Command::Feed => spec_feed(t),
        Command::Quench => spec_quench(t),
        Command::Play => spec_play(t),
    }
}

/// One full command cycle: the mutation, then one decay tick.
pub open spec fn spec_step(t: Tamo, c: Command) -> Tamo {
    spec_time_pass(spec_apply(t, c))
}

/// Apply one command followed by the mandatory decay tick.
pub fn apply_command(t: &mut Tamo, cmd: Command)
    ensures
        *final(t) == spec_step(*old(t), cmd),
{
    match cmd {
        Command::Feed => t.feed(),
        Command::Quench => t.quench(),
        Command::Play => t.play(),
    }
    t.time_pass();
}

/// The whitespace bytes stripped from request ends.
pub open spec fn spec_is_ws_byte(b: u8) -> bool {
    b == 32 || b == 9 || b == 13 || b == 10
}

/// Length of the leading run of whitespace bytes.
pub open spec fn spec_ws_prefix_len_bytes(s: Seq<u8>) -> int
    decreases s.len(),
{
    if s.len() > 0 && spec_is_ws_byte(s[0]) {
        1 + spec_ws_prefix_len_bytes(s.skip(1))
    } else {
        0
    }
}

/// Length of the trailing run of whitespace bytes.
pub open spec fn spec_ws_suffix_len_bytes(s: Seq<u8>) -> int
    decreases s.len(),
{
    if s.len() > 0 && spec_is_ws_byte(s[s.len() - 1]) {
        1 + spec_ws_suffix_len_bytes(s.drop_last())
    } else {
        0
    }
}

/// Both ends stripped of whitespace bytes.
pub open spec fn spec_trim_bytes(s: Seq<u8>) -> Seq<u8> {
    if spec_ws_prefix_len_bytes(s) == s.len() {
        Seq::empty()
    } else {
        s.subrange(spec_ws_prefix_len_bytes(s), s.len() - spec_ws_suffix_len_bytes(s))
    }
}

/// The leading whitespace-byte run is exactly the run observed by a scan.
pub proof fn lemma_ws_prefix_len_bytes_is(s: Seq<u8>, k: int)
    requires
        0 <= k <= s.len(),
        forall|i: int| 0 <= i < k ==> spec_is_ws_byte(#[trigger] s[i]),
        k < s.len() ==> !spec_is_ws_byte(s[k]),
    ensures
        spec_ws_prefix_len_bytes(s) == k,
    decreases s.len(),
{
    if k == 0 {
        if s.len() > 0 {
            assert(!spec_is_ws_byte(s[0]));
        }
    } else {
        assert(spec_is_ws_byte(s[0]));
        assert forall|i: int| 0 <= i < k - 1 implies spec_is_ws_byte(#[trigger] s.skip(1)[i]) by {
            assert(s.skip(1)[i] == s[i + 1]);
        }
        if k - 1 < s.skip(1).len() {
            assert(s.skip(1)[k - 1] == s[k]);
        }
        lemma_ws_prefix_len_bytes_is(s.skip(1), k - 1);
    }
}

/// The trailing whitespace-byte run is exactly the run observed by a scan.
pub proof fn lemma_ws_suffix_len_bytes_is(s: Seq<u8>, k: int)
    requires
        0 <= k <= s.len(),
        forall|i: int| s.len() - k <= i < s.len() ==> spec_is_ws_byte(#[trigger] s[i]),
        k < s.len() ==> !spec_is_ws_byte(s[s.len() - k - 1]),
    ensures
        spec_ws_suffix_len_bytes(s) == k,
    decreases s.len(),
{
    if k == 0 {
        if s.len() > 0 {
            assert(!spec_is_ws_byte(s[s.len() - 1]));
        }
    } else {
        assert(spec_is_ws_byte(s[s.len() - 1]));
        assert forall|i: int| s.drop_last().len() - (k - 1) <= i < s.drop_last().len() implies
            spec_is_ws_byte(#[trigger] s.drop_last()[i]) by {
            assert(s.drop_last()[i] == s[i]);
        }
        if k - 1 < s.drop_last().len() {
            assert(s.drop_last()[s.drop_last().len() - k] == s[s.len() - k - 1]);
        }
        lemma_ws_suffix_len_bytes_is(s.drop_last(), k - 1);
    }
}

/// Whitespace test on a byte.
pub fn is_ws_byte(b: u8) -> (r: bool)
    ensures
        r == spec_is_ws_byte(b),
{
    b == 32 || b == 9 || b == 13 || b == 10
}

/// The whitespace-trimmed middle of a request line.
pub fn trim_bytes<'a>(line: &'a [u8]) -> (r: &'a [u8])
    ensures
        r@ == spec_trim_bytes(line@),
{
    let ghost s = line@;
    let n = line.len();
    let mut a: usize = 0;
    while a < n
        invariant
            0 <= a <= n,
            n == line@.len(),
            s == line@,
            forall|k: int| 0 <= k < a ==> spec_is_ws_byte(#[trigger] s[k]),
        ensures
            0 <= a <= n,
            forall|k: int| 0 <= k < a ==> spec_is_ws_byte(#[trigger] s[k]),
            a < n ==> !spec_is_ws_byte(s[a as int]),
        decreases n - a,
    {
        if !is_ws_byte(line[a]) {
            break;
        }
        a = a + 1;
    }
    if a == n {
        proof {
            lemma_ws_prefix_len_bytes_is(s, n as int);
            assert(spec_trim_bytes(s) =~= s.subrange(n as int, n as int));
        }
        return slice_subrange(line, n, n);
    }
    proof {
        lemma_ws_prefix_len_bytes_is(s, a as int);
    }
    let mut b: usize = n;
    while b > a
        invariant
            a <= b <= n,
            n == line@.len(),
            s == line@,
            a < n,
            !spec_is_ws_byte(s[a as int]),
            forall|k: int| b <= k < n ==> spec_is_ws_byte(#[trigger] s[k]),
        ensures
            a < b <= n,
            forall|k: int| b <= k < n ==> spec_is_ws_byte(#[trigger] s[k]),
            !spec_is_ws_byte(s[b - 1]),
        decreases b,
    {
        if !is_ws_byte(line[b - 1]) {
            break;
        }
        proof {
            if b - 1 == a {
                assert(false);
            }
        }
        b = b - 1;
    }
    proof {
        lemma_ws_suffix_len_bytes_is(s, n - b);
    }
    slice_subrange(line, a, b)
}

/// The creature state after one request line is handled.
pub open spec fn spec_post(t: Tamo, line: Seq<u8>) -> Tamo {
    match spec_command_of(spec_trim_bytes(line)) {
        Option::Some(c) => spec_step(t, c),
        Option::None => t,
    }
}

/// The status payload a request line produces: the status of the state the
/// command just brought about, or nothing for an unrecognized line.
pub open spec fn spec_response(t: Tamo, line: Seq<u8>) -> Option<Seq<char>> {
    match spec_command_of(spec_trim_bytes(line)) {
        Option::Some(c) => Option::Some(spec_status(spec_step(t, c))),
        Option::None => Option::None,
    }
}

/// Handle one request line: trim it, dispatch the command, apply it with its
/// decay tick, and produce the status payload of the resulting state. An
/// unrecognized line mutates nothing and yields no payload.
pub fn handle_request_line(t: &mut Tamo, line: &[u8]) -> (status: Option<String>)
    ensures
        *final(t) == spec_post(*old(t), line@),
        match status {
            Option::Some(s) => spec_response(*old(t), line@) == Option::Some(s@),
            Option::None => spec_response(*old(t), line@) is None,
        },
{
    let req = trim_bytes(line);
    match process_request_string(req) {
        Option::Some(cmd) => {
            apply_command(t, cmd);
            Option::Some(t.status_string())
        },
        Option::None => Option::None,
    }
}

/// One background tick: advance time, and report whether the creature is
/// still alive and the ticker should persist and continue.
pub fn ticker_step(t: &mut Tamo) -> (alive: bool)
    ensures
        *final(t) == spec_time_pass(*old(t)),
        alive == !spec_is_dead(*final(t)),
{
    t.time_pass();
    let dead = t.test_dead();
    !dead
}

} // verus!
