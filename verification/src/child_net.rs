//! The network filter of child processes: a small program that the kernel runs
//! on every system call.
use vstd::prelude::*;

verus! {

/// The system calls that a filter can block.
#[derive(Clone, Copy, Debug, PartialEq, Eq, Structural)]
pub enum NetSyscall {
    Connect,
    Bind,
    Sendto,
    Sendmsg,
    Listen,
    Accept,
    Accept4,
}

/// What a child may not do on the network.
#[derive(Clone, Copy, Debug, PartialEq, Eq, Structural)]
pub enum ChildFilter {
    /// Neither connect nor listen.
    All,
    /// Listen. Connecting stays possible, so that a proxy can be reached.
    Server,
}

/// The system calls that a filter blocks.
pub open spec fn blocked_calls(filter: ChildFilter) -> Seq<NetSyscall> {
    match filter {
        ChildFilter::All => seq![
            NetSyscall::Connect,
            NetSyscall::Bind,
            NetSyscall::Sendto,
            NetSyscall::Sendmsg,
            NetSyscall::Listen,
            NetSyscall::Accept,
            NetSyscall::Accept4,
        ],
        ChildFilter::Server => seq![
            NetSyscall::Bind,
            NetSyscall::Listen,
            NetSyscall::Accept,
            NetSyscall::Accept4,
        ],
    }
}

/// The system calls that the filter blocks.
pub fn blocked_syscalls(filter: ChildFilter) -> (r: Vec<NetSyscall>)
    ensures
        r@ == blocked_calls(filter),
{
    let mut v: Vec<NetSyscall> = Vec::new();
    match filter {
        ChildFilter::All => {
            v.push(NetSyscall::Connect);
            v.push(NetSyscall::Bind);
            v.push(NetSyscall::Sendto);
            v.push(NetSyscall::Sendmsg);
        },
        ChildFilter::Server => {
            v.push(NetSyscall::Bind);
        },
    }
    v.push(NetSyscall::Listen);
    v.push(NetSyscall::Accept);
    v.push(NetSyscall::Accept4);
    assert(v@ =~= blocked_calls(filter));
    v
}

/// One instruction of a filter program.
#[derive(Clone, Copy, Debug, PartialEq, Eq, Structural)]
pub struct Instruction {
    pub code: u16,
    /// How many instructions to skip if the test holds.
    pub jt: u8,
    /// How many instructions to skip if it does not.
    pub jf: u8,
    pub k: u32,
}

/// Load the word at offset `k` of the call's description.
pub const LOAD_WORD: u16 = 0x20;

/// Test whether the loaded word is `k`.
pub const JUMP_IF_EQUAL: u16 = 0x15;

/// End with the answer `k`.
pub const RETURN: u16 = 0x06;

/// Let the call through.
pub const ALLOW: u32 = 0x7fff_0000;

/// Fail the call with "operation not permitted".
pub const REFUSE: u32 = 0x0005_0001;

/// What a filter program does from instruction `pc` on, with `word` loaded, for
/// a call with the number `number`: its answer, or `None` if it does not end
/// properly.
pub open spec fn run(program: Seq<Instruction>, pc: int, word: u32, number: u32) -> Option<u32>
    decreases
            if 0 <= pc < program.len() {
                program.len() - pc
            } else {
                0
            },
{
    if pc < 0 || pc >= program.len() {
        None
    } else {
        let i = program[pc];
        if i.code == LOAD_WORD && i.k == 0 {
            run(program, pc + 1, number, number)
        } else if i.code == JUMP_IF_EQUAL {
            if word == i.k {
                run(program, pc + 1 + i.jt, word, number)
            } else {
                run(program, pc + 1 + i.jf, word, number)
            }
        } else if i.code == RETURN {
            Some(i.k)
        } else {
            None
        }
    }
}

/// The program that refuses the given calls: load the number of the call,
/// compare it with each of them, and end with one of two answers.
pub open spec fn filter_of(blocked: Seq<u32>) -> Seq<Instruction> {
    seq![Instruction { code: LOAD_WORD, jt: 0, jf: 0, k: 0 }] + Seq::new(
        blocked.len(),
        |i: int|
            Instruction {
                code: JUMP_IF_EQUAL,
                jt: (blocked.len() - i) as u8,
                jf: 0,
                k: blocked[i],
            },
    ) + seq![
        Instruction { code: RETURN, jt: 0, jf: 0, k: ALLOW },
        Instruction { code: RETURN, jt: 0, jf: 0, k: REFUSE },
    ]
}

/// The filter program for the system calls with the given numbers.
pub fn filter_program(blocked: &[u32]) -> (r: Vec<Instruction>)
    requires
        blocked@.len() <= 255,
    ensures
        r@ == filter_of(blocked@),
{
    let mut p: Vec<Instruction> = Vec::new();
    p.push(Instruction { code: LOAD_WORD, jt: 0, jf: 0, k: 0 });
    let n: usize = blocked.len();
    let mut i: usize = 0;
    while i < n
        invariant
            n == blocked@.len() <= 255,
            i <= n,
            p@ == filter_of(blocked@).take(i + 1),
        decreases n - i,
    {
        p.push(Instruction { code: JUMP_IF_EQUAL, jt: (n - i) as u8, jf: 0, k: blocked[i] });
        i += 1;
        assert(p@ =~= filter_of(blocked@).take(i + 1));
    }
    p.push(Instruction { code: RETURN, jt: 0, jf: 0, k: ALLOW });
    p.push(Instruction { code: RETURN, jt: 0, jf: 0, k: REFUSE });
    assert(p@ =~= filter_of(blocked@));
    p
}

// ---------------------------------------------------------------------------
// Laws
// ---------------------------------------------------------------------------
proof fn comparisons(blocked: Seq<u32>, number: u32, i: int)
    requires
        blocked.len() <= 255,
        0 <= i <= blocked.len(),
    ensures
        run(filter_of(blocked), i + 1, number, number) == Some(
            if exists|k: int| i <= k < blocked.len() && blocked[k] == number {
                REFUSE
            } else {
                ALLOW
            },
        ),
    decreases blocked.len() - i,
{
    reveal_with_fuel(run, 2);
    let p = filter_of(blocked);
    let n = blocked.len() as int;
    assert(p[n + 1] == Instruction { code: RETURN, jt: 0, jf: 0, k: ALLOW });
    assert(p[n + 2] == Instruction { code: RETURN, jt: 0, jf: 0, k: REFUSE });
    if i < n {
        comparisons(blocked, number, i + 1);
        let here = p[i + 1];
        assert(here.code == JUMP_IF_EQUAL && here.k == blocked[i] && here.jf == 0);
        assert(here.jt == n - i);
        if blocked[i] == number {
            assert(run(p, i + 2 + here.jt, number, number) == Some(REFUSE));
        }
    }
}

/// The filter refuses exactly the calls it was made for, and lets every other
/// call through.
pub proof fn filter_refuses_exactly(blocked: Seq<u32>, number: u32)
    requires
        blocked.len() <= 255,
    ensures
        run(filter_of(blocked), 0, 0, number) == Some(
            if blocked.contains(number) {
                REFUSE
            } else {
                ALLOW
            },
        ),
{
    comparisons(blocked, number, 0);
    assert(filter_of(blocked)[0] == Instruction { code: LOAD_WORD, jt: 0, jf: 0, k: 0 });
}

/// Whatever listening is blocked by the server filter is blocked by the full
/// one too, and only the full one blocks connecting.
pub proof fn full_filter_is_wider(call: NetSyscall)
    ensures
        blocked_calls(ChildFilter::Server).contains(call) ==> blocked_calls(
            ChildFilter::All,
        ).contains(call),
        blocked_calls(ChildFilter::All).contains(NetSyscall::Connect),
        !blocked_calls(ChildFilter::Server).contains(NetSyscall::Connect),
{
    let all = blocked_calls(ChildFilter::All);
    assert(all[0] == NetSyscall::Connect);
    assert(all[1] == NetSyscall::Bind);
    assert(all[4] == NetSyscall::Listen);
    assert(all[5] == NetSyscall::Accept);
    assert(all[6] == NetSyscall::Accept4);
}

/// The full filter blocks every call that a filter can block; the filter of a proxied
/// child blocks what opens a port and leaves connecting and sending alone.
pub proof fn what_filters_block(call: NetSyscall)
    ensures
        blocked_calls(ChildFilter::All).contains(call),
        blocked_calls(ChildFilter::Server).contains(call) <==> call == NetSyscall::Bind || call
            == NetSyscall::Listen || call == NetSyscall::Accept || call == NetSyscall::Accept4,
{
    let all = blocked_calls(ChildFilter::All);
    let server = blocked_calls(ChildFilter::Server);
    assert(all[0] == NetSyscall::Connect && all[1] == NetSyscall::Bind && all[2]
        == NetSyscall::Sendto && all[3] == NetSyscall::Sendmsg && all[4] == NetSyscall::Listen
        && all[5] == NetSyscall::Accept && all[6] == NetSyscall::Accept4);
    assert(server[0] == NetSyscall::Bind && server[1] == NetSyscall::Listen && server[2]
        == NetSyscall::Accept && server[3] == NetSyscall::Accept4);
}

} // verus!
