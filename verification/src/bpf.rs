//! The part of classic BPF that the seccomp filters use: their instructions, what a program of
//! them answers, and the allow-list program.
use vstd::prelude::*;

verus! {

/// Load a 32-bit word of the system call's data: `BPF_LD | BPF_W | BPF_ABS`.
pub const LOAD_WORD: u16 = 0x20;

/// Jump on equality with a constant: `BPF_JMP | BPF_JEQ | BPF_K`.
pub const JUMP_EQUAL: u16 = 0x15;

/// Return a constant: `BPF_RET | BPF_K`.
pub const RETURN_CONST: u16 = 0x06;

pub const SECCOMP_RET_KILL_PROCESS: u32 = 0x8000_0000;

pub const SECCOMP_RET_ALLOW: u32 = 0x7fff_0000;

pub const AUDIT_ARCH_X86_64: u32 = 0xc000_003e;

/// Where the architecture and the system call number lie in the data.
pub const OFFSET_ARCH: u32 = 4;

pub const OFFSET_NR: u32 = 0;

/// One BPF instruction.
#[derive(Debug, Clone, Copy, PartialEq, Eq, Structural)]
pub struct SockFilter {
    pub code: u16,
    pub jt: u8,
    pub jf: u8,
    pub k: u32,
}

pub open spec fn stmt(code: u16, k: u32) -> SockFilter {
    SockFilter { code, jt: 0, jf: 0, k }
}

pub open spec fn jump(code: u16, k: u32, jt: u8, jf: u8) -> SockFilter {
    SockFilter { code, jt, jf, k }
}

pub fn bpf_stmt(code: u16, k: u32) -> (r: SockFilter)
    ensures
        r == stmt(code, k),
{
    SockFilter { code, jt: 0, jf: 0, k }
}

pub fn bpf_jump(code: u16, k: u32, jt: u8, jf: u8) -> (r: SockFilter)
    ensures
        r == jump(code, k, jt, jf),
{
    SockFilter { code, jt, jf, k }
}

/// What the program answers from instruction `pc` on, with `acc` in the accumulator, to the call
/// `nr` made under architecture `arch`; `None` where it runs off its end or holds an instruction
/// that is none of the three.
pub open spec fn run(prog: Seq<SockFilter>, pc: int, acc: u32, arch: u32, nr: u32) -> Option<u32>
    decreases vstd::math::max(prog.len() - pc, 0),
{
    if pc < 0 || pc >= prog.len() {
        None
    } else {
        let i = prog[pc];
        if i.code == LOAD_WORD {
            if i.k == OFFSET_ARCH {
                run(prog, pc + 1, arch, arch, nr)
            } else if i.k == OFFSET_NR {
                run(prog, pc + 1, nr, arch, nr)
            } else {
                None
            }
        } else if i.code == JUMP_EQUAL {
            run(prog, pc + 1 + (if acc == i.k {
                i.jt as int
            } else {
                i.jf as int
            }), acc, arch, nr)
        } else if i.code == RETURN_CONST {
            Some(i.k)
        } else {
            None
        }
    }
}

/// The two instructions that allow the system call `nr`.
pub open spec fn allow_pair(nr: u32) -> Seq<SockFilter> {
    seq![jump(JUMP_EQUAL, nr, 0, 1), stmt(RETURN_CONST, SECCOMP_RET_ALLOW)]
}

/// The pairs of every number of the list, in order.
pub open spec fn allow_pairs(allowed: Seq<u32>) -> Seq<SockFilter>
    decreases allowed.len(),
{
    if allowed.len() == 0 {
        Seq::empty()
    } else {
        allow_pairs(allowed.drop_last()) + allow_pair(allowed.last())
    }
}

/// The instructions before the pairs: any other architecture is killed, then the number is loaded.
pub open spec fn prologue() -> Seq<SockFilter> {
    seq![
        stmt(LOAD_WORD, OFFSET_ARCH),
        jump(JUMP_EQUAL, AUDIT_ARCH_X86_64, 1, 0),
        stmt(RETURN_CONST, SECCOMP_RET_KILL_PROCESS),
        stmt(LOAD_WORD, OFFSET_NR),
    ]
}

/// The program that allows the numbers of the list and kills on every other.
pub open spec fn allow_program(allowed: Seq<u32>) -> Seq<SockFilter> {
    (prologue() + allow_pairs(allowed)).push(stmt(RETURN_CONST, SECCOMP_RET_KILL_PROCESS))
}

pub fn allow(nr: u32) -> (r: [SockFilter; 2])
    ensures
        r@ == allow_pair(nr),
{
    let r = [bpf_jump(JUMP_EQUAL, nr, 0, 1), bpf_stmt(RETURN_CONST, SECCOMP_RET_ALLOW)];
    assert(r@ =~= allow_pair(nr));
    r
}

/// Builds `allow_program`.
pub fn build(allowed: &[u32]) -> (r: Vec<SockFilter>)
    ensures
        r@ == allow_program(allowed@),
        r@.len() == 5 + 2 * allowed@.len(),
{
    let mut r: Vec<SockFilter> = Vec::new();
    r.push(bpf_stmt(LOAD_WORD, OFFSET_ARCH));
    r.push(bpf_jump(JUMP_EQUAL, AUDIT_ARCH_X86_64, 1, 0));
    r.push(bpf_stmt(RETURN_CONST, SECCOMP_RET_KILL_PROCESS));
    r.push(bpf_stmt(LOAD_WORD, OFFSET_NR));
    let mut i: usize = 0;
    assert(allowed@.take(0) =~= Seq::empty());
    assert(r@ =~= prologue() + allow_pairs(allowed@.take(0)));
    while i < allowed.len()
        invariant
            i <= allowed.len(),
            r@ == prologue() + allow_pairs(allowed@.take(i as int)),
        decreases allowed.len() - i,
    {
        let pair = allow(allowed[i]);
        r.push(pair[0]);
        r.push(pair[1]);
        i += 1;
        proof {
            let next = allowed@.take(i as int);
            assert(next.drop_last() =~= allowed@.take(i - 1));
            assert(next.last() == allowed@[i - 1]);
            assert(pair@ =~= seq![pair@[0], pair@[1]]);
            assert(r@ =~= prologue() + (allow_pairs(next.drop_last()) + allow_pair(next.last())));
        }
    }
    r.push(bpf_stmt(RETURN_CONST, SECCOMP_RET_KILL_PROCESS));
    proof {
        assert(allowed@.take(i as int) =~= allowed@);
        lemma_pairs(allowed@);
    }
    r
}

proof fn lemma_pairs(allowed: Seq<u32>)
    ensures
        allow_pairs(allowed).len() == 2 * allowed.len(),
        forall|i: int|
            0 <= i < allowed.len() ==> #[trigger] allow_pairs(allowed)[2 * i] == jump(
                JUMP_EQUAL,
                allowed[i],
                0,
                1,
            ) && allow_pairs(allowed)[2 * i + 1] == stmt(RETURN_CONST, SECCOMP_RET_ALLOW),
    decreases allowed.len(),
{
    if allowed.len() > 0 {
        lemma_pairs(allowed.drop_last());
        let head = allow_pairs(allowed.drop_last());
        assert forall|i: int| 0 <= i < allowed.len() implies #[trigger] allow_pairs(allowed)[2 * i]
            == jump(JUMP_EQUAL, allowed[i], 0, 1) && allow_pairs(allowed)[2 * i + 1] == stmt(
            RETURN_CONST,
            SECCOMP_RET_ALLOW,
        ) by {
            if i < allowed.len() - 1 {
                assert(head[2 * i] == jump(JUMP_EQUAL, allowed.drop_last()[i], 0, 1));
                assert(allow_pairs(allowed)[2 * i] == head[2 * i]);
                assert(allow_pairs(allowed)[2 * i + 1] == head[2 * i + 1]);
            }
        }
    }
}

proof fn lemma_run_pairs(allowed: Seq<u32>, i: int, arch: u32, nr: u32)
    requires
        0 <= i <= allowed.len(),
    ensures
        run(allow_program(allowed), 4 + 2 * i, nr, arch, nr) == Some(
            if allowed.skip(i).contains(nr) {
                SECCOMP_RET_ALLOW
            } else {
                SECCOMP_RET_KILL_PROCESS
            },
        ),
    decreases allowed.len() - i,
{
    lemma_pairs(allowed);
    let prog = allow_program(allowed);
    let pc = 4 + 2 * i;
    if i == allowed.len() {
        assert(prog[pc] == stmt(RETURN_CONST, SECCOMP_RET_KILL_PROCESS));
        assert(allowed.skip(i) =~= Seq::empty());
    } else {
        lemma_run_pairs(allowed, i + 1, arch, nr);
        assert(prog[pc] == allow_pairs(allowed)[2 * i]);
        assert(prog[pc + 1] == allow_pairs(allowed)[2 * i + 1]);
        assert(allowed.skip(i) =~= seq![allowed[i]] + allowed.skip(i + 1));
        if allowed[i] == nr {
            assert(allowed.skip(i)[0] == nr);
            assert(run(prog, pc + 1, nr, arch, nr) == Some(SECCOMP_RET_ALLOW));
        } else {
            assert(run(prog, pc, nr, arch, nr) == run(prog, pc + 2, nr, arch, nr));
            if allowed.skip(i).contains(nr) {
                let j = allowed.skip(i).index_of(nr);
                assert(allowed.skip(i + 1)[j - 1] == nr);
            }
            if allowed.skip(i + 1).contains(nr) {
                let j = allowed.skip(i + 1).index_of(nr);
                assert(allowed.skip(i)[j + 1] == nr);
            }
        }
    }
}

/// The allow-list program allows a call exactly when it is made under x86_64 and its number is on
/// the list, and kills the process otherwise.
pub proof fn law_allow_program(allowed: Seq<u32>, arch: u32, nr: u32)
    ensures
        run(allow_program(allowed), 0, 0, arch, nr) == Some(
            if arch == AUDIT_ARCH_X86_64 && allowed.contains(nr) {
                SECCOMP_RET_ALLOW
            } else {
                SECCOMP_RET_KILL_PROCESS
            },
        ),
{
    let prog = allow_program(allowed);
    lemma_pairs(allowed);
    lemma_run_pairs(allowed, 0, arch, nr);
    assert(allowed.skip(0) =~= allowed);
    assert(prog[0] == prologue()[0]);
    assert(prog[1] == prologue()[1]);
    assert(prog[2] == prologue()[2]);
    assert(prog[3] == prologue()[3]);
    assert(run(prog, 3, arch, arch, nr) == run(prog, 4, nr, arch, nr));
    assert(run(prog, 2, arch, arch, nr) == Some(SECCOMP_RET_KILL_PROCESS));
    assert(run(prog, 0, 0, arch, nr) == run(prog, 1, arch, arch, nr));
}

/// A statement goes on to the instruction behind it, and a jump as far as it was told, either way.
pub proof fn law_only_jumps_skip(code: u16, k: u32, jt: u8, jf: u8)
    ensures
        stmt(code, k).jt == 0 && stmt(code, k).jf == 0,
        stmt(code, k) == jump(code, k, 0, 0),
        jump(code, k, jt, jf).jt == jt && jump(code, k, jt, jf).jf == jf,
        stmt(code, k).code == code && stmt(code, k).k == k,
        jump(code, k, jt, jf).code == code && jump(code, k, jt, jf).k == k,
{
}

} // verus!
