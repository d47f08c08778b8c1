//! The seccomp filter of the locker's unprivileged child.
use vstd::prelude::*;

use crate::bpf::{self, SockFilter};
use crate::syscalls;

verus! {

/// The system calls that the filter lets through, in the order in which it tests for them.
pub open spec fn allowlist() -> Seq<u32> {
    seq![
        // Core I/O
        syscalls::READ, syscalls::WRITE, syscalls::OPENAT, syscalls::CLOSE, syscalls::FSTAT,
        syscalls::NEWFSTATAT, syscalls::LSEEK, syscalls::PREAD64, syscalls::WRITEV, syscalls::DUP,
        syscalls::DUP2, syscalls::DUP3, syscalls::FCNTL, syscalls::IOCTL, syscalls::POLL,
        syscalls::PPOLL, syscalls::SELECT,
        // Memory
        syscalls::MMAP, syscalls::MUNMAP, syscalls::MPROTECT, syscalls::BRK, syscalls::MREMAP,
        syscalls::MADVISE,
        // Time
        syscalls::CLOCK_GETTIME, syscalls::CLOCK_NANOSLEEP, syscalls::NANOSLEEP,
        syscalls::GETTIMEOFDAY,
        // Process/PAM (pam_unix forks unix_chkpwd)
        syscalls::CLONE, syscalls::CLONE3, syscalls::FORK, syscalls::VFORK, syscalls::EXECVE,
        syscalls::WAIT4, syscalls::EXIT, syscalls::EXIT_GROUP, syscalls::KILL, syscalls::TGKILL,
        syscalls::ARCH_PRCTL, syscalls::SET_TID_ADDRESS, syscalls::SET_ROBUST_LIST, syscalls::RSEQ,
        syscalls::PRLIMIT64,
        // Process info
        syscalls::GETPID, syscalls::GETPPID, syscalls::GETTID, syscalls::GETPGID, syscalls::UNAME,
        syscalls::GETUID, syscalls::GETGID, syscalls::GETEUID, syscalls::GETEGID,
        // Signals + signalfd
        syscalls::RT_SIGACTION, syscalls::RT_SIGPROCMASK, syscalls::RT_SIGRETURN,
        syscalls::SIGALTSTACK, syscalls::SIGNALFD4,
        // File ops
        syscalls::ACCESS, syscalls::FACCESSAT2, syscalls::READLINK, syscalls::READLINKAT,
        syscalls::GETCWD, syscalls::STATX, syscalls::GETDENTS64, syscalls::GETRANDOM,
        syscalls::PIPE, syscalls::PIPE2,
        // Sockets (X11 connection, zbus D-Bus in daemon mode)
        syscalls::SOCKET, syscalls::CONNECT, syscalls::SETSOCKOPT, syscalls::GETSOCKOPT,
        syscalls::SENDTO, syscalls::SENDMSG, syscalls::RECVFROM, syscalls::RECVMSG,
        syscalls::SHUTDOWN,
        // epoll (rust runtime, zbus)
        syscalls::EPOLL_CREATE1, syscalls::EPOLL_CTL, syscalls::EPOLL_WAIT, syscalls::EPOLL_PWAIT,
        syscalls::EVENTFD2,
        // Futex + scheduler (Rust allocator / threading runtime)
        syscalls::FUTEX, syscalls::SCHED_YIELD, syscalls::SCHED_GETAFFINITY,
    ]
}

/// The numbers of `allowlist`.
#[verifier::rlimit(50)]
pub fn allowed_syscalls() -> (r: Vec<u32>)
    ensures
        r@ == allowlist(),
{
    let r = vec![
        // Core I/O
        syscalls::READ, syscalls::WRITE, syscalls::OPENAT, syscalls::CLOSE, syscalls::FSTAT,
        syscalls::NEWFSTATAT, syscalls::LSEEK, syscalls::PREAD64, syscalls::WRITEV, syscalls::DUP,
        syscalls::DUP2, syscalls::DUP3, syscalls::FCNTL, syscalls::IOCTL, syscalls::POLL,
        syscalls::PPOLL, syscalls::SELECT,
        // Memory
        syscalls::MMAP, syscalls::MUNMAP, syscalls::MPROTECT, syscalls::BRK, syscalls::MREMAP,
        syscalls::MADVISE,
        // Time
        syscalls::CLOCK_GETTIME, syscalls::CLOCK_NANOSLEEP, syscalls::NANOSLEEP,
        syscalls::GETTIMEOFDAY,
        // Process/PAM (pam_unix forks unix_chkpwd)
        syscalls::CLONE, syscalls::CLONE3, syscalls::FORK, syscalls::VFORK, syscalls::EXECVE,
        syscalls::WAIT4, syscalls::EXIT, syscalls::EXIT_GROUP, syscalls::KILL, syscalls::TGKILL,
        syscalls::ARCH_PRCTL, syscalls::SET_TID_ADDRESS, syscalls::SET_ROBUST_LIST, syscalls::RSEQ,
        syscalls::PRLIMIT64,
        // Process info
        syscalls::GETPID, syscalls::GETPPID, syscalls::GETTID, syscalls::GETPGID, syscalls::UNAME,
        syscalls::GETUID, syscalls::GETGID, syscalls::GETEUID, syscalls::GETEGID,
        // Signals + signalfd
        syscalls::RT_SIGACTION, syscalls::RT_SIGPROCMASK, syscalls::RT_SIGRETURN,
        syscalls::SIGALTSTACK, syscalls::SIGNALFD4,
        // File ops
        syscalls::ACCESS, syscalls::FACCESSAT2, syscalls::READLINK, syscalls::READLINKAT,
        syscalls::GETCWD, syscalls::STATX, syscalls::GETDENTS64, syscalls::GETRANDOM,
        syscalls::PIPE, syscalls::PIPE2,
        // Sockets (X11 connection, zbus D-Bus in daemon mode)
        syscalls::SOCKET, syscalls::CONNECT, syscalls::SETSOCKOPT, syscalls::GETSOCKOPT,
        syscalls::SENDTO, syscalls::SENDMSG, syscalls::RECVFROM, syscalls::RECVMSG,
        syscalls::SHUTDOWN,
        // epoll (rust runtime, zbus)
        syscalls::EPOLL_CREATE1, syscalls::EPOLL_CTL, syscalls::EPOLL_WAIT, syscalls::EPOLL_PWAIT,
        syscalls::EVENTFD2,
        // Futex + scheduler (Rust allocator / threading runtime)
        syscalls::FUTEX, syscalls::SCHED_YIELD, syscalls::SCHED_GETAFFINITY,
    ];
    assert(r@ =~= allowlist());
    r
}

/// The filter program: it allows a system call made through the x86_64 entry point whose number
/// is on the list, and kills the process on every other.
pub fn filter_program() -> (r: Vec<SockFilter>)
    ensures
        r@ == bpf::allow_program(allowlist()),
        r@.len() == 171,
        forall|arch: u32, nr: u32| #[trigger]
            bpf::run(r@, 0, 0, arch, nr) == Some(
                if arch == bpf::AUDIT_ARCH_X86_64 && allowlist().contains(nr) {
                    bpf::SECCOMP_RET_ALLOW
                } else {
                    bpf::SECCOMP_RET_KILL_PROCESS
                },
            ),
{
    let allowed = allowed_syscalls();
    let r = bpf::build(allowed.as_slice());
    proof {
        assert forall|arch: u32, nr: u32| #[trigger] bpf::run(r@, 0, 0, arch, nr) == Some(
            if arch == bpf::AUDIT_ARCH_X86_64 && allowlist().contains(nr) {
                bpf::SECCOMP_RET_ALLOW
            } else {
                bpf::SECCOMP_RET_KILL_PROCESS
            },
        ) by {
            bpf::law_allow_program(allowlist(), arch, nr);
        }
    }
    r
}

/// The system calls that are let through, by their numbers, and no other is: among those that are not
/// are tracing, mounting, removing and renaming files, and changing users.
#[verifier::rlimit(100)]
pub proof fn law_filter_lets_these_numbers_through(nr: u32)
    ensures
        allowlist().contains(nr) == ({
            ||| nr <= 1
            ||| nr == 3
            ||| nr == 5
            ||| 7 <= nr <= 17
            ||| 20 <= nr <= 25
            ||| nr == 28
            ||| 32 <= nr <= 33
            ||| nr == 35
            ||| nr == 39
            ||| 41 <= nr <= 42
            ||| 44 <= nr <= 48
            ||| 54 <= nr <= 63
            ||| nr == 72
            ||| nr == 79
            ||| nr == 89
            ||| nr == 96
            ||| nr == 102
            ||| nr == 104
            ||| 107 <= nr <= 108
            ||| nr == 110
            ||| nr == 121
            ||| nr == 131
            ||| nr == 158
            ||| nr == 186
            ||| nr == 202
            ||| nr == 204
            ||| 217 <= nr <= 218
            ||| nr == 228
            ||| 230 <= nr <= 234
            ||| nr == 257
            ||| nr == 262
            ||| nr == 267
            ||| nr == 271
            ||| nr == 273
            ||| nr == 281
            ||| 289 <= nr <= 293
            ||| nr == 302
            ||| nr == 318
            ||| nr == 332
            ||| nr == 334
            ||| nr == 435
            ||| nr == 439
        }),
{
    let all = allowlist();
    assert(all.len() == 83);
    assert(all[0] == 0);
    assert(all[1] == 1);
    assert(all[2] == 257);
    assert(all[3] == 3);
    assert(all[4] == 5);
    assert(all[5] == 262);
    assert(all[6] == 8);
    assert(all[7] == 17);
    assert(all[8] == 20);
    assert(all[9] == 32);
    assert(all[10] == 33);
    assert(all[11] == 292);
    assert(all[12] == 72);
    assert(all[13] == 16);
    assert(all[14] == 7);
    assert(all[15] == 271);
    assert(all[16] == 23);
    assert(all[17] == 9);
    assert(all[18] == 11);
    assert(all[19] == 10);
    assert(all[20] == 12);
    assert(all[21] == 25);
    assert(all[22] == 28);
    assert(all[23] == 228);
    assert(all[24] == 230);
    assert(all[25] == 35);
    assert(all[26] == 96);
    assert(all[27] == 56);
    assert(all[28] == 435);
    assert(all[29] == 57);
    assert(all[30] == 58);
    assert(all[31] == 59);
    assert(all[32] == 61);
    assert(all[33] == 60);
    assert(all[34] == 231);
    assert(all[35] == 62);
    assert(all[36] == 234);
    assert(all[37] == 158);
    assert(all[38] == 218);
    assert(all[39] == 273);
    assert(all[40] == 334);
    assert(all[41] == 302);
    assert(all[42] == 39);
    assert(all[43] == 110);
    assert(all[44] == 186);
    assert(all[45] == 121);
    assert(all[46] == 63);
    assert(all[47] == 102);
    assert(all[48] == 104);
    assert(all[49] == 107);
    assert(all[50] == 108);
    assert(all[51] == 13);
    assert(all[52] == 14);
    assert(all[53] == 15);
    assert(all[54] == 131);
    assert(all[55] == 289);
    assert(all[56] == 21);
    assert(all[57] == 439);
    assert(all[58] == 89);
    assert(all[59] == 267);
    assert(all[60] == 79);
    assert(all[61] == 332);
    assert(all[62] == 217);
    assert(all[63] == 318);
    assert(all[64] == 22);
    assert(all[65] == 293);
    assert(all[66] == 41);
    assert(all[67] == 42);
    assert(all[68] == 54);
    assert(all[69] == 55);
    assert(all[70] == 44);
    assert(all[71] == 46);
    assert(all[72] == 45);
    assert(all[73] == 47);
    assert(all[74] == 48);
    assert(all[75] == 291);
    assert(all[76] == 233);
    assert(all[77] == 232);
    assert(all[78] == 281);
    assert(all[79] == 290);
    assert(all[80] == 202);
    assert(all[81] == 24);
    assert(all[82] == 204);
    if all.contains(nr) {
        let i = all.index_of(nr);
        assert(0 <= i < 83 && all[i] == nr);
    }
}

} // verus!
