//! The seccomp filter of the colour-temperature daemon.
use vstd::prelude::*;

use crate::bpf::{self, SockFilter};
use crate::syscalls;

verus! {

/// The system calls that the filter lets through, in the order in which it tests for them.
pub open spec fn allowlist() -> Seq<u32> {
    seq![
        // Core I/O
        syscalls::READ, syscalls::WRITE, syscalls::OPENAT, syscalls::CLOSE, syscalls::FSTAT,
        syscalls::NEWFSTATAT, syscalls::LSEEK, syscalls::PREAD64,
        // Memory
        syscalls::MMAP, syscalls::MUNMAP, syscalls::MPROTECT, syscalls::BRK, syscalls::MREMAP,
        syscalls::MADVISE,
        // io_uring
        syscalls::IO_URING_SETUP, syscalls::IO_URING_ENTER, syscalls::IO_URING_REGISTER,
        // Time
        syscalls::CLOCK_GETTIME, syscalls::CLOCK_NANOSLEEP, syscalls::NANOSLEEP,
        syscalls::GETTIMEOFDAY,
        // ioctl (DRM gamma + inotify)
        syscalls::IOCTL,
        // Process spawn (weather via curl)
        syscalls::CLONE3, syscalls::CLONE, syscalls::EXECVE, syscalls::PIPE2, syscalls::DUP2,
        syscalls::DUP3, syscalls::WAIT4, syscalls::SET_ROBUST_LIST, syscalls::RSEQ,
        syscalls::PRLIMIT64, syscalls::ARCH_PRCTL, syscalls::SET_TID_ADDRESS,
        // Signals
        syscalls::RT_SIGPROCMASK, syscalls::RT_SIGACTION, syscalls::RT_SIGRETURN,
        syscalls::SIGALTSTACK,
        // File ops
        syscalls::UNLINK, syscalls::UNLINKAT, syscalls::MKDIR, syscalls::MKDIRAT, syscalls::ACCESS,
        syscalls::FACCESSAT2, syscalls::FCNTL, syscalls::GETCWD, syscalls::READLINK,
        syscalls::READLINKAT, syscalls::STATX, syscalls::GETRANDOM,
        // Process info
        syscalls::GETPID, syscalls::GETUID, syscalls::GETEUID, syscalls::GETGID, syscalls::GETEGID,
        syscalls::KILL, syscalls::PRCTL, syscalls::FUTEX,
        // Exit
        syscalls::EXIT, syscalls::EXIT_GROUP,
        // Event fds (inotify + signalfd)
        syscalls::SIGNALFD4, syscalls::INOTIFY_INIT1, syscalls::INOTIFY_ADD_WATCH,
        // Socket I/O (X11/Wayland backend, curl child)
        syscalls::SOCKET, syscalls::CONNECT, syscalls::BIND, syscalls::SETSOCKOPT,
        syscalls::GETSOCKOPT, syscalls::SHUTDOWN, syscalls::SENDTO, syscalls::SENDMSG,
        syscalls::SENDMMSG, syscalls::RECVFROM, syscalls::RECVMSG, syscalls::RECVMMSG,
        syscalls::GETPEERNAME, syscalls::GETSOCKNAME, syscalls::POLL, syscalls::PPOLL,
        syscalls::WRITEV, syscalls::UNAME,
        // epoll + eventfd (curl child process)
        syscalls::EPOLL_CREATE1, syscalls::EPOLL_CTL, syscalls::EPOLL_WAIT, syscalls::EPOLL_PWAIT,
        syscalls::EVENTFD2,
        // dlopen (backend loading)
        syscalls::GETDENTS64,
        // Rust-specific (allocator, runtime)
        syscalls::SCHED_YIELD, syscalls::SCHED_GETAFFINITY,
    ]
}

/// The numbers of `allowlist`.
#[verifier::rlimit(50)]
pub fn allowed_syscalls() -> (r: Vec<u32>)
    ensures
        r@ == allowlist(),
{
    let r = vec![
        // Core I/O
        syscalls::READ, syscalls::WRITE, syscalls::OPENAT, syscalls::CLOSE, syscalls::FSTAT,
        syscalls::NEWFSTATAT, syscalls::LSEEK, syscalls::PREAD64,
        // Memory
        syscalls::MMAP, syscalls::MUNMAP, syscalls::MPROTECT, syscalls::BRK, syscalls::MREMAP,
        syscalls::MADVISE,
        // io_uring
        syscalls::IO_URING_SETUP, syscalls::IO_URING_ENTER, syscalls::IO_URING_REGISTER,
        // Time
        syscalls::CLOCK_GETTIME, syscalls::CLOCK_NANOSLEEP, syscalls::NANOSLEEP,
        syscalls::GETTIMEOFDAY,
        // ioctl (DRM gamma + inotify)
        syscalls::IOCTL,
        // Process spawn (weather via curl)
        syscalls::CLONE3, syscalls::CLONE, syscalls::EXECVE, syscalls::PIPE2, syscalls::DUP2,
        syscalls::DUP3, syscalls::WAIT4, syscalls::SET_ROBUST_LIST, syscalls::RSEQ,
        syscalls::PRLIMIT64, syscalls::ARCH_PRCTL, syscalls::SET_TID_ADDRESS,
        // Signals
        syscalls::RT_SIGPROCMASK, syscalls::RT_SIGACTION, syscalls::RT_SIGRETURN,
        syscalls::SIGALTSTACK,
        // File ops
        syscalls::UNLINK, syscalls::UNLINKAT, syscalls::MKDIR, syscalls::MKDIRAT, syscalls::ACCESS,
        syscalls::FACCESSAT2, syscalls::FCNTL, syscalls::GETCWD, syscalls::READLINK,
        syscalls::READLINKAT, syscalls::STATX, syscalls::GETRANDOM,
        // Process info
        syscalls::GETPID, syscalls::GETUID, syscalls::GETEUID, syscalls::GETGID, syscalls::GETEGID,
        syscalls::KILL, syscalls::PRCTL, syscalls::FUTEX,
        // Exit
        syscalls::EXIT, syscalls::EXIT_GROUP,
        // Event fds (inotify + signalfd)
        syscalls::SIGNALFD4, syscalls::INOTIFY_INIT1, syscalls::INOTIFY_ADD_WATCH,
        // Socket I/O (X11/Wayland backend, curl child)
        syscalls::SOCKET, syscalls::CONNECT, syscalls::BIND, syscalls::SETSOCKOPT,
        syscalls::GETSOCKOPT, syscalls::SHUTDOWN, syscalls::SENDTO, syscalls::SENDMSG,
        syscalls::SENDMMSG, syscalls::RECVFROM, syscalls::RECVMSG, syscalls::RECVMMSG,
        syscalls::GETPEERNAME, syscalls::GETSOCKNAME, syscalls::POLL, syscalls::PPOLL,
        syscalls::WRITEV, syscalls::UNAME,
        // epoll + eventfd (curl child process)
        syscalls::EPOLL_CREATE1, syscalls::EPOLL_CTL, syscalls::EPOLL_WAIT, syscalls::EPOLL_PWAIT,
        syscalls::EVENTFD2,
        // dlopen (backend loading)
        syscalls::GETDENTS64,
        // Rust-specific (allocator, runtime)
        syscalls::SCHED_YIELD, syscalls::SCHED_GETAFFINITY,
    ];
    assert(r@ =~= allowlist());
    r
}

/// The filter program: it allows a system call made through the x86_64 entry point whose number
/// is on the list, and kills the process on every other.
pub fn filter_program() -> (r: Vec<SockFilter>)
    ensures
        r@ == bpf::allow_program(allowlist()),
        r@.len() == 183,
        forall|arch: u32, nr: u32| #[trigger]
            bpf::run(r@, 0, 0, arch, nr) == Some(
                if arch == bpf::AUDIT_ARCH_X86_64 && allowlist().contains(nr) {
                    bpf::SECCOMP_RET_ALLOW
                } else {
                    bpf::SECCOMP_RET_KILL_PROCESS
                },
            ),
{
    let allowed = allowed_syscalls();
    let r = bpf::build(allowed.as_slice());
    proof {
        assert forall|arch: u32, nr: u32| #[trigger] bpf::run(r@, 0, 0, arch, nr) == Some(
            if arch == bpf::AUDIT_ARCH_X86_64 && allowlist().contains(nr) {
                bpf::SECCOMP_RET_ALLOW
            } else {
                bpf::SECCOMP_RET_KILL_PROCESS
            },
        ) by {
            bpf::law_allow_program(allowlist(), arch, nr);
        }
    }
    r
}

/// The system calls that are let through, by their numbers, and no other is: among those that are not
/// are tracing, mounting, loading modules and changing users.
#[verifier::rlimit(100)]
pub proof fn law_filter_lets_these_numbers_through(nr: u32)
    ensures
        allowlist().contains(nr) == ({
            ||| nr <= 1
            ||| nr == 3
            ||| nr == 5
            ||| 7 <= nr <= 17
            ||| 20 <= nr <= 21
            ||| 24 <= nr <= 25
            ||| nr == 28
            ||| nr == 33
            ||| nr == 35
            ||| nr == 39
            ||| 41 <= nr <= 42
            ||| 44 <= nr <= 49
            ||| 51 <= nr <= 52
            ||| 54 <= nr <= 56
            ||| 59 <= nr <= 63
            ||| nr == 72
            ||| nr == 79
            ||| nr == 83
            ||| nr == 87
            ||| nr == 89
            ||| nr == 96
            ||| nr == 102
            ||| nr == 104
            ||| 107 <= nr <= 108
            ||| nr == 131
            ||| 157 <= nr <= 158
            ||| nr == 202
            ||| nr == 204
            ||| 217 <= nr <= 218
            ||| nr == 228
            ||| 230 <= nr <= 233
            ||| nr == 254
            ||| 257 <= nr <= 258
            ||| 262 <= nr <= 263
            ||| nr == 267
            ||| nr == 271
            ||| nr == 273
            ||| nr == 281
            ||| 289 <= nr <= 294
            ||| nr == 299
            ||| nr == 302
            ||| nr == 307
            ||| nr == 318
            ||| nr == 332
            ||| nr == 334
            ||| 425 <= nr <= 427
            ||| nr == 435
            ||| nr == 439
        }),
{
    let all = allowlist();
    assert(all.len() == 89);
    assert(all[0] == 0);
    assert(all[1] == 1);
    assert(all[2] == 257);
    assert(all[3] == 3);
    assert(all[4] == 5);
    assert(all[5] == 262);
    assert(all[6] == 8);
    assert(all[7] == 17);
    assert(all[8] == 9);
    assert(all[9] == 11);
    assert(all[10] == 10);
    assert(all[11] == 12);
    assert(all[12] == 25);
    assert(all[13] == 28);
    assert(all[14] == 425);
    assert(all[15] == 426);
    assert(all[16] == 427);
    assert(all[17] == 228);
    assert(all[18] == 230);
    assert(all[19] == 35);
    assert(all[20] == 96);
    assert(all[21] == 16);
    assert(all[22] == 435);
    assert(all[23] == 56);
    assert(all[24] == 59);
    assert(all[25] == 293);
    assert(all[26] == 33);
    assert(all[27] == 292);
    assert(all[28] == 61);
    assert(all[29] == 273);
    assert(all[30] == 334);
    assert(all[31] == 302);
    assert(all[32] == 158);
    assert(all[33] == 218);
    assert(all[34] == 14);
    assert(all[35] == 13);
    assert(all[36] == 15);
    assert(all[37] == 131);
    assert(all[38] == 87);
    assert(all[39] == 263);
    assert(all[40] == 83);
    assert(all[41] == 258);
    assert(all[42] == 21);
    assert(all[43] == 439);
    assert(all[44] == 72);
    assert(all[45] == 79);
    assert(all[46] == 89);
    assert(all[47] == 267);
    assert(all[48] == 332);
    assert(all[49] == 318);
    assert(all[50] == 39);
    assert(all[51] == 102);
    assert(all[52] == 107);
    assert(all[53] == 104);
    assert(all[54] == 108);
    assert(all[55] == 62);
    assert(all[56] == 157);
    assert(all[57] == 202);
    assert(all[58] == 60);
    assert(all[59] == 231);
    assert(all[60] == 289);
    assert(all[61] == 294);
    assert(all[62] == 254);
    assert(all[63] == 41);
    assert(all[64] == 42);
    assert(all[65] == 49);
    assert(all[66] == 54);
    assert(all[67] == 55);
    assert(all[68] == 48);
    assert(all[69] == 44);
    assert(all[70] == 46);
    assert(all[71] == 307);
    assert(all[72] == 45);
    assert(all[73] == 47);
    assert(all[74] == 299);
    assert(all[75] == 52);
    assert(all[76] == 51);
    assert(all[77] == 7);
    assert(all[78] == 271);
    assert(all[79] == 20);
    assert(all[80] == 63);
    assert(all[81] == 291);
    assert(all[82] == 233);
    assert(all[83] == 232);
    assert(all[84] == 281);
    assert(all[85] == 290);
    assert(all[86] == 217);
    assert(all[87] == 24);
    assert(all[88] == 204);
    if all.contains(nr) {
        let i = all.index_of(nr);
        assert(0 <= i < 89 && all[i] == nr);
    }
}

} // verus!
