//! x86_64 system call numbers, from asm/unistd_64.h.
use vstd::prelude::*;

verus! {

pub const READ: u32 = 0;

pub const WRITE: u32 = 1;

pub const CLOSE: u32 = 3;

pub const FSTAT: u32 = 5;

pub const POLL: u32 = 7;

pub const LSEEK: u32 = 8;

pub const MMAP: u32 = 9;

pub const MPROTECT: u32 = 10;

pub const MUNMAP: u32 = 11;

pub const BRK: u32 = 12;

pub const RT_SIGACTION: u32 = 13;

pub const RT_SIGPROCMASK: u32 = 14;

pub const RT_SIGRETURN: u32 = 15;

pub const IOCTL: u32 = 16;

pub const PREAD64: u32 = 17;

pub const WRITEV: u32 = 20;

pub const ACCESS: u32 = 21;

pub const PIPE: u32 = 22;

pub const SELECT: u32 = 23;

pub const SCHED_YIELD: u32 = 24;

pub const MREMAP: u32 = 25;

pub const MADVISE: u32 = 28;

pub const DUP: u32 = 32;

pub const DUP2: u32 = 33;

pub const NANOSLEEP: u32 = 35;

pub const GETPID: u32 = 39;

pub const SOCKET: u32 = 41;

pub const CONNECT: u32 = 42;

pub const SENDTO: u32 = 44;

pub const RECVFROM: u32 = 45;

pub const SENDMSG: u32 = 46;

pub const RECVMSG: u32 = 47;

pub const SHUTDOWN: u32 = 48;

pub const BIND: u32 = 49;

pub const GETSOCKNAME: u32 = 51;

pub const GETPEERNAME: u32 = 52;

pub const SETSOCKOPT: u32 = 54;

pub const GETSOCKOPT: u32 = 55;

pub const CLONE: u32 = 56;

pub const FORK: u32 = 57;

pub const VFORK: u32 = 58;

pub const EXECVE: u32 = 59;

pub const EXIT: u32 = 60;

pub const WAIT4: u32 = 61;

pub const KILL: u32 = 62;

pub const UNAME: u32 = 63;

pub const FCNTL: u32 = 72;

pub const GETCWD: u32 = 79;

pub const MKDIR: u32 = 83;

pub const UNLINK: u32 = 87;

pub const READLINK: u32 = 89;

pub const GETTIMEOFDAY: u32 = 96;

pub const GETUID: u32 = 102;

pub const GETGID: u32 = 104;

pub const GETEUID: u32 = 107;

pub const GETEGID: u32 = 108;

pub const GETPPID: u32 = 110;

pub const GETPGID: u32 = 121;

pub const SIGALTSTACK: u32 = 131;

pub const PRCTL: u32 = 157;

pub const ARCH_PRCTL: u32 = 158;

pub const GETTID: u32 = 186;

pub const FUTEX: u32 = 202;

pub const SCHED_GETAFFINITY: u32 = 204;

pub const GETDENTS64: u32 = 217;

pub const SET_TID_ADDRESS: u32 = 218;

pub const CLOCK_GETTIME: u32 = 228;

pub const CLOCK_NANOSLEEP: u32 = 230;

pub const EXIT_GROUP: u32 = 231;

pub const EPOLL_WAIT: u32 = 232;

pub const EPOLL_CTL: u32 = 233;

pub const TGKILL: u32 = 234;

pub const INOTIFY_ADD_WATCH: u32 = 254;

pub const OPENAT: u32 = 257;

pub const MKDIRAT: u32 = 258;

pub const NEWFSTATAT: u32 = 262;

pub const UNLINKAT: u32 = 263;

pub const READLINKAT: u32 = 267;

pub const PPOLL: u32 = 271;

pub const SET_ROBUST_LIST: u32 = 273;

pub const EPOLL_PWAIT: u32 = 281;

pub const SIGNALFD4: u32 = 289;

pub const EVENTFD2: u32 = 290;

pub const EPOLL_CREATE1: u32 = 291;

pub const DUP3: u32 = 292;

pub const PIPE2: u32 = 293;

pub const INOTIFY_INIT1: u32 = 294;

pub const RECVMMSG: u32 = 299;

pub const PRLIMIT64: u32 = 302;

pub const SENDMMSG: u32 = 307;

pub const GETRANDOM: u32 = 318;

pub const STATX: u32 = 332;

pub const RSEQ: u32 = 334;

pub const IO_URING_SETUP: u32 = 425;

pub const IO_URING_ENTER: u32 = 426;

pub const IO_URING_REGISTER: u32 = 427;

pub const CLONE3: u32 = 435;

pub const FACCESSAT2: u32 = 439;

} // verus!
