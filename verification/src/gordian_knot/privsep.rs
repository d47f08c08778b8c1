//! Giving up privileges, and what a child's end says.
use vstd::prelude::*;

verus! {

/// `libc::WIFEXITED`: the child ended by itself, that is, the low seven bits of its status are 0.
pub assume_specification[ libc::WIFEXITED ](status: libc::c_int) -> (r: bool)
    ensures
        r == (status & 0x7f == 0),
;

/// `libc::WEXITSTATUS`: the eight bits of the status above the lowest eight.
pub assume_specification[ libc::WEXITSTATUS ](status: libc::c_int) -> (r: libc::c_int)
    ensures
        r == ((status >> 8) & 0xff),
;

/// The exit code that a child's status holds; -1 where a signal ended the child.
pub fn exit_code(status: i32) -> (r: i32)
    ensures
        r == if status & 0x7f == 0 {
            (status >> 8) & 0xff
        } else {
            -1i32
        },
        r == code_of(status),
{
    if libc::WIFEXITED(status) {
        libc::WEXITSTATUS(status)
    } else {
        -1
    }
}

/// What follows a wait for the child.
#[derive(Debug, Clone, Copy, PartialEq, Eq, Structural)]
pub enum WaitStep {
    /// A signal interrupted the wait.
    Again,
    /// The child's exit code, or -1.
    Ended(i32),
}

/// Goes on after `waitpid` returned `ret` with `status`; `interrupted` says whether an error was
/// an interruption.
pub fn wait_child(ret: i32, interrupted: bool, status: i32) -> (r: WaitStep)
    ensures
        r == if ret == -1 && interrupted {
            WaitStep::Again
        } else if ret == -1 {
            WaitStep::Ended(-1i32)
        } else {
            WaitStep::Ended(
                if status & 0x7f == 0 {
                    (status >> 8) & 0xff
                } else {
                    -1i32
                },
            )
        },
{
    if ret == -1 {
        if interrupted {
            return WaitStep::Again;
        }
        return WaitStep::Ended(-1);
    }
    WaitStep::Ended(exit_code(status))
}

/// An exit code fits a byte.
pub proof fn law_exit_code_is_a_byte(status: i32)
    ensures
        0 <= ((status >> 8) & 0xff) <= 255,
{
    assert(0 <= ((status >> 8) & 0xff) && ((status >> 8) & 0xff) <= 255) by (bit_vector);
}

/// What failed when privileges were to be given up.
#[derive(Debug, Clone, Copy, PartialEq, Eq, Structural)]
pub enum DropError {
    SetGroup,
    SetUser,
    /// The call worked, and yet the process is still root's.
    StillRoot,
    NoNewPrivs,
}

/// The steps of giving privileges up, in order: the group first, for without the user's
/// privileges it could not be changed any more.
#[derive(Debug, Clone, Copy, PartialEq, Eq, Structural)]
pub enum DropStep {
    SetGroup,
    SetUser,
    NoNewPrivs,
    Done,
}

/// What follows a step of giving privileges up. `ok` says whether it worked; `uid` and `euid` are
/// the process's real and effective user after it.
pub fn drop_to_real_user(step: DropStep, ok: bool, uid: u32, euid: u32) -> (r: Result<
    DropStep,
    DropError,
>)
    ensures
        r == match step {
            DropStep::SetGroup => if ok {
                Ok(DropStep::SetUser)
            } else {
                Err(DropError::SetGroup)
            },
            DropStep::SetUser => if !ok {
                Err(DropError::SetUser)
            } else if euid == 0 && uid != 0 {
                Err(DropError::StillRoot)
            } else {
                Ok(DropStep::NoNewPrivs)
            },
            DropStep::NoNewPrivs => if ok {
                Ok(DropStep::Done)
            } else {
                Err(DropError::NoNewPrivs)
            },
            DropStep::Done => Ok(DropStep::Done),
        },
        r == after_drop(step, ok, uid, euid),
{
    match step {
        DropStep::SetGroup => if ok {
            Ok(DropStep::SetUser)
        } else {
            Err(DropError::SetGroup)
        },
        DropStep::SetUser => if !ok {
            Err(DropError::SetUser)
        } else if euid == 0 && uid != 0 {
            Err(DropError::StillRoot)
        } else {
            Ok(DropStep::NoNewPrivs)
        },
        DropStep::NoNewPrivs => if ok {
            Ok(DropStep::Done)
        } else {
            Err(DropError::NoNewPrivs)
        },
        DropStep::Done => Ok(DropStep::Done),
    }
}

impl DropError {
    /// The message of the error; `os` is what the system said of it.
    pub fn message(&self, os: &str) -> (r: String)
        ensures
            r@ == match *self {
                DropError::SetGroup => "setresgid: "@ + os@,
                DropError::SetUser => "setresuid: "@ + os@,
                DropError::StillRoot => "setresuid did not take effect (still euid 0)"@,
                DropError::NoNewPrivs => "PR_SET_NO_NEW_PRIVS: "@ + os@,
            },
    {
        let mut out = String::new();
        match self {
            DropError::SetGroup => {
                out.append("setresgid: ");
                out.append(os);
                assert(out@ =~= "setresgid: "@ + os@);
            },
            DropError::SetUser => {
                out.append("setresuid: ");
                out.append(os);
                assert(out@ =~= "setresuid: "@ + os@);
            },
            DropError::StillRoot => {
                out.append("setresuid did not take effect (still euid 0)");
                assert(out@ =~= "setresuid did not take effect (still euid 0)"@);
            },
            DropError::NoNewPrivs => {
                out.append("PR_SET_NO_NEW_PRIVS: ");
                out.append(os);
                assert(out@ =~= "PR_SET_NO_NEW_PRIVS: "@ + os@);
            },
        }
        out
    }
}

/// The exit code that a status holds.
pub open spec fn code_of(status: i32) -> i32 {
    if status & 0x7f == 0 {
        (status >> 8) & 0xff
    } else {
        -1i32
    }
}

/// A child that ended by itself is told apart from one that a signal ended: the code that it ended
/// with is read back from its status, whatever it was, and a signal gives none.
pub proof fn law_exit_code_is_read_back(code: u8, signal: u8)
    requires
        0 < signal < 0x80,
    ensures
        code_of(((code as i32) << 8) as i32) == code,
        code_of(signal as i32) == -1,
{
    let c = code as i32;
    let g = signal as i32;
    assert((c << 8) & 0x7f == 0 && ((c << 8) >> 8) & 0xff == c) by (bit_vector)
        requires
            0 <= c <= 255,
    ;
    assert(g & 0x7f == g) by (bit_vector)
        requires
            0 < g < 0x80,
    ;
}

/// What follows a step of giving privileges up.
pub open spec fn after_drop(step: DropStep, ok: bool, uid: u32, euid: u32) -> Result<
    DropStep,
    DropError,
> {
    match step {
        DropStep::SetGroup => if ok {
            Ok(DropStep::SetUser)
        } else {
            Err(DropError::SetGroup)
        },
        DropStep::SetUser => if !ok {
            Err(DropError::SetUser)
        } else if euid == 0 && uid != 0 {
            Err(DropError::StillRoot)
        } else {
            Ok(DropStep::NoNewPrivs)
        },
        DropStep::NoNewPrivs => if ok {
            Ok(DropStep::Done)
        } else {
            Err(DropError::NoNewPrivs)
        },
        DropStep::Done => Ok(DropStep::Done),
    }
}

/// Privileges are given up only where every step worked: no step that failed is passed over, none is
/// left out, and a process that is still root's, though its user is not, does not go on. Each failure
/// names its step.
pub proof fn law_privileges_are_given_up_in_full(step: DropStep, ok: bool, uid: u32, euid: u32)
    ensures
        ({
            let r = after_drop(step, ok, uid, euid);
            &&& step != DropStep::Done && !ok ==> r is Err
            &&& r == Ok::<DropStep, DropError>(DropStep::SetUser) <==> step == DropStep::SetGroup && ok
            &&& r == Ok::<DropStep, DropError>(DropStep::NoNewPrivs) <==> step == DropStep::SetUser
                && ok && !(euid == 0 && uid != 0)
            &&& r == Ok::<DropStep, DropError>(DropStep::Done) <==> step == DropStep::Done || (step
                == DropStep::NoNewPrivs && ok)
            &&& r == Err::<DropStep, DropError>(DropError::SetGroup) <==> step == DropStep::SetGroup
                && !ok
            &&& r == Err::<DropStep, DropError>(DropError::SetUser) <==> step == DropStep::SetUser
                && !ok
            &&& r == Err::<DropStep, DropError>(DropError::StillRoot) <==> step == DropStep::SetUser
                && ok && euid == 0 && uid != 0
        }),
{
}

} // verus!
