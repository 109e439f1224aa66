use vstd::prelude::*;
use vstd::utf8::decode_utf8;
use vstd::utf8::valid_utf8;
use vstd::string::StringSliceAdditionalSpecFns;

use crate::ipc::Errno;
use crate::ipc::IpcState;
use crate::ipc::ipc_ready;

verus! {

/// The (negative) return code of a system call that failed with `e`.
pub open spec fn errno_code(e: Errno) -> int {
    match e {
        Errno::EUNKN => -1,
        Errno::ENOTDIR => -20,
        Errno::EBADSTR => -84,
        Errno::ERBEMPTY => -61,
        Errno::ERRCV => -90,
    }
}

/// The return code of a system call: the value on success, the error's code on failure.
pub open spec fn ret_code_of(r: Result<usize, Errno>) -> int {
    match r {
        Ok(v) => (v as isize) as int,
        Err(e) => errno_code(e),
    }
}

impl Errno {
    /// The return code that stands for this error.
    pub fn code(&self) -> (c: isize)
        ensures
            c == errno_code(*self),
            c < 0,
    {
        match self {
            Errno::EUNKN => -1,
            Errno::ENOTDIR => -20,
            Errno::EBADSTR => -84,
            Errno::ERBEMPTY => -61,
            Errno::ERRCV => -90,
        }
    }
}

/// Turns a system call's result into the value handed back to user space.
pub fn convert_syscall_result_to_ret_code(r: Result<usize, Errno>) -> (c: isize)
    ensures
        c == ret_code_of(r),
{
    match r {
        Ok(v) => v as isize,
        Err(e) => e.code(),
    }
}

/// The result that a system call's return code stands for.
pub open spec fn result_of_code(c: int) -> Result<usize, Errno> {
    if c >= 0 {
        Ok(c as usize)
    } else if c == -20 {
        Err(Errno::ENOTDIR)
    } else if c == -84 {
        Err(Errno::EBADSTR)
    } else if c == -61 {
        Err(Errno::ERBEMPTY)
    } else if c == -90 {
        Err(Errno::ERRCV)
    } else {
        Err(Errno::EUNKN)
    }
}

/// Turns a return code back into the result it stands for; a negative code that
/// names no error is `EUNKN`.
pub fn convert_ret_code_to_syscall_result(c: isize) -> (r: Result<usize, Errno>)
    ensures
        r == result_of_code(c as int),
{
    if c >= 0 {
        Ok(c as usize)
    } else if c == -20 {
        Err(Errno::ENOTDIR)
    } else if c == -84 {
        Err(Errno::EBADSTR)
    } else if c == -61 {
        Err(Errno::ERBEMPTY)
    } else if c == -90 {
        Err(Errno::ERRCV)
    } else {
        Err(Errno::EUNKN)
    }
}

/// Decoding a return code gives back the result it was made from, for every
/// success value that fits in a return code.
pub proof fn lemma_ret_code_round_trip(r: Result<usize, Errno>)
    requires
        r matches Ok(v) ==> v <= isize::MAX,
    ensures
        result_of_code(ret_code_of(r)) == r,
{
}

/// `core::str::from_utf8`: gives a `str` exactly when `bytes` are well-formed
/// UTF-8, and that `str` is made of those very bytes.
#[verifier::external_body]
fn str_from_utf8(bytes: &[u8]) -> (r: Option<&str>)
    ensures
        r is Some <==> valid_utf8(bytes@),
        r matches Some(s) ==> s.spec_bytes() == bytes@,
{
    core::str::from_utf8(bytes).ok()
}

/// Reads an endpoint name handed over by user space: `None` stands for a null
/// pointer (`ENOTDIR`), bytes that are not UTF-8 give `EBADSTR`.
pub fn ptr_to_string(name: Option<&[u8]>) -> (r: Result<String, Errno>)
    ensures
        name is None ==> r == Err::<String, Errno>(Errno::ENOTDIR),
        name matches Some(b) ==> (r is Ok <==> valid_utf8(b@)),
        name matches Some(b) ==> (!valid_utf8(b@) ==> r == Err::<String, Errno>(Errno::EBADSTR)),
        name matches Some(b) ==> (r matches Ok(s) ==> s@ == decode_utf8(b@)),
{
    match name {
        None => Err(Errno::ENOTDIR),
        Some(bytes) => match str_from_utf8(bytes) {
            Some(path_str) => {
                let s = path_str.to_string();
                proof {
                    vstd::utf8::encode_utf8_decode_utf8(path_str@);
                    assert(s@ == path_str@);
                }
                Ok(s)
            },
            None => Err(Errno::EBADSTR),
        },
    }
}

/// The `register` system call on a name given as UTF-8 bytes.
pub fn sys_register(ipc: &mut Option<IpcState>, name: Option<&[u8]>) -> (c: isize)
    requires
        ipc_ready(*old(ipc)),
        name matches Some(b) && valid_utf8(b@),
    ensures
        ipc_ready(*final(ipc)),
        *old(ipc) is None ==> *final(ipc) is None && c == errno_code(Errno::EUNKN),
        *old(ipc) is Some ==> *final(ipc) is Some && final(ipc)->Some_0@ == old(
            ipc,
        )->Some_0@.step_register(decode_utf8(name->Some_0@)).0 && c == (old(
            ipc,
        )->Some_0@.step_register(decode_utf8(name->Some_0@)).1 as isize),
{
    let ep_name = ptr_to_string(name);
    match ep_name {
        Ok(s) => {
            let syscall_result = crate::ipc::register(ipc, s.as_str());
            convert_syscall_result_to_ret_code(syscall_result)
        },
        Err(e) => convert_syscall_result_to_ret_code(Err(e)),
    }
}

/// The `lookup` system call on a name given as UTF-8 bytes.
pub fn sys_lookup(ipc: &Option<IpcState>, name: Option<&[u8]>) -> (c: isize)
    requires
        ipc_ready(*ipc),
        name matches Some(b) && valid_utf8(b@),
    ensures
        *ipc is None ==> c == errno_code(Errno::EUNKN),
        *ipc is Some ==> c == ret_code_of(ipc->Some_0@.step_lookup(decode_utf8(name->Some_0@))),
{
    let ep_name = ptr_to_string(name);
    match ep_name {
        Ok(s) => {
            let syscall_result = crate::ipc::lookup(ipc, s.as_str());
            convert_syscall_result_to_ret_code(syscall_result)
        },
        Err(e) => convert_syscall_result_to_ret_code(Err(e)),
    }
}

/// The `receive` system call: the oldest message of `handle` goes into `buff`.
pub fn sys_receive(ipc: &mut Option<IpcState>, handle: usize, buff: &mut Vec<u8>, recv_len: usize) -> (c:
    isize)
    requires
        ipc_ready(*old(ipc)),
        recv_len <= old(buff)@.len(),
    ensures
        ipc_ready(*final(ipc)),
        *old(ipc) is None ==> *final(ipc) is None && c == errno_code(Errno::EUNKN)
            && final(buff)@ == old(buff)@,
        *old(ipc) is Some ==> *final(ipc) is Some && final(ipc)->Some_0@ == old(
            ipc,
        )->Some_0@.step_receive(handle, recv_len as nat).0 && c == ret_code_of(
            old(ipc)->Some_0@.step_receive(handle, recv_len as nat).1,
        ),
        *old(ipc) is Some ==> (old(ipc)->Some_0@.step_receive(handle, recv_len as nat).1 matches Ok(
            n,
        ) ==> final(buff)@ == old(ipc)->Some_0@.endpoint(handle as int).queue[0] + old(
            buff,
        )@.subrange(n as int, old(buff)@.len() as int)),
        *old(ipc) is Some && old(ipc)->Some_0@.step_receive(handle, recv_len as nat).1 is Err
            ==> final(buff)@ == old(buff)@,
{
    let r = crate::ipc::receive_msg(ipc, handle, buff, recv_len);
    convert_syscall_result_to_ret_code(r)
}

/// The `send` system call: a copy of `msg` is queued at `handle`.
pub fn sys_send(ipc: &mut Option<IpcState>, handle: usize, msg: &[u8]) -> (c: isize)
    requires
        ipc_ready(*old(ipc)),
    ensures
        ipc_ready(*final(ipc)),
        *old(ipc) is None ==> *final(ipc) is None && c == errno_code(Errno::EUNKN),
        *old(ipc) is Some ==> *final(ipc) is Some && final(ipc)->Some_0@ == old(
            ipc,
        )->Some_0@.step_send(handle, msg@).0 && c == ret_code_of(
            old(ipc)->Some_0@.step_send(handle, msg@).1,
        ),
{
    convert_syscall_result_to_ret_code(crate::ipc::send_msg(ipc, handle, msg))
}

} // verus!
