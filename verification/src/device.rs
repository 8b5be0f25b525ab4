//! Opening input devices.

use vstd::prelude::*;

verus! {

/// `libc::O_RDONLY`: no bit at all, on Linux.
#[verifier::external_body]
fn o_rdonly() -> (flag: i32)
    ensures
        flag == 0,
{
    libc::O_RDONLY
}

/// `libc::O_WRONLY`: the lowest bit, on Linux.
#[verifier::external_body]
fn o_wronly() -> (flag: i32)
    ensures
        flag == 1,
{
    libc::O_WRONLY
}

/// `libc::O_RDWR`: the second lowest bit, on Linux.
#[verifier::external_body]
fn o_rdwr() -> (flag: i32)
    ensures
        flag == 2,
{
    libc::O_RDWR
}

/// How a device is opened.
#[derive(Debug, Clone, Copy, PartialEq, Eq, Structural)]
pub struct Access {
    pub read: bool,
    pub write: bool,
}

/// The access that the `open` flags `flags` ask for, bit by bit. Flags that ask
/// for reading alone have no bit of their own, and give no access.
pub fn requested_access(flags: i32) -> (access: Access)
    ensures
        access.read <==> flags & 2 != 0,
        access.write <==> flags & 1 != 0 || flags & 2 != 0,
{
    assert(flags & 0 == 0) by (bit_vector);
    Access {
        read: flags & o_rdonly() != 0 || flags & o_rdwr() != 0,
        write: flags & o_wronly() != 0 || flags & o_rdwr() != 0,
    }
}

} // verus!
