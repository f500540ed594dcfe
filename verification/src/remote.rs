//! The remote-memory access layer: bulk reads and writes of another
//! process's address space through the vectored process-memory syscalls,
//! and the snapshot of its memory-map table.  These are the only places
//! where the library touches the outside world.
use crate::error::{BetrayalError, BetrayalResult};
use crate::region::{AddressInfo, MapPath, Region};
use procmaps::Path;
use vstd::prelude::*;

verus! {

/// Relies on nix's `process_vm_readv`: on success it returns how many bytes
/// were copied into the local buffer.  The read is all-or-nothing: anything
/// short of `bytes_requested` is reported as `PartialRead`.  What the bytes
/// hold depends on the target process and is promised nowhere.
#[verifier::external_body]
pub fn read_memory(pid: i32, address: usize, bytes_requested: usize) -> (r: BetrayalResult<
    Vec<u8>,
>)
    ensures
        match r {
            Ok(buffer) => buffer@.len() == bytes_requested,
            Err(e) => e is PartialRead,
        },
{
    let mut buffer = vec![0u8; bytes_requested];
    let remote = nix::sys::uio::RemoteIoVec { base: address, len: bytes_requested };
    let mut local = [std::io::IoSliceMut::new(&mut buffer)];
    match nix::sys::uio::process_vm_readv(nix::unistd::Pid::from_raw(pid), &mut local, &[remote]) {
        Ok(n) if n == bytes_requested => Ok(buffer),
        _ => Err(BetrayalError::PartialRead),
    }
}

/// Relies on nix's `process_vm_writev`: on success it returns how many
/// bytes were written.  The write is all-or-nothing: a refusal by the
/// kernel or a short write is reported as `BadWrite`.
#[verifier::external_body]
pub fn write_memory(pid: i32, address: usize, buffer: Vec<u8>) -> (r: BetrayalResult<()>)
    ensures
        r is Err ==> r->Err_0 is BadWrite,
{
    let remote = nix::sys::uio::RemoteIoVec { base: address, len: buffer.len() };
    let local = [std::io::IoSlice::new(&buffer)];
    match nix::sys::uio::process_vm_writev(nix::unistd::Pid::from_raw(pid), &local, &[remote]) {
        Ok(n) if n == buffer.len() => Ok(()),
        Ok(n) => Err(BetrayalError::BadWrite(format!("bad write length: {} != {}", n, buffer.len()))),
        Err(e) => Err(BetrayalError::BadWrite(format!("write error: {}", e))),
    }
}

/// Relies on procmaps' `Mappings::from_pid`, which parses the OS's
/// per-process map table: each row is carried over field by field, with the
/// backing-path variants mapped one-to-one onto `MapPath`.  What rows come
/// back depends on the OS and is promised nowhere; a failure to read the
/// table is reported as `BadPid`.
#[verifier::external_body]
pub fn fetch_mappings(pid: i32) -> (r: BetrayalResult<Vec<(AddressInfo, Region)>>)
    ensures
        r is Err ==> r->Err_0 is BadPid,
        r matches Ok(maps) ==> forall|j: int|
            0 <= j < maps@.len() ==> (#[trigger] maps@[j]).0.writable == maps@[j].1.writable,
{
    let maps = procmaps::Mappings::from_pid(pid).map_err(|_e| BetrayalError::BadPid)?;
    let mut out: Vec<(AddressInfo, Region)> = Vec::new();
    for m in maps.iter() {
        let pathname = match &m.pathname {
            Path::MappedFile(s) => MapPath::MappedFile(s.clone()),
            Path::Stack => MapPath::Stack,
            Path::ThreadStack(n) => MapPath::ThreadStack(*n),
            Path::Vdso => MapPath::Vdso,
            Path::Heap => MapPath::Heap,
            Path::Vvar => MapPath::Vvar,
            Path::Vsyscall => MapPath::Vsyscall,
        };
        out.push((AddressInfo { writable: m.perms.writable }, Region { base: m.base, ceiling: m.ceiling, readable: m.perms.readable, writable: m.perms.writable, executable: m.perms.executable, pathname }));
    }
    Ok(out)
}

} // verus!
