//! Library-selection configuration: which standard capabilities the guest
//! runtime exposes, as an explicit immutable flag set captured at creation
//! time and reapplied verbatim on reset.
//!
//! Host callers name capabilities by numeric flags; the flags build a
//! mask, and an unrecognized flag fails typed, naming the flag and the
//! guest version. The flag numbering mirrors the guest runtime's own
//! library masks, so a built mask passes through unchanged.

use vstd::prelude::*;
use vstd::string::StringExecFns;

use crate::digits::{spec_u64_decimal, u64_to_decimal};
use crate::error::{Error, ErrorModel};

verus! {

pub const LIB_COROUTINE: u32 = 0x1;

pub const LIB_TABLE: u32 = 0x2;

pub const LIB_IO: u32 = 0x4;

pub const LIB_OS: u32 = 0x8;

pub const LIB_STRING: u32 = 0x10;

pub const LIB_UTF8: u32 = 0x20;

pub const LIB_BIT: u32 = 0x40;

pub const LIB_MATH: u32 = 0x80;

pub const LIB_PACKAGE: u32 = 0x100;

pub const LIB_JIT: u32 = 0x200;

pub const LIB_FFI: u32 = 0x40000000;

pub const LIB_DEBUG: u32 = 0x80000000;

pub const LIB_ALL: u32 = u32::MAX;

/// The flag a caller passes to select every safe capability.
pub const FLAG_ALL_SAFE: u32 = u32::MAX - 1;

/// The mask of every safe capability: everything below the unsafe bits.
pub const MASK_ALL_SAFE: u32 = 0x3FFFFFFF;

/// The capability mask one flag selects, for the guest version this crate
/// is built against: the named capability itself, or nothing for a flag
/// that version does not offer.
pub open spec fn spec_flag_into_lib(flag: u32) -> Option<u32> {
    if flag == FLAG_ALL_SAFE {
        Some(MASK_ALL_SAFE)
    } else if flag == LIB_COROUTINE || flag == LIB_TABLE || flag == LIB_IO || flag == LIB_OS
        || flag == LIB_STRING || flag == LIB_UTF8 || flag == LIB_MATH || flag == LIB_PACKAGE
        || flag == LIB_DEBUG || flag == LIB_ALL {
        Some(flag)
    } else {
        None
    }
}

/// The capability mask one flag selects (see [`spec_flag_into_lib`]).
pub fn flag_into_lib(flag: u32) -> (r: Option<u32>)
    ensures
        r == spec_flag_into_lib(flag),
{
    if flag == FLAG_ALL_SAFE {
        Some(MASK_ALL_SAFE)
    } else if flag == LIB_COROUTINE || flag == LIB_TABLE || flag == LIB_IO || flag == LIB_OS
        || flag == LIB_STRING || flag == LIB_UTF8 || flag == LIB_MATH || flag == LIB_PACKAGE
        || flag == LIB_DEBUG || flag == LIB_ALL {
        Some(flag)
    } else {
        None
    }
}

/// The name a flag is reported under in error messages; an unknown flag
/// is reported by its decimal value.
pub open spec fn spec_flag_name(flag: u32) -> Seq<char> {
    if flag == LIB_COROUTINE {
        "coroutine"@
    } else if flag == LIB_TABLE {
        "table"@
    } else if flag == LIB_IO {
        "io"@
    } else if flag == LIB_OS {
        "os"@
    } else if flag == LIB_STRING {
        "string"@
    } else if flag == LIB_UTF8 {
        "utf8"@
    } else if flag == LIB_BIT {
        "bit"@
    } else if flag == LIB_MATH {
        "math"@
    } else if flag == LIB_PACKAGE {
        "package"@
    } else if flag == LIB_JIT {
        "jit"@
    } else if flag == LIB_FFI {
        "ffi"@
    } else if flag == LIB_DEBUG {
        "debug"@
    } else if flag == FLAG_ALL_SAFE {
        "ALL_SAFE"@
    } else if flag == LIB_ALL {
        "ALL"@
    } else {
        spec_u64_decimal(flag as nat)
    }
}

/// The name a flag is reported under (see [`spec_flag_name`]).
pub fn flag_to_string(flag: u32) -> (r: String)
    ensures
        r@ == spec_flag_name(flag),
{
    if flag == LIB_COROUTINE {
        String::from_str("coroutine")
    } else if flag == LIB_TABLE {
        String::from_str("table")
    } else if flag == LIB_IO {
        String::from_str("io")
    } else if flag == LIB_OS {
        String::from_str("os")
    } else if flag == LIB_STRING {
        String::from_str("string")
    } else if flag == LIB_UTF8 {
        String::from_str("utf8")
    } else if flag == LIB_BIT {
        String::from_str("bit")
    } else if flag == LIB_MATH {
        String::from_str("math")
    } else if flag == LIB_PACKAGE {
        String::from_str("package")
    } else if flag == LIB_JIT {
        String::from_str("jit")
    } else if flag == LIB_FFI {
        String::from_str("ffi")
    } else if flag == LIB_DEBUG {
        String::from_str("debug")
    } else if flag == FLAG_ALL_SAFE {
        String::from_str("ALL_SAFE")
    } else if flag == LIB_ALL {
        String::from_str("ALL")
    } else {
        u64_to_decimal(flag as u64)
    }
}

/// The message an unrecognized flag fails with.
pub open spec fn spec_unrecognized_flag_message(flag: u32, version: Seq<char>) -> Seq<char> {
    "unrecognized Library flag \""@ + spec_flag_name(flag) + "\" for "@ + version
}

/// What a flag list builds: the union of the selected capability masks,
/// or — for the first flag the guest version does not offer — a failure
/// naming that flag and the version.
pub open spec fn spec_build_libraries(flags: Seq<u32>, version: Seq<char>) -> Result<
    u32,
    ErrorModel,
>
    decreases flags,
{
    if flags.len() == 0 {
        Ok(0u32)
    } else {
        match spec_build_libraries(flags.drop_last(), version) {
            Err(e) => Err(e),
            Ok(mask) => match spec_flag_into_lib(flags.last()) {
                Some(lib) => Ok(mask | lib),
                None => Err(
                    ErrorModel::HostBoundary(
                        spec_unrecognized_flag_message(flags.last(), version),
                    ),
                ),
            },
        }
    }
}

/// Build the capability mask a flag list selects (see
/// [`spec_build_libraries`]).
#[verifier::loop_isolation(false)]
pub fn build_libraries(flags: &Vec<u32>, version: &str) -> (r: Result<u32, Error>)
    ensures
        match spec_build_libraries(flags@, version@) {
            Ok(mask) => r matches Ok(m) && m == mask,
            Err(em) => r matches Err(e) && e@ == em,
        },
{
    let mut mask: u32 = 0;
    let n = flags.len();
    let mut i: usize = 0;
    proof {
        assert(flags@.subrange(0, 0) =~= Seq::<u32>::empty());
    }
    while i < n
        invariant
            i <= n,
            spec_build_libraries(flags@.subrange(0, i as int), version@) == Ok::<
                _,
                ErrorModel,
            >(mask),
        decreases n - i,
    {
        let flag = flags[i];
        proof {
            assert(flags@.subrange(0, i + 1).drop_last() =~= flags@.subrange(0, i as int));
            assert(flags@.subrange(0, i + 1).last() == flags@[i as int]);
        }
        match flag_into_lib(flag) {
            Some(lib) => {
                mask = mask | lib;
            },
            None => {
                let mut msg = String::from_str("unrecognized Library flag \"");
                let name = flag_to_string(flag);
                msg.append(name.as_str());
                msg.append("\" for ");
                msg.append(version);
                proof {
                    lemma_build_libraries_err_extends(flags@, version@, i + 1);
                }
                return Err(Error::HostBoundary(msg));
            },
        }
        i = i + 1;
    }
    proof {
        assert(flags@.subrange(0, n as int) =~= flags@);
    }
    Ok(mask)
}

proof fn lemma_build_libraries_err_extends(flags: Seq<u32>, version: Seq<char>, k: int)
    requires
        0 <= k <= flags.len(),
        spec_build_libraries(flags.subrange(0, k), version) is Err,
    ensures
        spec_build_libraries(flags, version) == spec_build_libraries(
            flags.subrange(0, k),
            version,
        ),
    decreases flags.len() - k,
{
    if k == flags.len() {
        assert(flags.subrange(0, k) =~= flags);
    } else {
        assert(flags.drop_last().subrange(0, k) =~= flags.subrange(0, k));
        lemma_build_libraries_err_extends(flags.drop_last(), version, k);
    }
}

/// Whether a capability mask reaches outside the guest's safety checks,
/// for the guest version this crate is built against: only the debugging
/// capability does.
pub fn stdlib_contains_unsafe(mask: u32) -> (r: bool)
    ensures
        r == (mask & LIB_DEBUG != 0),
{
    mask & LIB_DEBUG != 0
}

} // verus!
