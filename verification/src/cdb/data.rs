//! The bytes a reader works on: held on the heap or mapped from a file.

use crate::boxed::into_boxed_slice;
use memmap::Mmap;
use vstd::prelude::*;
use vstd::std_specs::convert::FromSpecImpl;

verus! {

/// `memmap::Mmap`: a file mapped into memory, read-only. Nothing of its
/// inside is visible here.
#[verifier::external_type_specification]
#[verifier::external_body]
pub struct ExMmap(Mmap);

/// How the bytes of a database file are brought into memory.
#[derive(Copy, Clone, Debug, PartialEq, Eq, Structural)]
pub enum LoadOption {
    /// The whole file is read into a buffer on the heap.
    HEAP,
    /// The file is mapped into memory, read-only.
    MMAP,
}

/// The bytes of a database, wherever they are kept.
pub enum CDBData {
    /// Bytes owned on the heap.
    Boxed(Box<[u8]>),
    /// Bytes of a file mapped into memory.
    Mmapped(Mmap),
}

/// `Deref::deref` on a `Mmap`: the mapped region as a byte slice. What the
/// region holds is whatever the file holds, so nothing is said of it.
#[verifier::external_body]
fn mapped_bytes(map: &Mmap) -> (bytes: &[u8]) {
    &map[..]
}

impl CDBData {
    /// The bytes, as one slice. For bytes owned on the heap these are the
    /// bytes the value was made from.
    pub fn as_bytes(&self) -> (bytes: &[u8])
        ensures
            match *self {
                CDBData::Boxed(b) => bytes@ == b@,
                CDBData::Mmapped(_) => true,
            },
    {
        match self {
            CDBData::Mmapped(map) => mapped_bytes(map),
            CDBData::Boxed(bx) => &bx[0..bx.len()],
        }
    }
}

impl From<Mmap> for CDBData {
    fn from(m: Mmap) -> (d: CDBData) {
        CDBData::Mmapped(m)
    }
}

impl FromSpecImpl<Mmap> for CDBData {
    open spec fn obeys_from_spec() -> bool {
        true
    }

    open spec fn from_spec(m: Mmap) -> CDBData {
        CDBData::Mmapped(m)
    }
}

impl From<Box<[u8]>> for CDBData {
    fn from(b: Box<[u8]>) -> (d: CDBData) {
        CDBData::Boxed(b)
    }
}

impl FromSpecImpl<Box<[u8]>> for CDBData {
    open spec fn obeys_from_spec() -> bool {
        true
    }

    open spec fn from_spec(b: Box<[u8]>) -> CDBData {
        CDBData::Boxed(b)
    }
}

impl From<Vec<u8>> for CDBData {
    fn from(v: Vec<u8>) -> (d: CDBData)
        ensures
            d is Boxed,
            d->Boxed_0@ == v@,
    {
        let b = into_boxed_slice(v);
        proof {
            let c = choose|c: Box<[u8]>| c@ == v@;
            assert(c@ == v@);
            assert(b =~= c);
        }
        CDBData::Boxed(b)
    }
}

impl FromSpecImpl<Vec<u8>> for CDBData {
    open spec fn obeys_from_spec() -> bool {
        true
    }

    open spec fn from_spec(v: Vec<u8>) -> CDBData {
        CDBData::Boxed(choose|b: Box<[u8]>| b@ == v@)
    }
}

} // verus!
