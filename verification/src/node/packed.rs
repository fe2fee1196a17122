//! Packed uploads: several objects that share slabs.

use vstd::arithmetic::div_mod::{
    lemma_fundamental_div_mod, lemma_mod_bound, lemma_mod_multiples_basic, lemma_mod_self_0,
    lemma_small_mod,
};
use vstd::prelude::*;
use vstd::string::*;

use crate::node::options::NativeUploadOptions;
use crate::progress::{slab_data_bytes, slab_data_size};
use crate::rhp::{ceil_div, div_ceil, lemma_ceil_div};

verus! {

/// The state of a packed upload: how many bytes were packed, and whether it still takes more.
pub struct NativePackedUpload {
    slab_size: u64,
    length: u64,
    closed: bool,
}

/// The contents of a packed upload's state.
#[verifier::ext_equal]
pub struct PackedUploadView {
    pub slab_size: u64,
    pub length: u64,
    pub closed: bool,
}

impl View for NativePackedUpload {
    type V = PackedUploadView;

    closed spec fn view(&self) -> PackedUploadView {
        PackedUploadView { slab_size: self.slab_size, length: self.length, closed: self.closed }
    }
}

/// The bytes that still fit in the slab that was begun; a whole slab where none was.
pub open spec fn packed_remaining(slab_size: int, length: int) -> int {
    if length == 0 {
        slab_size
    } else {
        (slab_size - length % slab_size) % slab_size
    }
}

impl NativePackedUpload {
    /// An upload with nothing in it.
    pub fn new(options: &NativeUploadOptions) -> (upload: NativePackedUpload)
        ensures
            upload@ == (PackedUploadView {
                slab_size: slab_data_bytes(options.resolved().data_shards) as u64,
                length: 0,
                closed: false,
            }),
            options.data_shards matches Some(n) ==> upload@.slab_size == n % 256 * 4194304,
            options.data_shards is None ==> upload@.slab_size == 10 * 4194304,
    {
        let options = options.resolve();
        let slab_size: u64 = slab_data_size(options.data_shards) as u64;
        NativePackedUpload { slab_size, length: 0, closed: false }
    }

    /// Returns the bytes that still fit in the slab that was begun.
    pub fn remaining(&self) -> (n: u64)
        requires
            self@.length > 0 ==> self@.slab_size > 0,
        ensures
            n == packed_remaining(self@.slab_size as int, self@.length as int),
            self@.length == 0 ==> n == self@.slab_size,
            self@.length > 0 ==> n < self@.slab_size && (self@.length + n) % (
            self@.slab_size as int) == 0,
    {
        proof {
            if self@.length > 0 {
                lemma_packed_fills_slabs(self@.slab_size as int, self@.length as int);
                lemma_mod_multiples_basic(
                    ceil_div(self@.length as int, self@.slab_size as int),
                    self@.slab_size as int,
                );
            }
        }
        if self.length == 0 {
            self.slab_size
        } else {
            proof {
                lemma_mod_bound(self.length as int, self.slab_size as int);
            }
            (self.slab_size - (self.length % self.slab_size)) % self.slab_size
        }
    }

    /// Returns the bytes that were packed.
    pub fn length(&self) -> (n: u64)
        ensures
            n == self@.length,
    {
        self.length
    }

    /// Returns the number of slabs that the packed bytes take.
    pub fn slabs(&self) -> (n: u64)
        requires
            self@.slab_size > 0,
        ensures
            n == ceil_div(self@.length as int, self@.slab_size as int),
            n * self@.slab_size >= self@.length,
            n * self@.slab_size < self@.length + self@.slab_size,
    {
        div_ceil(self.length, self.slab_size)
    }

    /// Tells whether bytes may be added.
    pub fn add(&self) -> (result: Result<(), String>)
        ensures
            result is Ok <==> !self@.closed,
            result matches Err(e) ==> e@ == "packed upload is closed"@,
    {
        if self.closed {
            Err("packed upload is closed".to_string())
        } else {
            Ok(())
        }
    }

    /// Records that `size` bytes were packed.
    pub fn added(&mut self, size: u64)
        ensures
            final(self)@ == (PackedUploadView {
                length: ((old(self)@.length + size) % 0x1_0000_0000_0000_0000) as u64,
                ..old(self)@
            }),
    {
        self.length = self.length.wrapping_add(size);
    }

    /// Closes the upload, to be finished.
    pub fn finalize(&mut self) -> (result: Result<(), String>)
        ensures
            final(self)@ == (PackedUploadView { closed: true, ..old(self)@ }),
            result is Ok <==> !old(self)@.closed,
            result matches Err(e) ==> e@ == "packed upload is closed"@,
    {
        self.close()
    }

    /// Closes the upload, to be dropped.
    pub fn cancel(&mut self) -> (result: Result<(), String>)
        ensures
            final(self)@ == (PackedUploadView { closed: true, ..old(self)@ }),
            result is Ok <==> !old(self)@.closed,
            result matches Err(e) ==> e@ == "packed upload is closed"@,
    {
        self.close()
    }

    fn close(&mut self) -> (result: Result<(), String>)
        ensures
            final(self)@ == (PackedUploadView { closed: true, ..old(self)@ }),
            result is Ok <==> !old(self)@.closed,
            result matches Err(e) ==> e@ == "packed upload is closed"@,
    {
        if self.closed {
            Err("packed upload is closed".to_string())
        } else {
            self.closed = true;
            Ok(())
        }
    }
}

/// Once something was packed, the packed bytes and those that still fit fill the slabs exactly,
/// and less than a slab is free.
pub proof fn lemma_packed_fills_slabs(slab_size: int, length: int)
    requires
        slab_size > 0,
        length > 0,
    ensures
        length + packed_remaining(slab_size, length) == ceil_div(length, slab_size) * slab_size,
        0 <= packed_remaining(slab_size, length) < slab_size,
{
    let r = length % slab_size;
    let q = length / slab_size;
    lemma_ceil_div(length, slab_size);
    lemma_fundamental_div_mod(length, slab_size);
    lemma_mod_bound(length, slab_size);
    lemma_mod_bound(slab_size - r, slab_size);
    if r == 0 {
        lemma_mod_self_0(slab_size);
        assert(q * slab_size == slab_size * q) by (nonlinear_arith);
    } else {
        lemma_small_mod((slab_size - r) as nat, slab_size as nat);
        assert((q + 1) * slab_size == slab_size * q + slab_size) by (nonlinear_arith);
    }
}

} // verus!
