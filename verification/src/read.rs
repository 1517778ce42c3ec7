//! Reading files under a size ceiling.
//!
//! The caller opens the file and reads at most one byte more than the
//! ceiling; the checks on the metadata it saw and on the bytes it got are
//! verified here. The second length check is deliberate: the file may
//! have grown between the metadata check and the read.

use vstd::prelude::*;

use crate::errors::FsError;

verus! {

/// The read ceiling: files above this many bytes are refused.
pub const MAX_FILE_SIZE: u64 = 1024 * 1024;

/// Checks what the metadata reported before any byte is read: the entry
/// must be a regular file no larger than the ceiling.
pub fn read_file_precheck(is_file: bool, meta_len: u64) -> (r: Result<(), FsError>)
    ensures
        r is Ok <==> (is_file && meta_len <= MAX_FILE_SIZE),
        match r {
            Ok(()) => true,
            Err(e) => {
                &&& !is_file ==> e == FsError::NotRegularFile
                &&& (is_file && meta_len > MAX_FILE_SIZE) ==> e == FsError::SizeLimitExceeded
            },
        },
{
    if !is_file {
        Err(FsError::NotRegularFile)
    } else if meta_len > MAX_FILE_SIZE {
        Err(FsError::SizeLimitExceeded)
    } else {
        Ok(())
    }
}

/// Relies on `String::from_utf8`: the bytes decoded as UTF-8 where they
/// are a valid encoding, and a refusal where they are not.
#[verifier::external_body]
fn decode_bytes(bytes: Vec<u8>) -> (r: Result<String, FsError>)
    ensures
        r is Ok <==> vstd::utf8::valid_utf8(bytes@),
        match r {
            Ok(s) => s@ == vstd::utf8::decode_utf8(bytes@),
            Err(e) => e == FsError::Encoding,
        },
{
    match String::from_utf8(bytes) {
        Ok(s) => Ok(s),
        Err(_) => Err(FsError::Encoding),
    }
}

/// Checks the bytes actually read — they may exceed what the metadata
/// promised — and decodes them. A file of exactly the ceiling size is
/// accepted; one byte over it is refused.
pub fn read_file_finish(bytes: Vec<u8>) -> (r: Result<String, FsError>)
    ensures
        r is Ok <==> (bytes@.len() <= MAX_FILE_SIZE && vstd::utf8::valid_utf8(bytes@)),
        match r {
            Ok(s) => s@ == vstd::utf8::decode_utf8(bytes@),
            Err(e) => {
                &&& bytes@.len() > MAX_FILE_SIZE ==> e == FsError::SizeLimitExceeded
                &&& (bytes@.len() <= MAX_FILE_SIZE && !vstd::utf8::valid_utf8(bytes@)) ==> e
                    == FsError::Encoding
            },
        },
{
    if bytes.len() as u64 > MAX_FILE_SIZE {
        return Err(FsError::SizeLimitExceeded);
    }
    decode_bytes(bytes)
}

/// The contents of the read results that succeeded, in input order.
pub open spec fn spec_successes(rs: Seq<Result<String, FsError>>) -> Seq<Seq<char>>
    decreases rs.len(),
{
    if rs.len() == 0 {
        Seq::<Seq<char>>::empty()
    } else {
        (match rs[0] {
            Ok(s) => seq![s@],
            Err(_) => Seq::<Seq<char>>::empty(),
        }) + spec_successes(rs.drop_first())
    }
}

/// Projects the per-path read results onto the list of contents that
/// could be read, keeping input order. A failed path is dropped, so the
/// output may be shorter than the input; the call itself never fails.
pub fn read_multiple_files(results: Vec<Result<String, FsError>>) -> (r: Vec<String>)
    ensures
        r@.map_values(|s: String| s@) == spec_successes(results@),
{
    let ghost all = results@;
    proof {
        assert(all.subrange(0, all.len() as int) =~= all);
    }
    let mut out: Vec<String> = Vec::new();
    let mut i: usize = 0;
    while i < results.len()
        invariant
            0 <= i <= all.len(),
            all == results@,
            out@.map_values(|s: String| s@) + spec_successes(
                all.subrange(i as int, all.len() as int),
            ) == spec_successes(all),
        decreases all.len() - i,
    {
        let ghost tail = all.subrange(i as int, all.len() as int);
        proof {
            assert(tail.drop_first() =~= all.subrange(i + 1, all.len() as int));
        }
        match &results[i] {
            Ok(s) => {
                out.push(s.clone());
                proof {
                    assert(out@.map_values(|s: String| s@)
                        =~= out@.drop_last().map_values(|s: String| s@) + seq![all[i as int]->Ok_0@]);
                    assert(out@.map_values(|s: String| s@) + spec_successes(
                        all.subrange(i + 1, all.len() as int),
                    ) =~= spec_successes(all));
                }
            },
            Err(_) => {
                proof {
                    assert(out@.map_values(|s: String| s@) + spec_successes(
                        all.subrange(i + 1, all.len() as int),
                    ) =~= spec_successes(all));
                }
            },
        }
        i += 1;
    }
    proof {
        assert(all.subrange(all.len() as int, all.len() as int)
            =~= Seq::<Result<String, FsError>>::empty());
        assert(out@.map_values(|s: String| s@) =~= spec_successes(all));
    }
    out
}

} // verus!
