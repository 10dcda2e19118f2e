//! The header record of an entry, and the fields the reader takes from it.

use vstd::prelude::*;
use crate::block::{all_zero, checksum, expected_checksum, lemma_byte_sum_update};
use crate::error::{Corruption, Error, Fault, Field, FieldError};
use crate::octal::{
    all_octal, digits_of, is_octal_digit, lemma_digits_len, lemma_nul_from_range,
    lemma_octal_limit_grows, lemma_octal_value_bound, lemma_spaces_end_range,
    lemma_spaces_start_range, nul_from, octal_field, octal_limit, parse_octal, spaces_end,
    text_of,
};

verus! {

/// The 512 bytes that stand before the body of an entry.
#[derive(Clone, Copy, Debug)]
pub struct Header {
    pub bytes: [u8; 512],
}

impl View for Header {
    type V = Seq<u8>;

    open spec fn view(&self) -> Seq<u8> {
        self.bytes@
    }
}

/// The bytes of the name field.
pub open spec fn name_field(block: Seq<u8>) -> Seq<u8> {
    block.subrange(0, 100)
}

/// The bytes of the size field.
pub open spec fn size_field(block: Seq<u8>) -> Seq<u8> {
    block.subrange(124, 136)
}

/// The bytes of the checksum field.
pub open spec fn checksum_field(block: Seq<u8>) -> Seq<u8> {
    block.subrange(148, 156)
}

/// The bytes of the prefix field.
pub open spec fn prefix_field(block: Seq<u8>) -> Seq<u8> {
    block.subrange(345, 500)
}

/// Whether the record carries the `ustar` mark.
pub open spec fn is_ustar(block: Seq<u8>) -> bool {
    block.subrange(257, 262) == seq![0x75u8, 0x73u8, 0x74u8, 0x61u8, 0x72u8]
}

/// The body size that the record declares.
pub open spec fn declared_size(block: Seq<u8>) -> Result<u64, FieldError> {
    match octal_field(size_field(block)) {
        Ok(size) => Ok(size),
        Err(fault) => Err(FieldError { field: Field::Size, fault }),
    }
}

/// The checksum that the record stores.
pub open spec fn stored_checksum(block: Seq<u8>) -> Result<u64, FieldError> {
    match octal_field(checksum_field(block)) {
        Ok(sum) => Ok(sum),
        Err(fault) => Err(FieldError { field: Field::Checksum, fault }),
    }
}

/// What a header is worth: its declared size where both numeric fields
/// decode and the stored checksum is the checksum of the record, else the
/// first thing that is wrong with it, the size field being looked at first.
pub open spec fn checked_size(block: Seq<u8>) -> Result<u64, Error> {
    match declared_size(block) {
        Err(e) => Err(Error::FieldDecode(e)),
        Ok(size) => match stored_checksum(block) {
            Err(e) => Err(Error::FieldDecode(e)),
            Ok(sum) => if sum == expected_checksum(block) {
                Ok(size)
            } else {
                Err(Error::HeaderCorruption(Corruption::ChecksumMismatch))
            },
        },
    }
}

/// `bytes` with every backslash turned into a slash.
pub open spec fn slashed(bytes: Seq<u8>) -> Seq<u8> {
    Seq::new(bytes.len(), |i: int| if bytes[i] == 0x5c { 0x2fu8 } else { bytes[i] })
}

/// The path that the record names: the name, behind the prefix and a slash
/// where the record is a `ustar` one with a prefix, with slashes for
/// backslashes.
pub open spec fn path_of(block: Seq<u8>) -> Seq<u8> {
    let name = slashed(text_of(name_field(block)));
    let prefix = slashed(text_of(prefix_field(block)));
    if is_ustar(block) && prefix.len() > 0 {
        prefix + seq![0x2fu8] + name
    } else {
        name
    }
}

/// A record of zeros is no header: its size field holds no digits.
pub proof fn lemma_zero_block_is_no_header(block: Seq<u8>)
    requires
        block.len() == 512,
        all_zero(block),
    ensures
        checked_size(block) == Err::<u64, Error>(
            Error::FieldDecode(FieldError { field: Field::Size, fault: Fault::NotOctal }),
        ),
{
    let text = text_of(size_field(block));
    assert(text.len() == 0);
    lemma_spaces_end_range(text, 0);
}

/// A field that decodes holds a byte that is not zero.
pub proof fn lemma_decoded_field_is_not_zero(field: Seq<u8>)
    requires
        octal_field(field) is Ok,
    ensures
        !all_zero(field),
{
    let text = text_of(field);
    let first = spaces_end(text, 0);
    lemma_nul_from_range(field, 0);
    lemma_spaces_end_range(text, 0);
    lemma_spaces_start_range(text, first, text.len() as int);
    assert(is_octal_digit(digits_of(field)[0]));
}

/// A header that is changed in one byte outside its checksum field no
/// longer matches its checksum, as long as its size field still decodes.
pub proof fn lemma_changed_byte_fails_checksum(block: Seq<u8>, at: int, value: u8)
    requires
        block.len() == 512,
        checked_size(block) is Ok,
        0 <= at < 512,
        !(148 <= at < 156),
        value != block[at],
        declared_size(block.update(at, value)) is Ok,
    ensures
        checked_size(block.update(at, value)) == Err::<u64, Error>(
            Error::HeaderCorruption(Corruption::ChecksumMismatch),
        ),
        !all_zero(block.update(at, value)),
{
    let changed = block.update(at, value);
    assert(checksum_field(changed) =~= checksum_field(block));
    if at < 148 {
        lemma_byte_sum_update(block.subrange(0, 148), at, value);
        assert(changed.subrange(0, 148) =~= block.subrange(0, 148).update(at, value));
        assert(changed.subrange(156, 512) =~= block.subrange(156, 512));
    } else {
        lemma_byte_sum_update(block.subrange(156, 512), at - 156, value);
        assert(changed.subrange(156, 512) =~= block.subrange(156, 512).update(at - 156, value));
        assert(changed.subrange(0, 148) =~= block.subrange(0, 148));
    }
    lemma_decoded_field_is_not_zero(checksum_field(changed));
}

/// A size field has room for twelve digits, so a declared size is below
/// eight to the twelfth.
pub proof fn lemma_declared_size_bound(block: Seq<u8>)
    requires
        block.len() == 512,
    ensures
        declared_size(block) is Ok ==> declared_size(block)->Ok_0 < 0x10_0000_0000,
        !(declared_size(block) matches Err(e) && e.fault == Fault::TooLarge),
{
    let digits = digits_of(size_field(block));
    lemma_digits_len(size_field(block));
    if digits.len() > 0 && all_octal(digits) {
        lemma_octal_value_bound(digits);
        lemma_octal_limit_grows(digits.len(), 12);
        reveal_with_fuel(octal_limit, 13);
    }
}

/// A checksum field has room for eight digits, so a stored checksum is below
/// eight to the eighth.
pub proof fn lemma_stored_checksum_bound(block: Seq<u8>)
    requires
        block.len() == 512,
    ensures
        stored_checksum(block) is Ok ==> stored_checksum(block)->Ok_0 < 0x100_0000,
        !(stored_checksum(block) matches Err(e) && e.fault == Fault::TooLarge),
{
    let digits = digits_of(checksum_field(block));
    lemma_digits_len(checksum_field(block));
    if digits.len() > 0 && all_octal(digits) {
        lemma_octal_value_bound(digits);
        lemma_octal_limit_grows(digits.len(), 8);
        reveal_with_fuel(octal_limit, 9);
    }
}

/// Appends to `path` the text of the field `bytes[from..to]`, with slashes
/// for backslashes.
fn push_text(path: &mut Vec<u8>, bytes: &[u8; 512], from: usize, to: usize)
    requires
        from <= to <= 512,
    ensures
        final(path)@ == old(path)@ + slashed(text_of(bytes@.subrange(from as int, to as int))),
{
    let ghost field = bytes@.subrange(from as int, to as int);
    let mut i: usize = from;
    while i < to && bytes[i] != 0
        invariant
            from <= i <= to <= 512,
            field == bytes@.subrange(from as int, to as int),
            nul_from(field, 0) == nul_from(field, i - from),
            path@ == old(path)@ + slashed(field.take(i - from)),
        decreases to - i,
    {
        let byte: u8 = bytes[i];
        path.push(if byte == 0x5c { 0x2f } else { byte });
        i += 1;
    }
}

impl Header {
    /// Wraps a record.
    pub fn new(bytes: [u8; 512]) -> (header: Header)
        ensures
            header@ == bytes@,
    {
        Header { bytes }
    }

    /// The record itself.
    pub fn as_bytes(&self) -> (bytes: &[u8; 512])
        ensures
            bytes@ == self@,
    {
        &self.bytes
    }

    /// The body size that the header declares.
    pub fn size(&self) -> (r: Result<u64, FieldError>)
        ensures
            r == declared_size(self@),
            r is Ok ==> r->Ok_0 < 0x10_0000_0000,
    {
        proof {
            lemma_declared_size_bound(self@);
        }
        match parse_octal(vstd::slice::slice_subrange(self.bytes.as_slice(), 124, 136)) {
            Ok(size) => Ok(size),
            Err(fault) => Err(FieldError { field: Field::Size, fault }),
        }
    }

    /// The checksum that the header stores.
    pub fn cksum(&self) -> (r: Result<u32, FieldError>)
        ensures
            match r {
                Ok(sum) => stored_checksum(self@) == Ok::<u64, FieldError>(sum as u64),
                Err(e) => stored_checksum(self@) == Err::<u64, FieldError>(e),
            },
    {
        proof {
            lemma_stored_checksum_bound(self@);
        }
        match parse_octal(vstd::slice::slice_subrange(self.bytes.as_slice(), 148, 156)) {
            Ok(sum) => Ok(sum as u32),
            Err(fault) => Err(FieldError { field: Field::Checksum, fault }),
        }
    }

    /// Checks the header and gives the size of the body that follows it.
    pub fn validate(&self) -> (r: Result<u64, Error>)
        ensures
            r == checked_size(self@),
            r is Ok ==> r->Ok_0 < 0x10_0000_0000,
    {
        let expected: u32 = checksum(&self.bytes);
        let size: u64 = match self.size() {
            Ok(size) => size,
            Err(e) => {
                return Err(Error::FieldDecode(e));
            },
        };
        let stored: u32 = match self.cksum() {
            Ok(sum) => sum,
            Err(e) => {
                return Err(Error::FieldDecode(e));
            },
        };
        if stored != expected {
            return Err(Error::HeaderCorruption(Corruption::ChecksumMismatch));
        }
        Ok(size)
    }

    /// The type flag of the entry.
    pub fn entry_type(&self) -> (flag: u8)
        ensures
            flag == self@[156],
    {
        self.bytes[156]
    }

    /// Tells whether the header carries the `ustar` mark.
    pub fn is_ustar(&self) -> (r: bool)
        ensures
            r == is_ustar(self@),
    {
        let r: bool = self.bytes[257] == 0x75 && self.bytes[258] == 0x73 && self.bytes[259] == 0x74
            && self.bytes[260] == 0x61 && self.bytes[261] == 0x72;
        proof {
            if r {
                assert(self@.subrange(257, 262) =~= seq![0x75u8, 0x73u8, 0x74u8, 0x61u8, 0x72u8]);
            }
        }
        r
    }

    /// The path of the entry, as the bytes the header holds for it.
    pub fn path_bytes(&self) -> (path: Vec<u8>)
        ensures
            path@ == path_of(self@),
    {
        let mut path: Vec<u8> = Vec::new();
        if self.is_ustar() && self.bytes[345] != 0 {
            push_text(&mut path, &self.bytes, 345, 500);
            path.push(0x2f);
        }
        push_text(&mut path, &self.bytes, 0, 100);
        proof {
            lemma_nul_from_range(prefix_field(self@), 1);
        }
        path
    }
}

} // verus!
