//! The few points where the library leans on code it does not verify: the
//! read-only memory mapping that an archive is opened over, the case
//! conversion used for generated names, and two std functions that vstd
//! gives no specification.

use vstd::prelude::*;
use convert_case::{Case, Casing};

verus! {

#[verifier::external_type_specification]
#[verifier::external_body]
pub struct ExMmap(memmap2::Mmap);

/// The bytes that a read-only mapping exposes; fixed for the mapping's lifetime.
pub uninterp spec fn mmap_view(m: memmap2::Mmap) -> Seq<u8>;

/// Relies on memmap2's `Deref<Target = [u8]>` for `Mmap`, which yields the
/// whole mapped region, and on `<[u8]>::len`.
#[verifier::external_body]
pub(crate) fn mmap_len(m: &memmap2::Mmap) -> (r: usize)
    ensures
        r == mmap_view(*m).len(),
{
    let s: &[u8] = m;
    s.len()
}

/// Relies on memmap2's `Deref<Target = [u8]>` for `Mmap`, which yields the
/// whole mapped region; the range is then taken from that slice.
#[verifier::external_body]
pub(crate) fn mmap_slice<'a>(m: &'a memmap2::Mmap, start: usize, len: usize) -> (r: &'a [u8])
    requires
        start + len <= mmap_view(*m).len(),
    ensures
        r@ == mmap_view(*m).subrange(start as int, start as int + len as int),
{
    let s: &[u8] = m;
    &s[start..start + len]
}

/// What convert_case's `Casing::to_case` produces for `Case::Pascal`;
/// the result depends on the characters of the input alone.
pub uninterp spec fn pascal_of(s: Seq<char>) -> Seq<char>;

/// Relies on convert_case's `Casing::to_case` with `Case::Pascal`.
#[verifier::external_body]
pub(crate) fn to_pascal(s: &str) -> (r: String)
    ensures
        r@ == pascal_of(s@),
{
    s.to_case(Case::Pascal)
}

/// What convert_case's `Casing::to_case` produces for `Case::Snake`;
/// the result depends on the characters of the input alone.
pub uninterp spec fn snake_of(s: Seq<char>) -> Seq<char>;

/// Relies on convert_case's `Casing::to_case` with `Case::Snake`.
#[verifier::external_body]
pub(crate) fn to_snake(s: &str) -> (r: String)
    ensures
        r@ == snake_of(s@),
{
    s.to_case(Case::Snake)
}

/// Whether `v` is a Unicode scalar value, that is, a valid `char`.
pub open spec fn is_scalar_value(v: u32) -> bool {
    v < 0xD800 || (0xE000 <= v && v <= 0x10_FFFF)
}

/// Relies on `char::from_u32`, documented to return `None` exactly for
/// surrogate code points and values above `char::MAX`, and otherwise the
/// `char` with that value.
pub assume_specification[ char::from_u32 ](v: u32) -> (r: Option<char>)
    ensures
        r == if is_scalar_value(v) {
            Some(v as char)
        } else {
            None::<char>
        },
;

/// Relies on `String::push`, documented to append the given `char` to the
/// end of the string.
pub assume_specification[ String::push ](s: &mut String, c: char)
    ensures
        final(s)@ == old(s)@.push(c),
;

} // verus!
