//! The typed view model: offset-relative, zero-copy, bounds-checked reads
//! out of a decompressed record buffer.
//!
//! Every reference-like field stores a byte displacement that is added to
//! the address of the field itself, never to the start of the buffer. Every
//! resolution validates its computed range against the owning buffer and
//! raises a bounds error instead of reading outside it.

use vstd::prelude::*;
use vstd::slice::slice_subrange;

use crate::bytes::{le16, le32, le64, read_le16, read_le32, read_le64};

verus! {

/// A view's computed target fell outside the owning buffer.
#[derive(Clone, Copy, Debug, PartialEq, Eq)]
pub enum ViewError {
    Bounds,
}

/// A counted-array field header: a 32-bit element count followed by a
/// 64-bit displacement relative to the field's own position.
#[derive(Clone, Copy, Debug)]
pub struct Array {
    pub count: u32,
    pub offset: u64,
    /// The position of the field itself within its buffer.
    pub pos: usize,
}

impl Array {
    /// The resolved target address: the field's own position plus the
    /// stored displacement.
    pub open spec fn target(&self) -> int {
        self.pos + self.offset
    }

    /// Reads the 12-byte header at `pos`.
    pub fn read(buf: &[u8], pos: usize) -> (r: Result<Array, ViewError>)
        ensures
            match r {
                Ok(a) => pos + 12 <= buf@.len() && a.count == le32(buf@, pos as int) && a.offset
                    == le64(buf@, pos as int + 4) && a.pos == pos,
                Err(e) => e == ViewError::Bounds && pos + 12 > buf@.len(),
            },
    {
        let n = buf.len();
        if n < 12 || pos > n - 12 {
            return Err(ViewError::Bounds);
        }
        Ok(Array { count: read_le32(buf, pos), offset: read_le64(buf, pos + 4), pos })
    }

    /// Resolves the array: `count` contiguous elements of `elem_size` bytes
    /// each, located at the field's own address plus the displacement.
    pub fn as_slice<'a>(&self, buf: &'a [u8], elem_size: usize) -> (r: Result<&'a [u8], ViewError>)
        ensures
            match r {
                Ok(s) => self.target() + self.count * elem_size <= buf@.len() && s@
                    == buf@.subrange(self.target(), self.target() + self.count * elem_size),
                Err(e) => e == ViewError::Bounds && self.target() + self.count * elem_size
                    > buf@.len(),
            },
    {
        let n = buf.len();
        let total = match (self.count as u64).checked_mul(elem_size as u64) {
            Some(t) => t,
            None => {
                return Err(ViewError::Bounds);
            },
        };
        let start = match (self.pos as u64).checked_add(self.offset) {
            Some(s) => s,
            None => {
                return Err(ViewError::Bounds);
            },
        };
        let end = match start.checked_add(total) {
            Some(e) => e,
            None => {
                return Err(ViewError::Bounds);
            },
        };
        if end > n as u64 {
            return Err(ViewError::Bounds);
        }
        Ok(slice_subrange(buf, start as usize, end as usize))
    }
}

/// A single-reference field header: one 64-bit displacement relative to the
/// field's own position.
#[derive(Clone, Copy, Debug)]
pub struct Ref {
    pub offset: u64,
    /// The position of the field itself within its buffer.
    pub pos: usize,
}

impl Ref {
    /// The resolved target address: the field's own position plus the
    /// stored displacement.
    pub open spec fn target(&self) -> int {
        self.pos + self.offset
    }

    /// Reads the 8-byte header at `pos`.
    pub fn read(buf: &[u8], pos: usize) -> (r: Result<Ref, ViewError>)
        ensures
            match r {
                Ok(a) => pos + 8 <= buf@.len() && a.offset == le64(buf@, pos as int) && a.pos
                    == pos,
                Err(e) => e == ViewError::Bounds && pos + 8 > buf@.len(),
            },
    {
        let n = buf.len();
        if n < 8 || pos > n - 8 {
            return Err(ViewError::Bounds);
        }
        Ok(Ref { offset: read_le64(buf, pos), pos })
    }

    /// Resolves the reference: one element of `elem_size` bytes at the
    /// field's own address plus the displacement.
    pub fn as_ref<'a>(&self, buf: &'a [u8], elem_size: usize) -> (r: Result<&'a [u8], ViewError>)
        ensures
            match r {
                Ok(s) => self.target() + elem_size <= buf@.len() && s@ == buf@.subrange(
                    self.target(),
                    self.target() + elem_size,
                ),
                Err(e) => e == ViewError::Bounds && self.target() + elem_size > buf@.len(),
            },
    {
        let n = buf.len();
        let start = match (self.pos as u64).checked_add(self.offset) {
            Some(s) => s,
            None => {
                return Err(ViewError::Bounds);
            },
        };
        let end = match start.checked_add(elem_size as u64) {
            Some(e) => e,
            None => {
                return Err(ViewError::Bounds);
            },
        };
        if end > n as u64 {
            return Err(ViewError::Bounds);
        }
        Ok(slice_subrange(buf, start as usize, end as usize))
    }
}

/// A filename-reference header: a 64-bit displacement into a separate,
/// format-specific name table. Resolution is delegated to an external
/// collaborator; only the raw displacement is exposed.
#[derive(Clone, Copy, Debug)]
pub struct Filename {
    pub offset: u64,
    /// The position of the field itself within its buffer.
    pub pos: usize,
}

impl Filename {
    /// Reads the 8-byte header at `pos`.
    pub fn read(buf: &[u8], pos: usize) -> (r: Result<Filename, ViewError>)
        ensures
            match r {
                Ok(a) => pos + 8 <= buf@.len() && a.offset == le64(buf@, pos as int) && a.pos
                    == pos,
                Err(e) => e == ViewError::Bounds && pos + 8 > buf@.len(),
            },
    {
        let n = buf.len();
        if n < 8 || pos > n - 8 {
            return Err(ViewError::Bounds);
        }
        Ok(Filename { offset: read_le64(buf, pos), pos })
    }

    /// The raw stored displacement.
    pub fn displacement(&self) -> (r: u64)
        ensures
            r == self.offset,
    {
        self.offset
    }
}

/// Marker for the 16-byte GUID scalar shape.
#[derive(Clone, Copy, Debug)]
pub struct Uuid;

/// Marker for the file-reference scalar shape.
#[derive(Clone, Copy, Debug)]
pub struct Fileref;

/// The 16-bit code units stored from byte address `t` up to, and not
/// including, the first NUL unit; `None` if the buffer ends before a NUL
/// unit is found.
pub open spec fn wide_run(b: Seq<u8>, t: int) -> Option<Seq<u16>>
    decreases b.len() - t,
{
    if t < 0 || t + 2 > b.len() {
        None
    } else if le16(b, t) == 0 {
        Some(Seq::empty())
    } else {
        match wide_run(b, t + 2) {
            None => None,
            Some(s) => Some(seq![le16(b, t)].add(s)),
        }
    }
}

/// The bytes stored from address `t` up to, and not including, the first
/// NUL byte; `None` if the buffer ends before a NUL byte is found.
pub open spec fn narrow_run(b: Seq<u8>, t: int) -> Option<Seq<u8>>
    decreases b.len() - t,
{
    if t < 0 || t + 1 > b.len() {
        None
    } else if b[t] == 0 {
        Some(Seq::empty())
    } else {
        match narrow_run(b, t + 1) {
            None => None,
            Some(s) => Some(seq![b[t]].add(s)),
        }
    }
}

pub open spec fn is_high_surrogate(u: u16) -> bool {
    0xD800 <= u < 0xDC00
}

pub open spec fn is_low_surrogate(u: u16) -> bool {
    0xDC00 <= u < 0xE000
}

/// The scalar value of a surrogate pair.
pub open spec fn pair_value(h: u16, l: u16) -> int {
    0x10000 + (h - 0xD800) * 0x400 + (l - 0xDC00)
}

/// UTF-16 decoding: surrogate pairs combine, unpaired surrogates decode to
/// the replacement character, and every other unit is its own code point.
pub open spec fn decode_utf16(u: Seq<u16>) -> Seq<char>
    decreases u.len(),
{
    if u.len() == 0 {
        Seq::empty()
    } else if is_high_surrogate(u[0]) && u.len() >= 2 && is_low_surrogate(u[1]) {
        seq![pair_value(u[0], u[1]) as char].add(decode_utf16(u.skip(2)))
    } else if is_high_surrogate(u[0]) || is_low_surrogate(u[0]) {
        seq!['\u{FFFD}'].add(decode_utf16(u.skip(1)))
    } else {
        seq![u[0] as char].add(decode_utf16(u.skip(1)))
    }
}

/// Narrow decoding: each byte is its own code point.
pub open spec fn decode_narrow(bs: Seq<u8>) -> Seq<char> {
    Seq::new(bs.len(), |i: int| bs[i] as char)
}

/// A wide (16-bit unit) string-reference header: a 64-bit displacement
/// relative to the field's own position.
#[derive(Clone, Copy, Debug)]
pub struct WcharRef {
    pub offset: u64,
    /// The position of the field itself within its buffer.
    pub pos: usize,
}

/// A narrow (byte unit) string-reference header: a 64-bit displacement
/// relative to the field's own position.
#[derive(Clone, Copy, Debug)]
pub struct CharRef {
    pub offset: u64,
    /// The position of the field itself within its buffer.
    pub pos: usize,
}

impl WcharRef {
    /// The resolved target address: the field's own position plus the
    /// stored displacement.
    pub open spec fn target(&self) -> int {
        self.pos + self.offset
    }

    /// Reads the 8-byte header at `pos`.
    pub fn read(buf: &[u8], pos: usize) -> (r: Result<WcharRef, ViewError>)
        ensures
            match r {
                Ok(a) => pos + 8 <= buf@.len() && a.offset == le64(buf@, pos as int) && a.pos
                    == pos,
                Err(e) => e == ViewError::Bounds && pos + 8 > buf@.len(),
            },
    {
        let n = buf.len();
        if n < 8 || pos > n - 8 {
            return Err(ViewError::Bounds);
        }
        Ok(WcharRef { offset: read_le64(buf, pos), pos })
    }

    /// Decodes the NUL-terminated wide string at the field's own address
    /// plus the displacement.
    pub fn as_string(&self, buf: &[u8]) -> (r: Result<String, ViewError>)
        ensures
            match r {
                Ok(s) => wide_run(buf@, self.target()) matches Some(u) && s@ == decode_utf16(u),
                Err(e) => e == ViewError::Bounds && wide_run(buf@, self.target()) is None,
            },
    {
        let n = buf.len();
        let start64 = match (self.pos as u64).checked_add(self.offset) {
            Some(s) => s,
            None => {
                return Err(ViewError::Bounds);
            },
        };
        if start64 >= n as u64 {
            return Err(ViewError::Bounds);
        }
        let start = start64 as usize;
        let mut units: Vec<u16> = Vec::new();
        let mut t: usize = start;
        proof {
            match wide_run(buf@, start as int) {
                Some(w) => {
                    assert(Seq::<u16>::empty().add(w) =~= w);
                },
                None => {},
            }
        }
        loop
            invariant
                n == buf@.len(),
                start <= t <= n,
                match wide_run(buf@, t as int) {
                    Some(rest) => wide_run(buf@, start as int) == Some(units@.add(rest)),
                    None => wide_run(buf@, start as int) is None,
                },
                self.target() == start,
            ensures
                wide_run(buf@, self.target()) == Some(units@),
            decreases n - t,
        {
            if n - t < 2 {
                return Err(ViewError::Bounds);
            }
            let u = read_le16(buf, t);
            if u == 0 {
                proof {
                    assert(units@.add(Seq::<u16>::empty()) =~= units@);
                }
                break;
            }
            proof {
                match wide_run(buf@, t as int + 2) {
                    Some(s) => {
                        assert(wide_run(buf@, t as int) == Some(
                            seq![le16(buf@, t as int)].add(s),
                        ));
                        assert(units@.add(seq![le16(buf@, t as int)].add(s)) =~= units@.push(
                            u,
                        ).add(s));
                    },
                    None => {},
                }
            }
            units.push(u);
            t += 2;
        }
        let m = units.len();
        let mut out = String::new();
        let mut i: usize = 0;
        proof {
            assert(units@.skip(0) =~= units@);
            assert(Seq::<char>::empty() + decode_utf16(units@) =~= decode_utf16(units@));
        }
        while i < m
            invariant
                m == units@.len(),
                0 <= i <= m,
                wide_run(buf@, self.target()) == Some(units@),
                decode_utf16(units@) == out@ + decode_utf16(units@.skip(i as int)),
            decreases m - i,
        {
            let ghost pre = out@;
            let u0 = units[i];
            if 0xD800 <= u0 && u0 < 0xDC00 && i + 1 < m && 0xDC00 <= units[i + 1] && units[i + 1]
                < 0xE000 {
                let u1 = units[i + 1];
                let code: u32 = 0x10000 + (u0 as u32 - 0xD800) * 0x400 + (u1 as u32 - 0xDC00);
                let c = match char::from_u32(code) {
                    Some(c) => c,
                    None => {
                        proof {
                            assert(false);
                        }
                        '\u{FFFD}'
                    },
                };
                out.push(c);
                proof {
                    let u = units@.skip(i as int);
                    assert(u[0] == u0 && u[1] == u1);
                    assert(u.skip(2) =~= units@.skip(i as int + 2));
                    assert(pre + seq![c].add(decode_utf16(units@.skip(i as int + 2))) =~= pre.push(
                        c,
                    ) + decode_utf16(units@.skip(i as int + 2)));
                }
                i += 2;
            } else if 0xD800 <= u0 && u0 < 0xE000 {
                out.push('\u{FFFD}');
                proof {
                    let u = units@.skip(i as int);
                    assert(u[0] == u0);
                    assert(u.skip(1) =~= units@.skip(i as int + 1));
                    assert(pre + seq!['\u{FFFD}'].add(decode_utf16(units@.skip(i as int + 1)))
                        =~= pre.push('\u{FFFD}') + decode_utf16(units@.skip(i as int + 1)));
                }
                i += 1;
            } else {
                let c = match char::from_u32(u0 as u32) {
                    Some(c) => c,
                    None => {
                        proof {
                            assert(false);
                        }
                        '\u{FFFD}'
                    },
                };
                out.push(c);
                proof {
                    let u = units@.skip(i as int);
                    assert(u[0] == u0);
                    assert(u.skip(1) =~= units@.skip(i as int + 1));
                    assert(pre + seq![c].add(decode_utf16(units@.skip(i as int + 1))) =~= pre.push(
                        c,
                    ) + decode_utf16(units@.skip(i as int + 1)));
                }
                i += 1;
            }
        }
        proof {
            assert(units@.skip(m as int) =~= Seq::<u16>::empty());
            assert(out@ + Seq::<char>::empty() =~= out@);
        }
        Ok(out)
    }
}

impl CharRef {
    /// The resolved target address: the field's own position plus the
    /// stored displacement.
    pub open spec fn target(&self) -> int {
        self.pos + self.offset
    }

    /// Reads the 8-byte header at `pos`.
    pub fn read(buf: &[u8], pos: usize) -> (r: Result<CharRef, ViewError>)
        ensures
            match r {
                Ok(a) => pos + 8 <= buf@.len() && a.offset == le64(buf@, pos as int) && a.pos
                    == pos,
                Err(e) => e == ViewError::Bounds && pos + 8 > buf@.len(),
            },
    {
        let n = buf.len();
        if n < 8 || pos > n - 8 {
            return Err(ViewError::Bounds);
        }
        Ok(CharRef { offset: read_le64(buf, pos), pos })
    }

    /// Decodes the NUL-terminated narrow string at the field's own address
    /// plus the displacement.
    pub fn as_string(&self, buf: &[u8]) -> (r: Result<String, ViewError>)
        ensures
            match r {
                Ok(s) => narrow_run(buf@, self.target()) matches Some(bs) && s@ == decode_narrow(
                    bs,
                ),
                Err(e) => e == ViewError::Bounds && narrow_run(buf@, self.target()) is None,
            },
    {
        let n = buf.len();
        let start64 = match (self.pos as u64).checked_add(self.offset) {
            Some(s) => s,
            None => {
                return Err(ViewError::Bounds);
            },
        };
        if start64 >= n as u64 {
            return Err(ViewError::Bounds);
        }
        let start = start64 as usize;
        let mut out = String::new();
        let mut t: usize = start;
        proof {
            match narrow_run(buf@, start as int) {
                Some(w) => {
                    assert(Seq::<char>::empty() + decode_narrow(w) =~= decode_narrow(w));
                },
                None => {},
            }
        }
        loop
            invariant
                n == buf@.len(),
                start <= t <= n,
                match narrow_run(buf@, t as int) {
                    Some(rest) => narrow_run(buf@, start as int) matches Some(whole) && out@
                        + decode_narrow(rest) == decode_narrow(whole),
                    None => narrow_run(buf@, start as int) is None,
                },
                self.target() == start,
            decreases n - t,
        {
            if t >= n {
                return Err(ViewError::Bounds);
            }
            let b = *vstd::slice::slice_index_get(buf, t);
            if b == 0 {
                proof {
                    assert(out@ + decode_narrow(Seq::<u8>::empty()) =~= out@);
                }
                return Ok(out);
            }
            let ghost pre = out@;
            out.push(b as char);
            proof {
                match narrow_run(buf@, t as int + 1) {
                    Some(rest) => {
                        assert(narrow_run(buf@, t as int) == Some(seq![buf@[t as int]].add(rest)));
                        let r0 = seq![buf@[t as int]].add(rest);
                        assert(decode_narrow(r0) =~= seq![b as char].add(decode_narrow(rest)));
                        assert(pre + decode_narrow(r0) =~= pre.push(b as char) + decode_narrow(
                            rest,
                        ));
                    },
                    None => {},
                }
            }
            t += 1;
        }
    }
}

} // verus!
