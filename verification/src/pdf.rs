//! The PDF preview's page position and the size of rendered PNG pages.

use vstd::prelude::*;

verus! {

/// Which page of how many the preview shows (pages count from 0).
#[derive(Debug, Clone, Copy, PartialEq, Eq, Structural, Default)]
pub struct PageCursor {
    pub current_page: usize,
    pub total_pages: usize,
}

/// The cursor after moving to the next page, if there is one.
pub open spec fn next_page_spec(c: PageCursor) -> PageCursor {
    if c.current_page + 1 < c.total_pages {
        PageCursor { current_page: (c.current_page + 1) as usize, ..c }
    } else {
        c
    }
}

/// The cursor after moving to the previous page, if there is one.
pub open spec fn prev_page_spec(c: PageCursor) -> PageCursor {
    if c.current_page > 0 {
        PageCursor { current_page: (c.current_page - 1) as usize, ..c }
    } else {
        c
    }
}

impl PageCursor {
    /// Shows the first page of a newly loaded document.
    pub fn reset(&mut self)
        ensures
            final(self).current_page == 0,
            final(self).total_pages == old(self).total_pages,
    {
        self.current_page = 0;
    }

    /// Moves to the next page, if there is one.
    pub fn next_page(&mut self)
        requires
            old(self).current_page < usize::MAX,
        ensures
            *final(self) == next_page_spec(*old(self)),
    {
        if self.current_page + 1 < self.total_pages {
            self.current_page = self.current_page + 1;
        }
    }

    /// Moves to the previous page, if there is one.
    pub fn prev_page(&mut self)
        ensures
            *final(self) == prev_page_spec(*old(self)),
    {
        if self.current_page > 0 {
            self.current_page = self.current_page - 1;
        }
    }
}

/// Law: moving forward and then back returns to the same page, whenever
/// moving forward moved.
pub proof fn law_next_then_prev(c: PageCursor)
    requires
        c.current_page + 1 < c.total_pages,
    ensures
        prev_page_spec(next_page_spec(c)) == c,
{
}

/// Law: a cursor inside the document stays inside it, whichever way it moves.
pub proof fn law_page_stays_in_range(c: PageCursor)
    requires
        c.current_page < c.total_pages,
    ensures
        next_page_spec(c).current_page < next_page_spec(c).total_pages,
        prev_page_spec(c).current_page < prev_page_spec(c).total_pages,
        next_page_spec(c).total_pages == c.total_pages,
        prev_page_spec(c).total_pages == c.total_pages,
{
}

/// A big-endian 32-bit number.
pub open spec fn be_u32(b0: u8, b1: u8, b2: u8, b3: u8) -> u32 {
    (b0 as int * 16777216 + b1 as int * 65536 + b2 as int * 256 + b3 as int) as u32
}

/// The 8-byte signature that starts every PNG file.
pub open spec fn png_signature() -> Seq<u8> {
    seq![0x89u8, 0x50u8, 0x4eu8, 0x47u8, 0x0du8, 0x0au8, 0x1au8, 0x0au8]
}

/// Width and height from the IHDR chunk of a PNG file: bytes 16-19 and
/// 20-23, big-endian; `None` for fewer than 24 bytes or a wrong signature.
pub open spec fn png_dimensions_spec(d: Seq<u8>) -> Option<(u32, u32)> {
    if d.len() < 24 || d.subrange(0, 8) != png_signature() {
        None
    } else {
        Some((be_u32(d[16], d[17], d[18], d[19]), be_u32(d[20], d[21], d[22], d[23])))
    }
}

fn be_u32_exec(b0: u8, b1: u8, b2: u8, b3: u8) -> (r: u32)
    ensures
        r == be_u32(b0, b1, b2, b3),
{
    let v = (b0 as u64) * 16777216 + (b1 as u64) * 65536 + (b2 as u64) * 256 + (b3 as u64);
    assert(v < 4294967296);
    v as u32
}

/// Reads a PNG page's width and height from its header, without decoding it.
pub fn png_dimensions(data: &[u8]) -> (r: Option<(u32, u32)>)
    ensures
        r == png_dimensions_spec(data@),
{
    if data.len() < 24 {
        return None;
    }
    let sig: Vec<u8> = vec![0x89u8, 0x50u8, 0x4eu8, 0x47u8, 0x0du8, 0x0au8, 0x1au8, 0x0au8];
    let mut k: usize = 0;
    while k < 8
        invariant
            0 <= k <= 8,
            data@.len() >= 24,
            sig@ == png_signature(),
            forall|j: int| 0 <= j < k ==> data@[j] == sig@[j],
        decreases 8 - k,
    {
        if data[k] != sig[k] {
            assert(data@.subrange(0, 8)[k as int] != png_signature()[k as int]);
            return None;
        }
        k = k + 1;
    }
    assert(data@.subrange(0, 8) =~= png_signature());
    let w = be_u32_exec(data[16], data[17], data[18], data[19]);
    let h = be_u32_exec(data[20], data[21], data[22], data[23]);
    Some((w, h))
}

/// The big-endian bytes of a number.
pub open spec fn be_bytes(v: u32) -> Seq<u8> {
    seq![(v / 16777216) as u8, ((v / 65536) % 256) as u8, ((v / 256) % 256) as u8, (v % 256) as u8]
}

/// Law: a header that holds a width and a height gives them back.
pub proof fn law_png_dimensions_roundtrip(head: Seq<u8>, w: u32, h: u32, rest: Seq<u8>)
    requires
        head.len() == 8,
        head == png_signature(),
    ensures
        png_dimensions_spec(head + seq![0u8, 0u8, 0u8, 13u8, 73u8, 72u8, 68u8, 82u8] + be_bytes(w) + be_bytes(h) + rest) == Some((w, h)),
{
    let d = head + seq![0u8, 0u8, 0u8, 13u8, 73u8, 72u8, 68u8, 82u8] + be_bytes(w) + be_bytes(h) + rest;
    assert(d.subrange(0, 8) =~= png_signature());
    assert(d[16] == (w / 16777216) as u8);
    assert(d[17] == ((w / 65536) % 256) as u8);
    assert(d[18] == ((w / 256) % 256) as u8);
    assert(d[19] == (w % 256) as u8);
    assert(d[20] == (h / 16777216) as u8);
    assert(d[21] == ((h / 65536) % 256) as u8);
    assert(d[22] == ((h / 256) % 256) as u8);
    assert(d[23] == (h % 256) as u8);
    assert(be_u32(d[16], d[17], d[18], d[19]) == w) by (nonlinear_arith)
        requires
            d[16] == (w / 16777216) as u8,
            d[17] == ((w / 65536) % 256) as u8,
            d[18] == ((w / 256) % 256) as u8,
            d[19] == (w % 256) as u8,
    {
    }
    assert(be_u32(d[20], d[21], d[22], d[23]) == h) by (nonlinear_arith)
        requires
            d[20] == (h / 16777216) as u8,
            d[21] == ((h / 65536) % 256) as u8,
            d[22] == ((h / 256) % 256) as u8,
            d[23] == (h % 256) as u8,
    {
    }
}

} // verus!
