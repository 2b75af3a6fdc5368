use vstd::prelude::*;

verus! {

/// The size of the database file header that precedes the first page's
/// own header.
pub const DB_HEADER_SIZE: usize = 100;

/// The four kinds of b-tree page.
#[derive(Clone, Copy, Debug, PartialEq, Eq, Structural)]
pub enum PageType {
    TableInteriorPage,
    TableLeafPage,
    IndexLeafPage,
    IndexInteriorPage,
}

/// The kind of page that a page's first byte announces.
pub open spec fn page_type_of(flag: u8) -> Option<PageType> {
    if flag == 0x0a {
        Some(PageType::IndexLeafPage)
    } else if flag == 0x0d {
        Some(PageType::TableLeafPage)
    } else if flag == 0x05 {
        Some(PageType::TableInteriorPage)
    } else if flag == 0x02 {
        Some(PageType::IndexInteriorPage)
    } else {
        None
    }
}

/// Whether the flag byte marks a leaf page (index leaf or table leaf).
pub open spec fn is_leaf_flag(flag: u8) -> bool {
    flag == 0x0a || flag == 0x0d
}

/// The big-endian 16-bit number stored at `s[i]`, `s[i + 1]`.
pub open spec fn be_u16_at(s: Seq<u8>, i: int) -> int {
    s[i] * 256 + s[i + 1]
}

/// The big-endian 32-bit number stored at `s[i]` .. `s[i + 3]`.
pub open spec fn be_u32_at(s: Seq<u8>, i: int) -> int {
    ((s[i] * 256 + s[i + 1]) * 256 + s[i + 2]) * 256 + s[i + 3]
}

/// Whether `contents` starts with a page header that can be read: a known
/// page kind, and the eight header bytes (twelve for an interior page, whose
/// bytes 8 to 11 hold its right-most child pointer).
pub open spec fn page_header_ok(contents: Seq<u8>) -> bool {
    &&& contents.len() >= 8
    &&& page_type_of(contents[0]) is Some
    &&& !is_leaf_flag(contents[0]) ==> contents.len() >= 12
}

/// A big-endian 32-bit number read from bytes fits in 32 bits.
pub proof fn lemma_be_u32_at_bound(s: Seq<u8>, i: int)
    requires
        0 <= i,
        i + 3 < s.len(),
    ensures
        0 <= be_u32_at(s, i) <= u32::MAX,
{
    let (b0, b1, b2, b3) = (s[i], s[i + 1], s[i + 2], s[i + 3]);
    assert(0 <= ((b0 * 256 + b1) * 256 + b2) * 256 + b3 <= u32::MAX) by (nonlinear_arith)
        requires
            0 <= b0 < 256,
            0 <= b1 < 256,
            0 <= b2 < 256,
            0 <= b3 < 256,
    ;
}

/// Where the `i`-th cell of a page starts, read from the cell pointer array
/// that begins at `content_offset`: the big-endian pointer less `shift`
/// (the bytes of the page that `contents` lacks at its start). `None` when
/// the pointer lies outside `contents` or is smaller than `shift`.
pub open spec fn cell_address(contents: Seq<u8>, content_offset: int, i: int, shift: int) -> Option<int> {
    let p = content_offset + 2 * i;
    if p + 1 < contents.len() && be_u16_at(contents, p) >= shift {
        Some(be_u16_at(contents, p) - shift)
    } else {
        None
    }
}

/// A b-tree page: the fields of its header and its bytes.
pub struct Page {
    pub page_number: u64,
    pub freeblock_start_address: u16,
    pub cell_count: u16,
    pub cell_content_start_address: u16,
    pub fragmented_free_bytes_count: u8,
    pub child_page_pointer: u32,
    pub contents: Vec<u8>,
    pub content_offset: u8,
    pub page_type: PageType,
}

/// Reads the big-endian 16-bit number at `s[i]`, `s[i + 1]`.
pub fn read_be_u16(s: &[u8], i: usize) -> (res: u16)
    requires
        i + 1 < s@.len(),
    ensures
        res as int == be_u16_at(s@, i as int),
{
    (s[i] as u16) * 256 + (s[i + 1] as u16)
}

/// Reads the big-endian 32-bit number at `s[i]` .. `s[i + 3]`.
pub fn read_be_u32(s: &[u8], i: usize) -> (res: u32)
    requires
        i + 3 < s@.len(),
    ensures
        res as int == be_u32_at(s@, i as int),
{
    (((s[i] as u32) * 256 + (s[i + 1] as u32)) * 256 + (s[i + 2] as u32)) * 256 + (s[i + 3] as u32)
}

/// Reads where the `i`-th cell starts (see `cell_address`): the `i`-th
/// entry of the cell pointer array at `content_offset`, less `shift`;
/// `None` when the entry lies outside `contents` or is smaller than
/// `shift`.
pub fn read_cell_address(contents: &[u8], content_offset: u8, i: u16, shift: usize) -> (res: Option<usize>)
    ensures
        match res {
            Some(a) => cell_address(contents@, content_offset as int, i as int, shift as int) == Some(a as int),
            None => cell_address(contents@, content_offset as int, i as int, shift as int) is None,
        },
{
    let pointer: usize = content_offset as usize + 2 * (i as usize);
    if pointer + 1 >= contents.len() {
        return None;
    }
    let address = read_be_u16(contents, pointer) as usize;
    if address < shift {
        None
    } else {
        Some(address - shift)
    }
}

/// Decodes the varint that starts at `start` in `contents`; `None` when
/// `start` lies past the end or no varint starts there.
pub fn try_decode_varint_at(contents: &[u8], start: usize) -> (res: Option<(u64, usize)>)
    ensures
        match res {
            Some((v, n)) => start <= contents@.len() && spec_decode_varint(contents@.skip(start as int)) == Some((v, n as nat))
                && 1 <= n <= MAX_VARINT_LEN && start + n <= contents@.len(),
            None => start > contents@.len() || spec_decode_varint(contents@.skip(start as int)) is None,
        },
{
    if start > contents.len() {
        return None;
    }
    let rest = vstd::slice::slice_subrange(contents, start, contents.len());
    assert(rest@ =~= contents@.skip(start as int));
    proof {
        lemma_varint_len_shape(rest@);
    }
    try_decode_varint(rest)
}

impl Page {
    /// Whether this page was read out of `contents` as page `page_number`:
    /// header fields at their offsets, big-endian; the right-most child
    /// pointer, which only interior pages have, read from bytes 8 to 11 of an
    /// interior page and 0 on a leaf page; cells listed from offset 8 on a
    /// leaf page and from offset 12 on an interior page.
    pub open spec fn read_from(self, page_number: u64, contents: Seq<u8>) -> bool {
        &&& self.page_number == page_number
        &&& self.contents@ == contents
        &&& Some(self.page_type) == page_type_of(contents[0])
        &&& self.freeblock_start_address as int == be_u16_at(contents, 1)
        &&& self.cell_count as int == be_u16_at(contents, 3)
        &&& self.cell_content_start_address as int == be_u16_at(contents, 5)
        &&& self.fragmented_free_bytes_count == contents[7]
        &&& self.child_page_pointer as int == (if is_leaf_flag(contents[0]) {
            0
        } else {
            be_u32_at(contents, 8)
        })
        &&& self.content_offset == (if is_leaf_flag(contents[0]) { 8u8 } else { 12u8 })
    }

    /// Reads the header of page `page_number` out of its bytes, or `None`
    /// when they do not start with a readable page header.
    pub fn try_new(page_number: u64, contents: Vec<u8>) -> (res: Option<Page>)
        ensures
            res is Some <==> page_header_ok(contents@),
            res matches Some(page) ==> page.read_from(page_number, contents@),
    {
        if contents.len() < 8 {
            return None;
        }
        let flag = contents[0];
        let page_type = if flag == 0x0a {
            PageType::IndexLeafPage
        } else if flag == 0x0d {
            PageType::TableLeafPage
        } else if flag == 0x05 {
            PageType::TableInteriorPage
        } else if flag == 0x02 {
            PageType::IndexInteriorPage
        } else {
            return None;
        };
        let mut child_page_pointer: u32 = 0;
        let mut content_offset: u8 = 8;
        if flag == 0x05 || flag == 0x02 {
            if contents.len() < 12 {
                return None;
            }
            child_page_pointer = read_be_u32(contents.as_slice(), 8);
            content_offset = 12;
        }
        let freeblock_start_address = read_be_u16(contents.as_slice(), 1);
        let cell_count = read_be_u16(contents.as_slice(), 3);
        let cell_content_start_address = read_be_u16(contents.as_slice(), 5);
        let fragmented_free_bytes_count = contents[7];
        Some(Page {
            page_number,
            freeblock_start_address,
            cell_count,
            cell_content_start_address,
            fragmented_free_bytes_count,
            child_page_pointer,
            contents,
            content_offset,
            page_type,
        })
    }

    /// Reads the header of page `page_number` out of its bytes.
    pub fn new(page_number: u64, contents: Vec<u8>) -> (page: Page)
        requires
            page_header_ok(contents@),
        ensures
            page.read_from(page_number, contents@),
    {
        Page::try_new(page_number, contents).unwrap()
    }

    /// Where page `page` (counted from 1) starts in a file of pages of
    /// `page_size` bytes; `None` for page 0 or an offset past 2^64.
    pub fn file_offset(page_size: u16, page: u64) -> (res: Option<u64>)
        ensures
            page == 0 || page_size * (page - 1) > u64::MAX <==> res is None,
            res matches Some(off) ==> off == page_size * (page - 1),
    {
        if page == 0 {
            return None;
        }
        (page_size as u64).checked_mul(page - 1)
    }

    /// The span of the file that holds the first page without the database
    /// header: its offset and its length; `None` when pages are smaller than
    /// the header.
    pub fn header_page_span(page_size: u16) -> (res: Option<(u64, usize)>)
        ensures
            res is None <==> page_size < DB_HEADER_SIZE,
            res matches Some((off, len)) ==> off == DB_HEADER_SIZE && len == page_size - DB_HEADER_SIZE,
    {
        if (page_size as usize) < DB_HEADER_SIZE {
            None
        } else {
            Some((DB_HEADER_SIZE as u64, page_size as usize - DB_HEADER_SIZE))
        }
    }
}

/// The largest number of bytes a varint may occupy.
pub const MAX_VARINT_LEN: usize = 10;

/// The value of `digits` read as base-128 digits, most significant first,
/// where each byte contributes its low seven bits.
pub open spec fn base128_value(digits: Seq<u8>) -> nat
    decreases digits.len(),
{
    if digits.len() == 0 {
        0
    } else {
        base128_value(digits.drop_last()) * 128 + (digits.last() % 128) as nat
    }
}

/// Searches for the byte that ends a varint, starting at index `i`: the
/// first byte below 0x80 among the first ten bytes of `s`.
/// Returns the length of the varint, if it ends in time.
pub open spec fn varint_len_from(s: Seq<u8>, i: nat) -> Option<nat>
    decreases MAX_VARINT_LEN - i,
{
    if i >= MAX_VARINT_LEN || i >= s.len() {
        None
    } else if s[i as int] < 128 {
        Some(i + 1)
    } else {
        varint_len_from(s, i + 1)
    }
}

/// The number of bytes of the varint at the start of `s`, if there is one.
pub open spec fn varint_len(s: Seq<u8>) -> Option<nat> {
    varint_len_from(s, 0)
}

/// The varint at the start of `s`: its value (the base-128 digits taken
/// modulo 2^64, as a `u64` accumulator keeps them) and its length in bytes.
pub open spec fn spec_decode_varint(s: Seq<u8>) -> Option<(u64, nat)> {
    match varint_len(s) {
        Some(n) => Some(((base128_value(s.take(n as int)) % 0x1_0000_0000_0000_0000) as u64, n)),
        None => None,
    }
}

proof fn lemma_varint_len_from_shape(s: Seq<u8>, i: nat)
    requires
        forall|j: int| 0 <= j < i ==> s[j] >= 128,
    ensures
        varint_len_from(s, i) matches Some(n) ==> {
            &&& i < n <= MAX_VARINT_LEN
            &&& n <= s.len()
            &&& s[n - 1] < 128
            &&& forall|j: int| 0 <= j < n - 1 ==> s[j] >= 128
        },
    decreases MAX_VARINT_LEN - i,
{
    if i < MAX_VARINT_LEN && i < s.len() && s[i as int] >= 128 {
        lemma_varint_len_from_shape(s, i + 1);
    }
}

/// A varint is `n` bytes long exactly when its `n`-th byte is the first of
/// its bytes below 0x80, and `n` is at most ten.
pub proof fn lemma_varint_len_shape(s: Seq<u8>)
    ensures
        varint_len(s) matches Some(n) ==> {
            &&& 1 <= n <= MAX_VARINT_LEN
            &&& n <= s.len()
            &&& s[n - 1] < 128
            &&& forall|j: int| 0 <= j < n - 1 ==> s[j] >= 128
        },
{
    lemma_varint_len_from_shape(s, 0);
}

proof fn lemma_varint_len_from_extend(s: Seq<u8>, t: Seq<u8>, i: nat)
    requires
        varint_len_from(s, i) is Some,
    ensures
        varint_len_from(s + t, i) == varint_len_from(s, i),
    decreases MAX_VARINT_LEN - i,
{
    if i < MAX_VARINT_LEN && i < s.len() {
        assert((s + t)[i as int] == s[i as int]);
        if s[i as int] >= 128 {
            lemma_varint_len_from_extend(s, t, i + 1);
        }
    }
}

/// A varint delimits itself: whatever follows it does not change what it
/// decodes to or how long it is.
pub proof fn lemma_varint_self_delimiting(s: Seq<u8>, t: Seq<u8>)
    requires
        spec_decode_varint(s) is Some,
    ensures
        spec_decode_varint(s + t) == spec_decode_varint(s),
{
    lemma_varint_len_from_extend(s, t, 0);
    lemma_varint_len_shape(s);
    let n = varint_len(s).unwrap();
    assert((s + t).take(n as int) =~= s.take(n as int));
}

/// 128 to the power `n`.
pub open spec fn pow128(n: nat) -> nat
    decreases n,
{
    if n == 0 {
        1
    } else {
        128 * pow128((n - 1) as nat)
    }
}

proof fn lemma_base128_bound(digits: Seq<u8>)
    ensures
        base128_value(digits) < pow128(digits.len()),
    decreases digits.len(),
{
    if digits.len() > 0 {
        lemma_base128_bound(digits.drop_last());
    }
}

/// A varint of at most nine bytes is decoded exactly: its value is the
/// number its base-128 digits spell, which is below 2^63.
pub proof fn lemma_short_varint_exact(s: Seq<u8>)
    requires
        varint_len(s) matches Some(n) && n <= 9,
    ensures
        spec_decode_varint(s) matches Some((v, n)) && v as nat == base128_value(s.take(n as int)) && v < 0x8000_0000_0000_0000,
{
    let n = varint_len(s).unwrap();
    lemma_varint_len_shape(s);
    lemma_base128_bound(s.take(n as int));
    assert(pow128(9) == 0x8000_0000_0000_0000) by {
        reveal_with_fuel(pow128, 10);
    }
    lemma_pow128_monotone(n, 9);
    vstd::arithmetic::div_mod::lemma_small_mod(base128_value(s.take(n as int)), 0x1_0000_0000_0000_0000);
}

proof fn lemma_pow128_monotone(a: nat, b: nat)
    requires
        a <= b,
    ensures
        pow128(a) <= pow128(b),
    decreases b - a,
{
    if a < b {
        lemma_pow128_monotone(a, (b - 1) as nat);
    }
}

proof fn lemma_base128_step(r: u64, v: nat, b: u8)
    requires
        r as int == v % 0x1_0000_0000_0000_0000,
    ensures
        ((r << 7u64) | ((b & 0x7f) as u64)) as int == (v * 128 + (b % 128) as nat) % 0x1_0000_0000_0000_0000,
{
    let m: int = 0x1_0000_0000_0000_0000;
    assert(((r << 7u64) | ((b & 0x7f) as u64)) as int == (r as int * 128 + (b % 128) as int) % 0x1_0000_0000_0000_0000int) by (bit_vector);
    vstd::arithmetic::div_mod::lemma_mul_mod_noop_left(v as int, 128, m);
    vstd::arithmetic::div_mod::lemma_add_mod_noop(v as int * 128, (b % 128) as int, m);
    vstd::arithmetic::div_mod::lemma_add_mod_noop(r as int * 128, (b % 128) as int, m);
    vstd::arithmetic::div_mod::lemma_small_mod((b % 128) as nat, m as nat);
}

/// Decodes the varint at the start of `bytes`, or reports that there is
/// none: `None` when no byte below 0x80 ends it within its first ten bytes.
pub fn try_decode_varint(bytes: &[u8]) -> (res: Option<(u64, usize)>)
    ensures
        match res {
            Some((v, n)) => spec_decode_varint(bytes@) == Some((v, n as nat)),
            None => spec_decode_varint(bytes@) is None,
        },
{
    let mut result: u64 = 0;
    let mut i: usize = 0;
    while i < bytes.len()
        invariant
            i < MAX_VARINT_LEN,
            i <= bytes@.len(),
            forall|j: int| 0 <= j < i ==> bytes@[j] >= 128,
            varint_len(bytes@) == varint_len_from(bytes@, i as nat),
            result as int == base128_value(bytes@.take(i as int)) % 0x1_0000_0000_0000_0000,
        decreases bytes.len() - i,
    {
        let byte = bytes[i];
        proof {
            assert(bytes@.take(i + 1).drop_last() =~= bytes@.take(i as int));
            lemma_base128_step(result, base128_value(bytes@.take(i as int)), byte);
        }
        result = (result << 7u64) | ((byte & 0x7f) as u64);
        if byte & 0x80 == 0 {
            assert(byte & 0x80 == 0 ==> byte < 128) by (bit_vector);
            assert(varint_len_from(bytes@, i as nat) == Some((i + 1) as nat));
            return Some((result, i + 1));
        }
        assert(byte & 0x80 != 0 ==> byte >= 128) by (bit_vector);
        if i == 9 {
            assert(varint_len_from(bytes@, 10) is None);
            return None;
        }
        i = i + 1;
    }
    assert(varint_len_from(bytes@, i as nat) is None);
    None
}

/// Decodes the varint at the start of `bytes`: the value of its base-128
/// digits, as a 64-bit accumulator keeps them, and the number of bytes it
/// occupies (one to ten).
pub fn decode_varint(bytes: &[u8]) -> (res: (u64, usize))
    requires
        spec_decode_varint(bytes@) is Some,
    ensures
        spec_decode_varint(bytes@) == Some((res.0, res.1 as nat)),
        1 <= res.1 <= MAX_VARINT_LEN,
{
    proof {
        lemma_varint_len_shape(bytes@);
    }
    try_decode_varint(bytes).unwrap()
}

} // verus!
