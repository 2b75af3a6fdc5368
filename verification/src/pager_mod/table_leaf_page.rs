use vstd::prelude::*;
use crate::pager_mod::pager::{
    be_u16_at, cell_address, spec_decode_varint, read_cell_address, try_decode_varint_at, DB_HEADER_SIZE,
};

verus! {

/// Reads the cells of a table b-tree leaf page.
pub struct TableLeafPage {}

/// A cell of a table leaf page: the row's record and its rowid.
#[derive(Clone, Copy)]
pub struct TableLeafPageCell<'a> {
    pub payload: &'a [u8],
    pub row_id: u64,
}

impl<'a> View for TableLeafPageCell<'a> {
    type V = (Seq<u8>, u64);

    open spec fn view(&self) -> (Seq<u8>, u64) {
        (self.payload@, self.row_id)
    }
}

/// The bytes of the page that `contents` lacks at its start: the database
/// header on the first page, nothing on the others.
pub open spec fn header_shift(on_first_page: bool) -> int {
    if on_first_page { DB_HEADER_SIZE as int } else { 0 }
}

/// The table leaf cell that starts at `address`: a varint payload size, a
/// varint rowid, then the payload; `None` when it does not fit in
/// `contents` or a varint is missing.
pub open spec fn table_leaf_cell_at(contents: Seq<u8>, address: int) -> Option<(Seq<u8>, u64)> {
    if address < 0 || address > contents.len() {
        None
    } else {
        match spec_decode_varint(contents.skip(address)) {
            None => None,
            Some((size, n1)) => match spec_decode_varint(contents.skip(address + n1)) {
                None => None,
                Some((row_id, n2)) => {
                    let start = address + n1 + n2;
                    if start + size <= contents.len() {
                        Some((contents.subrange(start, start + size), row_id))
                    } else {
                        None
                    }
                },
            },
        }
    }
}

/// The first `k` cells of a table leaf page, in the order of its cell
/// pointer array; `None` when one of them cannot be read.
pub open spec fn table_leaf_cells(contents: Seq<u8>, content_offset: u8, k: nat, on_first_page: bool)
    -> Option<Seq<(Seq<u8>, u64)>>
    decreases k,
{
    if k == 0 {
        Some(Seq::empty())
    } else {
        match table_leaf_cells(contents, content_offset, (k - 1) as nat, on_first_page) {
            None => None,
            Some(cells) => match cell_address(contents, content_offset as int, k - 1, header_shift(on_first_page)) {
                None => None,
                Some(address) => match table_leaf_cell_at(contents, address) {
                    None => None,
                    Some(cell) => Some(cells.push(cell)),
                },
            },
        }
    }
}

/// Once a cell cannot be read, no longer prefix of the cells can be read.
proof fn lemma_table_leaf_cells_none_stays(contents: Seq<u8>, content_offset: u8, k: nat, m: nat, on_first_page: bool)
    requires
        k <= m,
        table_leaf_cells(contents, content_offset, k, on_first_page) is None,
    ensures
        table_leaf_cells(contents, content_offset, m, on_first_page) is None,
    decreases m - k,
{
    if k < m {
        lemma_table_leaf_cells_none_stays(contents, content_offset, k, (m - 1) as nat, on_first_page);
    }
}

/// A table leaf page read for `k` cells gives exactly `k` cells, and each
/// payload is a stretch of the page's bytes.
pub proof fn lemma_table_leaf_cells_shape(contents: Seq<u8>, content_offset: u8, k: nat, on_first_page: bool)
    ensures
        table_leaf_cells(contents, content_offset, k, on_first_page) matches Some(cells) ==> {
            &&& cells.len() == k
            &&& forall|i: int| 0 <= i < k ==> exists|a: int, b: int|
                0 <= a <= b <= contents.len() && (#[trigger] cells[i]).0 == contents.subrange(a, b)
        },
    decreases k,
{
    if k > 0 {
        lemma_table_leaf_cells_shape(contents, content_offset, (k - 1) as nat, on_first_page);
        if let Some(cells) = table_leaf_cells(contents, content_offset, k, on_first_page) {
            let prev = table_leaf_cells(contents, content_offset, (k - 1) as nat, on_first_page).unwrap();
            assert(cells == prev.push(cells.last()));
            assert forall|i: int| 0 <= i < k implies exists|a: int, b: int|
                0 <= a <= b <= contents.len() && (#[trigger] cells[i]).0 == contents.subrange(a, b) by {
                if i < k - 1 {
                    assert(cells[i] == prev[i]);
                } else {
                    let address = cell_address(contents, content_offset as int, k - 1, header_shift(on_first_page)).unwrap();
                    let (size, n1) = spec_decode_varint(contents.skip(address)).unwrap();
                    let (row_id, n2) = spec_decode_varint(contents.skip(address + n1)).unwrap();
                    let start = address + n1 + n2;
                    crate::pager_mod::pager::lemma_varint_len_shape(contents.skip(address));
                    crate::pager_mod::pager::lemma_varint_len_shape(contents.skip(address + n1));
                    assert(cells[i].0 == contents.subrange(start, start + size));
                }
            }
        }
    }
}

/// Whether `cell` is the table leaf cell that entry `i` of the cell pointer
/// array at `content_offset` points at: the entry (big-endian, at
/// `content_offset + 2i`, counted from the start of the page, so less the
/// database header's size in the first page's `contents`) gives where the cell starts; there a
/// varint gives the payload's size, a second varint the rowid, and the
/// payload is the bytes that follow them.
pub open spec fn is_pointed_table_leaf_cell(
    contents: Seq<u8>,
    content_offset: u8,
    on_first_page: bool,
    i: int,
    cell: (Seq<u8>, u64),
) -> bool {
    let e = content_offset + 2 * i;
    let a = be_u16_at(contents, e) - (if on_first_page { DB_HEADER_SIZE as int } else { 0 });
    &&& e + 1 < contents.len()
    &&& 0 <= a <= contents.len()
    &&& spec_decode_varint(contents.skip(a)) matches Some((size, n1))
        && spec_decode_varint(contents.skip(a + n1)) matches Some((row_id, n2))
        && cell.1 == row_id
        && cell.0 == contents.subrange(a + n1 + n2, a + n1 + n2 + size)
}

/// Each cell of a table leaf page is the one that the matching entry of
/// the cell pointer array points at, one cell per entry, in the entries'
/// order; a page reads as soon as every entry points at a cell that fits.
pub proof fn lemma_table_leaf_cells_follow_pointers(contents: Seq<u8>, content_offset: u8, k: nat, on_first_page: bool)
    ensures
        table_leaf_cells(contents, content_offset, k, on_first_page) matches Some(cells) ==> {
            &&& cells.len() == k
            &&& forall|i: int| 0 <= i < k ==> is_pointed_table_leaf_cell(contents, content_offset, on_first_page, i, #[trigger] cells[i])
        },
        (forall|i: int| 0 <= i < k ==> (#[trigger] cell_address(contents, content_offset as int, i, header_shift(on_first_page)) matches Some(a)
            && table_leaf_cell_at(contents, a) is Some)) ==> table_leaf_cells(contents, content_offset, k, on_first_page) is Some,
    decreases k,
{
    if k > 0 {
        lemma_table_leaf_cells_follow_pointers(contents, content_offset, (k - 1) as nat, on_first_page);
        if let Some(cells) = table_leaf_cells(contents, content_offset, k, on_first_page) {
            let prev = table_leaf_cells(contents, content_offset, (k - 1) as nat, on_first_page).unwrap();
            assert forall|i: int| 0 <= i < k implies is_pointed_table_leaf_cell(contents, content_offset, on_first_page, i, #[trigger] cells[i]) by {
                if i < k - 1 {
                    assert(cells[i] == prev[i]);
                }
            }
        }
    }
}

/// The views of a sequence of cells.
pub open spec fn table_leaf_cells_view<'a>(cells: Seq<TableLeafPageCell<'a>>) -> Seq<(Seq<u8>, u64)> {
    cells.map_values(|c: TableLeafPageCell<'a>| c@)
}

impl TableLeafPage {
    /// Reads the `cell_count` cells of a table leaf page, or `None` when
    /// one of them cannot be read.
    pub fn try_read_cells<'a>(content_offset: u8, cell_count: u16, contents: &'a Vec<u8>, on_first_page: bool)
        -> (res: Option<Vec<TableLeafPageCell<'a>>>)
        ensures
            match res {
                Some(cells) => table_leaf_cells(contents@, content_offset, cell_count as nat, on_first_page)
                    == Some(table_leaf_cells_view(cells@)),
                None => table_leaf_cells(contents@, content_offset, cell_count as nat, on_first_page) is None,
            },
    {
        let shift: usize = if on_first_page { DB_HEADER_SIZE } else { 0 };
        let bytes = contents.as_slice();
        let mut result: Vec<TableLeafPageCell<'a>> = Vec::new();
        let mut count: u16 = 0;
        while count < cell_count
            invariant
                count <= cell_count,
                bytes@ == contents@,
                shift == header_shift(on_first_page),
                table_leaf_cells(contents@, content_offset, count as nat, on_first_page)
                    == Some(table_leaf_cells_view(result@)),
            decreases cell_count - count,
        {
            let address = match read_cell_address(bytes, content_offset, count, shift) {
                Some(a) => a,
                None => {
                    proof {
                        lemma_table_leaf_cells_none_stays(contents@, content_offset, (count + 1) as nat, cell_count as nat, on_first_page);
                    }
                    return None;
                },
            };
            let (payload_size, n1) = match try_decode_varint_at(bytes, address) {
                Some(d) => d,
                None => {
                    proof {
                        lemma_table_leaf_cells_none_stays(contents@, content_offset, (count + 1) as nat, cell_count as nat, on_first_page);
                    }
                    return None;
                },
            };
            let (row_id, n2) = match try_decode_varint_at(bytes, address + n1) {
                Some(d) => d,
                None => {
                    proof {
                        lemma_table_leaf_cells_none_stays(contents@, content_offset, (count + 1) as nat, cell_count as nat, on_first_page);
                    }
                    return None;
                },
            };
            let start = address + n1 + n2;
            if payload_size > (bytes.len() - start) as u64 {
                proof {
                    lemma_table_leaf_cells_none_stays(contents@, content_offset, (count + 1) as nat, cell_count as nat, on_first_page);
                }
                return None;
            }
            let end = start + payload_size as usize;
            let payload = vstd::slice::slice_subrange(bytes, start, end);
            let ghost old_result = result@;
            result.push(TableLeafPageCell { payload, row_id });
            assert(table_leaf_cells_view(result@) =~= table_leaf_cells_view(old_result).push((payload@, row_id)));
            count = count + 1;
        }
        Some(result)
    }

    /// Reads the `cell_count` cells of a table leaf page. On the first page
    /// of the file, whose `contents` start after the database header, cell
    /// pointers are taken less the header's size.
    pub fn read_cells<'a>(content_offset: u8, cell_count: u16, contents: &'a Vec<u8>, on_first_page: bool)
        -> (res: Vec<TableLeafPageCell<'a>>)
        requires
            table_leaf_cells(contents@, content_offset, cell_count as nat, on_first_page) is Some,
        ensures
            table_leaf_cells(contents@, content_offset, cell_count as nat, on_first_page)
                == Some(table_leaf_cells_view(res@)),
    {
        Self::try_read_cells(content_offset, cell_count, contents, on_first_page).unwrap()
    }
}

} // verus!
