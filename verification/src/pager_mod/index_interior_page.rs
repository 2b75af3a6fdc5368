use vstd::prelude::*;
use crate::pager_mod::pager::{
    be_u16_at, be_u32_at, cell_address, read_be_u32, read_cell_address, spec_decode_varint, try_decode_varint_at,
};

verus! {

/// Reads the cells of an index b-tree interior page.
pub struct IndexInteriorPage {}

/// A cell of an index interior page: its left child page, the size of its
/// payload and the payload.
pub struct IndexInteriorPageCell<'a> {
    pub left_child_page_number: u32,
    pub payload_size: u64,
    pub payload: &'a [u8],
}

impl<'a> View for IndexInteriorPageCell<'a> {
    type V = (u32, u64, Seq<u8>);

    open spec fn view(&self) -> (u32, u64, Seq<u8>) {
        (self.left_child_page_number, self.payload_size, self.payload@)
    }
}

/// The index interior cell that starts at `address`: a big-endian 4-byte
/// child page number, a varint payload size, then the payload; `None` when
/// it does not fit in `contents`.
pub open spec fn index_interior_cell_at(contents: Seq<u8>, address: int) -> Option<(u32, u64, Seq<u8>)> {
    if address < 0 || address + 3 >= contents.len() {
        None
    } else {
        match spec_decode_varint(contents.skip(address + 4)) {
            None => None,
            Some((size, n)) => {
                let start = address + 4 + n;
                if start + size <= contents.len() {
                    Some((be_u32_at(contents, address) as u32, size, contents.subrange(start, start + size)))
                } else {
                    None
                }
            },
        }
    }
}

/// The first `k` cells of an index interior page, in the order of its cell
/// pointer array; `None` when one of them cannot be read.
pub open spec fn index_interior_cells(contents: Seq<u8>, content_offset: u8, k: nat)
    -> Option<Seq<(u32, u64, Seq<u8>)>>
    decreases k,
{
    if k == 0 {
        Some(Seq::empty())
    } else {
        match index_interior_cells(contents, content_offset, (k - 1) as nat) {
            None => None,
            Some(cells) => match cell_address(contents, content_offset as int, k - 1, 0) {
                None => None,
                Some(address) => match index_interior_cell_at(contents, address) {
                    None => None,
                    Some(cell) => Some(cells.push(cell)),
                },
            },
        }
    }
}

proof fn lemma_index_interior_cells_none_stays(contents: Seq<u8>, content_offset: u8, k: nat, m: nat)
    requires
        k <= m,
        index_interior_cells(contents, content_offset, k) is None,
    ensures
        index_interior_cells(contents, content_offset, m) is None,
    decreases m - k,
{
    if k < m {
        lemma_index_interior_cells_none_stays(contents, content_offset, k, (m - 1) as nat);
    }
}

/// Whether `cell` is the index interior cell that entry `i` of the cell
/// pointer array at `content_offset` points at: the entry (big-endian, at
/// `content_offset + 2i`) gives where the cell starts; there four
/// big-endian bytes give the left child's page number, a varint after them
/// the payload's size, and the payload is the bytes that follow.
pub open spec fn is_pointed_index_interior_cell(contents: Seq<u8>, content_offset: u8, i: int, cell: (u32, u64, Seq<u8>)) -> bool {
    let e = content_offset + 2 * i;
    let a = be_u16_at(contents, e);
    &&& e + 1 < contents.len()
    &&& a + 3 < contents.len()
    &&& cell.0 == be_u32_at(contents, a)
    &&& spec_decode_varint(contents.skip(a + 4)) matches Some((size, n)) && cell.1 == size && cell.2 == contents.subrange(
        a + 4 + n,
        a + 4 + n + size,
    )
}

/// Each cell of an index interior page is the one that the matching entry
/// of the cell pointer array points at, one cell per entry, in the
/// entries' order; a page reads as soon as every entry points at a cell
/// that fits.
pub proof fn lemma_index_interior_cells_follow_pointers(contents: Seq<u8>, content_offset: u8, k: nat)
    ensures
        index_interior_cells(contents, content_offset, k) matches Some(cells) ==> {
            &&& cells.len() == k
            &&& forall|i: int| 0 <= i < k ==> is_pointed_index_interior_cell(contents, content_offset, i, #[trigger] cells[i])
        },
        (forall|i: int| 0 <= i < k ==> (#[trigger] cell_address(contents, content_offset as int, i, 0) matches Some(a)
            && index_interior_cell_at(contents, a) is Some)) ==> index_interior_cells(contents, content_offset, k) is Some,
    decreases k,
{
    if k > 0 {
        lemma_index_interior_cells_follow_pointers(contents, content_offset, (k - 1) as nat);
        if let Some(cells) = index_interior_cells(contents, content_offset, k) {
            let prev = index_interior_cells(contents, content_offset, (k - 1) as nat).unwrap();
            assert forall|i: int| 0 <= i < k implies is_pointed_index_interior_cell(contents, content_offset, i, #[trigger] cells[i]) by {
                if i < k - 1 {
                    assert(cells[i] == prev[i]);
                } else {
                    let a = be_u16_at(contents, content_offset + 2 * i);
                    crate::pager_mod::pager::lemma_be_u32_at_bound(contents, a);
                }
            }
        }
    }
}

/// The views of a sequence of cells.
pub open spec fn index_interior_cells_view<'a>(cells: Seq<IndexInteriorPageCell<'a>>) -> Seq<(u32, u64, Seq<u8>)> {
    cells.map_values(|c: IndexInteriorPageCell<'a>| c@)
}

impl IndexInteriorPage {
    /// Reads the `cell_count` cells of an index interior page, or `None`
    /// when one of them cannot be read.
    pub fn try_read_cells<'a>(content_offset: u8, cell_count: u16, contents: &'a Vec<u8>)
        -> (res: Option<Vec<IndexInteriorPageCell<'a>>>)
        ensures
            match res {
                Some(cells) => index_interior_cells(contents@, content_offset, cell_count as nat)
                    == Some(index_interior_cells_view(cells@)),
                None => index_interior_cells(contents@, content_offset, cell_count as nat) is None,
            },
    {
        let bytes = contents.as_slice();
        let mut result: Vec<IndexInteriorPageCell<'a>> = Vec::new();
        let mut count: u16 = 0;
        while count < cell_count
            invariant
                count <= cell_count,
                bytes@ == contents@,
                index_interior_cells(contents@, content_offset, count as nat)
                    == Some(index_interior_cells_view(result@)),
            decreases cell_count - count,
        {
            let address = match read_cell_address(bytes, content_offset, count, 0) {
                Some(a) => a,
                None => {
                    proof {
                        lemma_index_interior_cells_none_stays(contents@, content_offset, (count + 1) as nat, cell_count as nat);
                    }
                    return None;
                },
            };
            if address >= bytes.len() || bytes.len() - address <= 3 {
                proof {
                    lemma_index_interior_cells_none_stays(contents@, content_offset, (count + 1) as nat, cell_count as nat);
                }
                return None;
            }
            let left_child_page_number = read_be_u32(bytes, address);
            let (payload_size, n) = match try_decode_varint_at(bytes, address + 4) {
                Some(d) => d,
                None => {
                    proof {
                        lemma_index_interior_cells_none_stays(contents@, content_offset, (count + 1) as nat, cell_count as nat);
                    }
                    return None;
                },
            };
            let start = address + 4 + n;
            if payload_size > (bytes.len() - start) as u64 {
                proof {
                    lemma_index_interior_cells_none_stays(contents@, content_offset, (count + 1) as nat, cell_count as nat);
                }
                return None;
            }
            let payload = vstd::slice::slice_subrange(bytes, start, start + payload_size as usize);
            let ghost old_result = result@;
            result.push(IndexInteriorPageCell { left_child_page_number, payload_size, payload });
            assert(index_interior_cells_view(result@) =~= index_interior_cells_view(old_result).push(
                (left_child_page_number, payload_size, payload@),
            ));
            count = count + 1;
        }
        Some(result)
    }

    /// Reads the `cell_count` cells of an index interior page.
    pub fn read_cells<'a>(content_offset: u8, cell_count: u16, contents: &'a Vec<u8>)
        -> (res: Vec<IndexInteriorPageCell<'a>>)
        requires
            index_interior_cells(contents@, content_offset, cell_count as nat) is Some,
        ensures
            index_interior_cells(contents@, content_offset, cell_count as nat)
                == Some(index_interior_cells_view(res@)),
    {
        Self::try_read_cells(content_offset, cell_count, contents).unwrap()
    }
}

} // verus!
