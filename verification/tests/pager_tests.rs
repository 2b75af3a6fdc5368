use fish_db::pager_mod::index_interior_page::IndexInteriorPage;
use fish_db::pager_mod::index_leaf_page::IndexLeafPage;
use fish_db::pager_mod::pager::{decode_varint, try_decode_varint, Page, PageType};
use fish_db::pager_mod::table_interior_page::TableInteriorPage;
use fish_db::pager_mod::table_leaf_page::TableLeafPage;

/// Base-128 digits of `v`, most significant first, the high bit set on all
/// but the last.
fn varint(v: u64) -> Vec<u8> {
    let mut digits = vec![(v & 0x7f) as u8];
    let mut rest = v >> 7;
    while rest > 0 {
        digits.push(((rest & 0x7f) as u8) | 0x80);
        rest >>= 7;
    }
    digits.reverse();
    digits
}

/// A page of `size` bytes with the given flag, cell pointers after a header
/// of `header_len` bytes, and the cells packed at its end.
fn page(flag: u8, header_len: usize, cells: &[Vec<u8>], size: usize, shift: usize) -> Vec<u8> {
    let mut contents = vec![0u8; size];
    contents[0] = flag;
    contents[3] = (cells.len() >> 8) as u8;
    contents[4] = cells.len() as u8;
    let mut end = size;
    for (i, cell) in cells.iter().enumerate() {
        let start = end - cell.len();
        contents[start..end].copy_from_slice(cell);
        let pointer = start + shift;
        contents[header_len + 2 * i] = (pointer >> 8) as u8;
        contents[header_len + 2 * i + 1] = pointer as u8;
        end = start;
    }
    contents
}

#[test]
fn decode_varint_single_byte() {
    assert_eq!(decode_varint(&[0x05]), (5, 1));
    assert_eq!(decode_varint(&[0x7f, 0x81]), (0x7f, 1));
}

#[test]
fn decode_varint_several_bytes() {
    assert_eq!(decode_varint(&[0x81, 0x00]), (128, 2));
    assert_eq!(decode_varint(&[0x81, 0x01, 0xff]), (129, 2));
    assert_eq!(decode_varint(&[0x80, 0x80, 0x01]), (1, 3));
    assert_eq!(decode_varint(&varint(300)), (300, 2));
    assert_eq!(decode_varint(&varint(1 << 40)), (1 << 40, 6));
}

#[test]
fn decode_varint_ten_bytes_keeps_low_64_bits() {
    let mut bytes = vec![0xffu8; 9];
    bytes.push(0x7f);
    assert_eq!(decode_varint(&bytes), (u64::MAX, 10));
}

#[test]
fn try_decode_varint_rejects_unterminated() {
    assert_eq!(try_decode_varint(&[]), None);
    assert_eq!(try_decode_varint(&[0x80, 0x80]), None);
    assert_eq!(try_decode_varint(&[0x80u8; 10]), None);
    let mut eleven = vec![0x80u8; 10];
    eleven.push(0x01);
    assert_eq!(try_decode_varint(&eleven), None);
    assert_eq!(try_decode_varint(&[0x83, 0x04]), Some((388, 2)));
}

#[test]
fn page_header_of_leaf_page() {
    let contents = vec![0x0d, 0x00, 0x01, 0x00, 0x02, 0x0f, 0xa0, 0x03, 0x00, 0x00, 0x01, 0x05, 0, 0];
    let page = Page::new(7, contents.clone());
    assert_eq!(page.page_number, 7);
    assert_eq!(page.page_type, PageType::TableLeafPage);
    assert_eq!(page.freeblock_start_address, 1);
    assert_eq!(page.cell_count, 2);
    assert_eq!(page.cell_content_start_address, 0x0fa0);
    assert_eq!(page.fragmented_free_bytes_count, 3);
    assert_eq!(page.child_page_pointer, 0);
    assert_eq!(page.content_offset, 8);
    assert_eq!(page.contents, contents);
}

#[test]
fn page_header_of_interior_page() {
    let contents = vec![0x05, 0, 0, 0, 3, 0, 0, 0, 0x00, 0x00, 0x01, 0x09];
    let page = Page::try_new(2, contents).unwrap();
    assert_eq!(page.page_type, PageType::TableInteriorPage);
    assert_eq!(page.cell_count, 3);
    assert_eq!(page.child_page_pointer, 0x109);
    assert_eq!(page.content_offset, 12);
    let index_interior = Page::try_new(2, vec![0x02, 0, 0, 0, 0, 0, 0, 0, 0x01, 0x02, 0x03, 0x04]).unwrap();
    assert_eq!(index_interior.page_type, PageType::IndexInteriorPage);
    assert_eq!(index_interior.child_page_pointer, 0x01020304);
    assert_eq!(index_interior.content_offset, 12);
    let index_leaf = Page::try_new(2, vec![0x0a, 0, 0, 0, 0, 0, 0, 0]).unwrap();
    assert_eq!(index_leaf.page_type, PageType::IndexLeafPage);
    assert_eq!(index_leaf.child_page_pointer, 0);
}

#[test]
fn page_header_rejected() {
    assert!(Page::try_new(1, vec![0x07, 0, 0, 0, 0, 0, 0, 0, 0, 0, 0, 0]).is_none());
    assert!(Page::try_new(1, vec![0x05, 0, 0]).is_none());
    assert!(Page::try_new(1, vec![0x0d, 0, 0, 0, 0, 0, 0]).is_none());
    assert!(Page::try_new(1, vec![0x05, 0, 0, 0, 0, 0, 0, 0, 0, 0, 0]).is_none());
    assert!(Page::try_new(1, vec![0x02, 0, 0, 0, 0, 0, 0, 0, 0]).is_none());
}

#[test]
fn page_offsets() {
    assert_eq!(Page::file_offset(4096, 1), Some(0));
    assert_eq!(Page::file_offset(4096, 3), Some(8192));
    assert_eq!(Page::file_offset(4096, 0), None);
    assert_eq!(Page::file_offset(65535, u64::MAX), None);
    assert_eq!(Page::header_page_span(4096), Some((100, 3996)));
    assert_eq!(Page::header_page_span(99), None);
}

fn leaf_cell(row_id: u64, payload: &[u8]) -> Vec<u8> {
    let mut cell = varint(payload.len() as u64);
    cell.extend(varint(row_id));
    cell.extend_from_slice(payload);
    cell
}

#[test]
fn table_leaf_cells_read_in_pointer_order() {
    let contents = page(0x0d, 8, &[leaf_cell(1, b"abc"), leaf_cell(300, b"hello")], 64, 0);
    let cells = TableLeafPage::read_cells(8, 2, &contents, false);
    assert_eq!(cells.len(), 2);
    assert_eq!(cells[0].payload, b"abc");
    assert_eq!(cells[0].row_id, 1);
    assert_eq!(cells[1].payload, b"hello");
    assert_eq!(cells[1].row_id, 300);
}

#[test]
fn table_leaf_cells_on_first_page_shift_pointers() {
    let contents = page(0x0d, 8, &[leaf_cell(9, b"xy")], 40, 100);
    let cells = TableLeafPage::read_cells(8, 1, &contents, true);
    assert_eq!(cells[0].payload, b"xy");
    assert_eq!(cells[0].row_id, 9);
    // Without the shift the pointer lies past the page.
    assert!(TableLeafPage::try_read_cells(8, 1, &contents, false).is_none());
}

#[test]
fn table_leaf_cells_rejected() {
    let contents = page(0x0d, 8, &[leaf_cell(1, b"abc")], 32, 0);
    assert!(TableLeafPage::try_read_cells(8, 1, &contents, false).is_some());
    let mut truncated = contents.clone();
    let len = truncated.len();
    truncated[len - 5] = 0x20; // a payload size of 32 runs past the page
    assert!(TableLeafPage::try_read_cells(8, 1, &truncated, false).is_none());
    assert!(TableLeafPage::try_read_cells(8, 1, &contents, true).is_none());
}

fn interior_cell(child: u32, row_id: u64) -> Vec<u8> {
    let mut cell = child.to_be_bytes().to_vec();
    cell.extend(varint(row_id));
    cell
}

#[test]
fn table_interior_cells() {
    let contents = page(0x05, 12, &[interior_cell(3, 10), interior_cell(0x01020304, 200)], 64, 0);
    let cells = TableInteriorPage::read_cells(12, 2, &contents);
    assert_eq!(cells.len(), 2);
    assert_eq!(cells[0].left_child_page_number, 3);
    assert_eq!(cells[0].row_id, 10);
    assert_eq!(cells[1].left_child_page_number, 0x01020304);
    assert_eq!(cells[1].row_id, 200);
    assert!(TableInteriorPage::try_read_cells(12, 30, &contents).is_none());
}

#[test]
fn index_leaf_cells() {
    let mut cell = varint(4);
    cell.extend_from_slice(&[1, 2, 3, 4]);
    let contents = page(0x0a, 8, &[cell], 40, 0);
    let cells = IndexLeafPage::read_cells(8, 1, &contents);
    assert_eq!(cells[0].payload_size, 4);
    assert_eq!(cells[0].payload, &[1, 2, 3, 4]);
    let mut short = contents.clone();
    let len = short.len();
    short[len - 5] = 9;
    assert!(IndexLeafPage::try_read_cells(8, 1, &short).is_none());
}

#[test]
fn index_interior_cells() {
    let mut cell = 77u32.to_be_bytes().to_vec();
    cell.extend(varint(2));
    cell.extend_from_slice(&[0xaa, 0xbb]);
    let contents = page(0x02, 12, &[cell], 40, 0);
    let cells = IndexInteriorPage::read_cells(12, 1, &contents);
    assert_eq!(cells[0].left_child_page_number, 77);
    assert_eq!(cells[0].payload_size, 2);
    assert_eq!(cells[0].payload, &[0xaa, 0xbb]);
    assert!(IndexInteriorPage::try_read_cells(12, 15, &contents).is_none());
}

#[test]
fn varint_is_self_delimiting() {
    let s = varint(123456);
    let mut longer = s.clone();
    longer.extend_from_slice(&[0x81, 0x82, 0x03]);
    assert_eq!(decode_varint(&s), decode_varint(&longer));
    assert_eq!(decode_varint(&s), (123456, 3));
}
