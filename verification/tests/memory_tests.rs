use snapshot_editor::bitmap::{bit_at, PageBitmap};
use snapshot_editor::edit_memory::EditMemoryError;
use snapshot_editor::rebase::{
    bitmap_len, parse_diff, parse_diff_header, rebase, DiffHeader, MemoryRebaser, PageCopy,
    PageSource, DIFF_HEADER_LEN,
};

fn diff_file(page_size: u64, memory_size: u64, page_count: u64, bits: &[u8], pages: &[u8]) -> Vec<u8> {
    let mut file = Vec::new();
    file.extend_from_slice(&page_size.to_le_bytes());
    file.extend_from_slice(&memory_size.to_le_bytes());
    file.extend_from_slice(&page_count.to_le_bytes());
    file.extend_from_slice(bits);
    file.extend_from_slice(pages);
    file
}

fn pages_of(values: &[u8], page_size: usize) -> Vec<u8> {
    let mut bytes = Vec::new();
    for value in values {
        bytes.extend_from_slice(&vec![*value; page_size]);
    }
    bytes
}

fn copy(source: PageSource, offset: u64, length: u64) -> PageCopy {
    PageCopy { source, offset, length }
}

#[test]
fn bit_at_reads_least_significant_first() {
    assert!(bit_at(0b0000_0001, 0));
    assert!(!bit_at(0b0000_0001, 1));
    assert!(bit_at(0b1000_0000, 7));
    assert!(!bit_at(0b0111_1111, 7));
    assert!(bit_at(0b0010_0100, 2));
    assert!(bit_at(0b0010_0100, 5));
}

#[test]
fn bitmap_new_accepts_matching_region() {
    let bitmap = PageBitmap::new(vec![true, false, true], 12288, 4096).unwrap();
    assert_eq!(bitmap.page_count(), 3);
    assert_eq!(bitmap.is_present(0), Ok(true));
    assert_eq!(bitmap.is_present(1), Ok(false));
    assert_eq!(bitmap.is_present(2), Ok(true));
}

#[test]
fn bitmap_new_rejects_mismatched_region() {
    assert_eq!(PageBitmap::new(vec![true, false], 12288, 4096), Err(EditMemoryError::FormatError));
    assert_eq!(PageBitmap::new(vec![true; 4], 12288, 4096), Err(EditMemoryError::FormatError));
    assert_eq!(PageBitmap::new(vec![true; 3], 12289, 4096), Err(EditMemoryError::FormatError));
    assert_eq!(PageBitmap::new(vec![], 0, 0), Err(EditMemoryError::FormatError));
    assert_eq!(PageBitmap::new(vec![true; 3], 12288, 0), Err(EditMemoryError::FormatError));
}

#[test]
fn bitmap_new_accepts_empty_region() {
    let bitmap = PageBitmap::new(vec![], 0, 4096).unwrap();
    assert_eq!(bitmap.page_count(), 0);
    assert_eq!(bitmap.present_count(), 0);
}

#[test]
fn bitmap_is_present_is_bounds_checked() {
    let bitmap = PageBitmap::new(vec![true, true], 20, 10).unwrap();
    assert_eq!(bitmap.is_present(2), Err(EditMemoryError::FormatError));
    assert_eq!(bitmap.is_present(usize::MAX), Err(EditMemoryError::FormatError));
}

#[test]
fn bitmap_from_packed_unpacks_bits() {
    let bitmap = PageBitmap::from_packed(&[0b1010_0101, 0b0000_0010], 10, 40960, 4096).unwrap();
    let flags = vec![true, false, true, false, false, true, false, true, false, true];
    assert_eq!(bitmap, PageBitmap::new(flags, 40960, 4096).unwrap());
    assert_eq!(bitmap.present_count(), 5);
}

#[test]
fn bitmap_from_packed_whole_bytes() {
    let bitmap = PageBitmap::from_packed(&[0xff], 8, 8, 1).unwrap();
    assert_eq!(bitmap.page_count(), 8);
    assert_eq!(bitmap.present_count(), 8);
}

#[test]
fn bitmap_from_packed_rejects_wrong_dimensions() {
    // declared pages differ from the region's
    assert_eq!(
        PageBitmap::from_packed(&[0b101], 3, 16384, 4096),
        Err(EditMemoryError::FormatError)
    );
    // truncated
    assert_eq!(
        PageBitmap::from_packed(&[0xff], 9, 9 * 4096, 4096),
        Err(EditMemoryError::FormatError)
    );
    // over-long
    assert_eq!(
        PageBitmap::from_packed(&[0b101, 0], 3, 12288, 4096),
        Err(EditMemoryError::FormatError)
    );
    // a bit set past the last page
    assert_eq!(
        PageBitmap::from_packed(&[0b1101], 3, 12288, 4096),
        Err(EditMemoryError::FormatError)
    );
    assert_eq!(
        PageBitmap::from_packed(&[0b1000_0101], 3, 12288, 4096),
        Err(EditMemoryError::FormatError)
    );
    // region not a whole number of pages, zero page size
    assert_eq!(
        PageBitmap::from_packed(&[0b101], 3, 12287, 4096),
        Err(EditMemoryError::FormatError)
    );
    assert_eq!(PageBitmap::from_packed(&[], 0, 0, 0), Err(EditMemoryError::FormatError));
}

#[test]
fn bitmap_payload_index_counts_present_pages() {
    let flags = vec![false, true, true, false, true];
    let bitmap = PageBitmap::new(flags, 50, 10).unwrap();
    assert_eq!(bitmap.payload_index(0), Ok(None));
    assert_eq!(bitmap.payload_index(1), Ok(Some(0)));
    assert_eq!(bitmap.payload_index(2), Ok(Some(1)));
    assert_eq!(bitmap.payload_index(3), Ok(None));
    assert_eq!(bitmap.payload_index(4), Ok(Some(2)));
    assert_eq!(bitmap.payload_index(5), Err(EditMemoryError::FormatError));
    assert_eq!(bitmap.present_before(0), 0);
    assert_eq!(bitmap.present_before(3), 2);
    assert_eq!(bitmap.present_before(5), 3);
    assert_eq!(bitmap.present_count(), 3);
}

#[test]
fn bitmap_len_rounds_up() {
    assert_eq!(bitmap_len(0), 0);
    assert_eq!(bitmap_len(1), 1);
    assert_eq!(bitmap_len(8), 1);
    assert_eq!(bitmap_len(9), 2);
    assert_eq!(bitmap_len(u64::MAX), 0x2000_0000_0000_0000);
}

#[test]
fn diff_header_fields() {
    let file = diff_file(4096, 12288, 3, &[0b101], &[]);
    assert_eq!(
        parse_diff_header(&file),
        Ok(DiffHeader { page_size: 4096, memory_size: 12288, page_count: 3 })
    );
    assert_eq!(parse_diff_header(&file[..23]), Err(EditMemoryError::FormatError));
    assert_eq!(DIFF_HEADER_LEN, 24);
}

#[test]
fn parse_diff_finds_payload() {
    let file = diff_file(16, 48, 3, &[0b110], &pages_of(&[1, 2], 16));
    let layout = parse_diff(&file).unwrap();
    assert_eq!(layout.page_size, 16);
    assert_eq!(layout.payload_start, 25);
    assert_eq!(layout.bitmap, PageBitmap::new(vec![false, true, true], 48, 16).unwrap());
}

#[test]
fn parse_diff_rejects_cut_bitmap() {
    let file = diff_file(16, 16 * 9, 9, &[0xff], &[]);
    assert_eq!(parse_diff(&file), Err(EditMemoryError::FormatError));
    assert_eq!(parse_diff(&[0u8; 5]), Err(EditMemoryError::FormatError));
}

#[test]
fn rebase_three_page_scenario() {
    let base = vec![0u8; 12288];
    let diff = diff_file(4096, 12288, 3, &[0b101], &pages_of(&[0xaa, 0xbb], 4096));
    let image = rebase(&base, &diff, 4096).unwrap();
    assert_eq!(image, pages_of(&[0xaa, 0x00, 0xbb], 4096));
}

#[test]
fn rebase_picks_each_page_by_its_bit() {
    let base = pages_of(&[10, 11, 12, 13, 14, 15, 16, 17, 18, 19], 8);
    let diff = diff_file(8, 80, 10, &[0b0100_1010, 0b10], &pages_of(&[91, 93, 96, 99], 8));
    let image = rebase(&base, &diff, 8).unwrap();
    assert_eq!(image, pages_of(&[10, 91, 12, 93, 14, 15, 96, 17, 18, 99], 8));
}

#[test]
fn rebase_copies_whole_pages_not_single_values() {
    let base: Vec<u8> = (0..32).collect();
    let stored: Vec<u8> = (100..108).collect();
    let diff = diff_file(8, 32, 4, &[0b0100], &stored);
    let mut expected = base.clone();
    expected[16..24].copy_from_slice(&stored);
    assert_eq!(rebase(&base, &diff, 8).unwrap(), expected);
}

#[test]
fn rebase_all_clear_reproduces_base() {
    let base: Vec<u8> = (0..=255).collect();
    let diff = diff_file(64, 256, 4, &[0], &[]);
    assert_eq!(rebase(&base, &diff, 64).unwrap(), base);
}

#[test]
fn rebase_all_set_reproduces_diff() {
    let stored: Vec<u8> = (0..=255).rev().collect();
    let diff = diff_file(64, 256, 4, &[0b1111], &stored);
    assert_eq!(rebase(&vec![0u8; 256], &diff, 64).unwrap(), stored);
    assert_eq!(rebase(&vec![0x5au8; 256], &diff, 64).unwrap(), stored);
}

#[test]
fn rebase_zero_length_region() {
    let diff = diff_file(4096, 0, 0, &[], &[]);
    assert_eq!(rebase(&[], &diff, 4096), Ok(Vec::new()));
}

#[test]
fn rebase_diff_may_cover_fewer_pages() {
    let base = pages_of(&[1, 2, 3, 4], 4);
    let diff = diff_file(4, 8, 2, &[0b10], &pages_of(&[9], 4));
    assert_eq!(rebase(&base, &diff, 4).unwrap(), pages_of(&[1, 9, 3, 4], 4));
}

#[test]
fn rebase_size_mismatch() {
    let base = pages_of(&[1, 2], 4);
    // the diff covers more pages than the base has
    let wide = diff_file(4, 12, 3, &[0], &[]);
    assert_eq!(rebase(&base, &wide, 4), Err(EditMemoryError::SizeMismatch));
    // the page sizes differ
    let other = diff_file(8, 8, 1, &[0], &[]);
    assert_eq!(rebase(&base, &other, 4), Err(EditMemoryError::SizeMismatch));
}

#[test]
fn rebase_format_errors() {
    let diff = diff_file(4, 8, 2, &[0b01], &pages_of(&[9], 4));
    // base is not a whole number of pages
    assert_eq!(rebase(&[0u8; 7], &diff, 4), Err(EditMemoryError::FormatError));
    // zero page size
    assert_eq!(rebase(&[0u8; 8], &diff, 0), Err(EditMemoryError::FormatError));
    // payload shorter and longer than the bitmap says
    let short = diff_file(4, 8, 2, &[0b11], &pages_of(&[9], 4));
    assert_eq!(rebase(&[0u8; 8], &short, 4), Err(EditMemoryError::FormatError));
    let long = diff_file(4, 8, 2, &[0b01], &pages_of(&[9, 9], 4));
    assert_eq!(rebase(&[0u8; 8], &long, 4), Err(EditMemoryError::FormatError));
    let ragged = diff_file(4, 8, 2, &[0b01], &[9, 9, 9]);
    assert_eq!(rebase(&[0u8; 8], &ragged, 4), Err(EditMemoryError::FormatError));
    // bitmap with a bit past the last page
    let stray = diff_file(4, 8, 2, &[0b101], &pages_of(&[9, 9], 4));
    assert_eq!(rebase(&[0u8; 8], &stray, 4), Err(EditMemoryError::FormatError));
    // no header at all
    assert_eq!(rebase(&[0u8; 8], &[], 4), Err(EditMemoryError::FormatError));
}

#[test]
fn rebase_leaves_inputs_alone() {
    let base = pages_of(&[1, 2], 4);
    let diff = diff_file(4, 8, 2, &[0b01], &pages_of(&[9], 4));
    let (base_copy, diff_copy) = (base.clone(), diff.clone());
    let _ = rebase(&base, &diff, 4);
    assert_eq!(base, base_copy);
    assert_eq!(diff, diff_copy);
}

#[test]
fn plan_hands_out_pages_in_order() {
    let bitmap = PageBitmap::new(vec![true, false, true], 12288, 4096).unwrap();
    let mut plan = MemoryRebaser::new(12288, 4096, 4096, bitmap, 8192).unwrap();
    assert_eq!(plan.remaining(), 3);
    assert_eq!(plan.next_copy(), Some(copy(PageSource::Diff, 0, 4096)));
    assert_eq!(plan.next_copy(), Some(copy(PageSource::Base, 4096, 4096)));
    assert_eq!(plan.remaining(), 1);
    assert_eq!(plan.next_copy(), Some(copy(PageSource::Diff, 4096, 4096)));
    assert_eq!(plan.next_copy(), None);
    assert_eq!(plan.next_copy(), None);
    assert_eq!(plan.remaining(), 0);
}

#[test]
fn plan_takes_uncovered_pages_from_base() {
    let bitmap = PageBitmap::new(vec![false, true], 20, 10).unwrap();
    let mut plan = MemoryRebaser::new(40, 10, 10, bitmap, 10).unwrap();
    assert_eq!(plan.next_copy(), Some(copy(PageSource::Base, 0, 10)));
    assert_eq!(plan.next_copy(), Some(copy(PageSource::Diff, 0, 10)));
    assert_eq!(plan.next_copy(), Some(copy(PageSource::Base, 20, 10)));
    assert_eq!(plan.next_copy(), Some(copy(PageSource::Base, 30, 10)));
    assert_eq!(plan.next_copy(), None);
}

#[test]
fn plan_errors_in_order() {
    let bitmap = || PageBitmap::new(vec![true, true, true], 30, 10).unwrap();
    assert_eq!(
        MemoryRebaser::new(25, 10, 7, bitmap(), 0).err(),
        Some(EditMemoryError::FormatError)
    );
    assert_eq!(
        MemoryRebaser::new(30, 0, 0, bitmap(), 0).err(),
        Some(EditMemoryError::FormatError)
    );
    assert_eq!(
        MemoryRebaser::new(30, 10, 7, bitmap(), 0).err(),
        Some(EditMemoryError::SizeMismatch)
    );
    assert_eq!(
        MemoryRebaser::new(20, 10, 10, bitmap(), 0).err(),
        Some(EditMemoryError::SizeMismatch)
    );
    assert_eq!(
        MemoryRebaser::new(30, 10, 10, bitmap(), 29).err(),
        Some(EditMemoryError::FormatError)
    );
    assert!(MemoryRebaser::new(30, 10, 10, bitmap(), 30).is_ok());
}

#[test]
fn plan_for_empty_base_is_done_at_once() {
    let bitmap = PageBitmap::new(vec![], 0, 4096).unwrap();
    let mut plan = MemoryRebaser::new(0, 4096, 4096, bitmap, 0).unwrap();
    assert_eq!(plan.next_copy(), None);
}
