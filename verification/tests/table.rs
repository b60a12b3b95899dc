use virtual_memory_sim::frame_table::Frame;
use virtual_memory_sim::page_table::Page;
use virtual_memory_sim::tlb::TLB;

const SIZE_FRAME: u64 = 256;
const SIZE_TEST: usize = 3;

#[test]
fn table_new() {
    let page = Page::new(0xF);
    assert_eq!(page.valid, false);
    assert_eq!(page.frame_index, 0xF);

    let frame = Frame::new(SIZE_FRAME);
    assert_eq!(frame.associated_page_id, None);
    assert_eq!(frame.buffer.len(), SIZE_FRAME as usize);
    assert!(frame.buffer.iter().all(|x| *x == 0));
}

#[test]
fn table_find_and_replace() {
    let mut tlb = TLB::build(SIZE_TEST);

    (0..5).for_each(|x| {
        assert!(tlb.find(x).is_none());
        tlb.cache_element(x, x);
        assert!(tlb.find(x).is_some());
    });

    assert!(tlb.find(0).is_none());
}
