use virtual_memory_sim::address::VirtualAddress;
use virtual_memory_sim::frame_table::{Frame, FrameTable};
use virtual_memory_sim::page_table::{Page, PageTable};
use virtual_memory_sim::storage;
use virtual_memory_sim::storage::Storage;
use virtual_memory_sim::tlb::TLB;
use virtual_memory_sim::virtual_memory::{AccessResult, Error, VirtualMemory};

const SIZE_FRAME: u64 = 256;
const SIZE_TABLE: usize = 256;
const TEST_TABLE_SIZE: usize = 4;
const TEST_FRAME_SIZE: u64 = 64;
const SIZE_TEST: usize = 3;

/// The store of 65536 bytes that holds the numbers 0, 1, 2 and so on, four
/// bytes each, the most significant byte first.
fn canonical_image() -> Vec<u8> {
    let mut image: Vec<u8> = Vec::with_capacity(0x10000);
    for number in 0..0x4000u32 {
        image.extend_from_slice(&number.to_be_bytes());
    }
    image
}

fn standard_memory(tlb_size: usize, frame_table_size: usize) -> VirtualMemory {
    VirtualMemory::build(tlb_size, frame_table_size, SIZE_FRAME, Storage::build(canonical_image()))
}

fn page(number: u8) -> VirtualAddress {
    VirtualAddress { number_page: number, number_offset: 0, extra_bits: 0 }
}

fn make_standard_page_table() -> PageTable {
    let mut table = PageTable::build();

    (0..10).for_each(|x| {
        table.insert(
            x,
            Page {
                frame_index: x,
                valid: true,
            },
        )
    });
    table
}

fn make_standard_frame_table() -> FrameTable {
    let mut table = FrameTable::build(TEST_TABLE_SIZE, TEST_FRAME_SIZE);

    (0..TEST_TABLE_SIZE).for_each(|x| {
        let frame_number = table.allocate();
        table.set_owner(frame_number, x);
        table.store(frame_number, 0, x as u8);
    });
    table
}

#[test]
fn virtual_memory_new() {
    let page = Page {
        frame_index: 0xF,
        valid: false,
    };
    assert_eq!(page.valid, false);
    assert_eq!(page.frame_index, 0xF);

    let frame = Frame::new(SIZE_FRAME);
    assert_eq!(frame.buffer.len(), SIZE_FRAME as usize);
    assert!(frame.buffer.iter().all(|x| *x == 0));

    let ft = make_standard_frame_table();
    assert_eq!(ft.len(), TEST_TABLE_SIZE);
    assert_eq!(ft.frame_size(), TEST_FRAME_SIZE);
}

#[test]
fn virtual_memory_build() {
    let table = PageTable::build();
    assert!(table.0.len() == 0);

    let tlb = TLB::build(SIZE_TEST);
    assert_eq!(tlb.len(), 0);
    assert_eq!(tlb.table_size(), SIZE_TEST);
}

#[test]
fn find() {
    let table = make_standard_page_table();
    let range_max = 10;

    (0..range_max).for_each(|x| {
        let page: &Page = table.find(x).unwrap();
        assert_eq!(x, page.frame_index);
    });

    assert_eq!(table.find(range_max + 1), None);
}

#[test]
fn find_mut() {
    let mut table = make_standard_page_table();
    let range_max = 10;

    (0..range_max).for_each(|mut x| {
        let page: &mut Page = table.find_mut(x).unwrap();
        assert_eq!(&mut x, &mut page.frame_index);
    });

    assert_eq!(table.find(range_max + 1), None);
}

#[test]
fn insert() {
    let mut table = make_standard_page_table();
    let page_id = 5;
    let frame_index = 55;
    let new_page = Page {
        frame_index,
        valid: true,
    };

    table.insert(page_id, new_page);

    assert_eq!(
        table.find(page_id),
        Some(&Page {
            frame_index,
            valid: true
        })
    );
}

#[test]
fn allocate() {
    let mut ft = make_standard_frame_table();
    assert_eq!(ft.front().unwrap(), 0);
    ft.allocate();
    assert_eq!(ft.front().unwrap(), 1);
}

#[test]
fn reference() {
    let mut ft = make_standard_frame_table();
    assert_eq!(ft.front().unwrap(), 0);
    ft.reference(0);
    assert_eq!(ft.back().unwrap(), 0);
}

#[test]
fn virtual_memory_find_and_replace() {
    let mut tlb = TLB::build(SIZE_TEST);
    let min = 0;
    let max = 5;

    (min..max).for_each(|x| {
        assert!(tlb.find(x).is_none());
        tlb.cache_element(x, x);
        assert!(tlb.find(x).is_some());
    });

    assert!(tlb.find(max).is_none());
}

#[test]
fn find_mut_changes_the_entry_in_place() {
    let mut table = make_standard_page_table();
    table.find_mut(3).unwrap().valid = false;
    assert_eq!(table.find(3), Some(&Page { frame_index: 3, valid: false }));
    assert_eq!(table.find(4), Some(&Page { frame_index: 4, valid: true }));
    assert!(table.find_mut(11).is_none());
    assert_eq!(table.0.len(), 10);
}

#[test]
fn page_new_is_not_valid() {
    assert_eq!(Page::new(7), Page { frame_index: 7, valid: false });
}

#[test]
fn frame_new_holds_no_page() {
    let frame = Frame::new(16);
    assert_eq!(frame.associated_page_id, None);
    assert_eq!(frame.size(), 16);
    assert_eq!(Frame::new(0).size(), 0);
}

#[test]
fn tlb_drops_the_oldest_entry_when_full() {
    let mut tlb = TLB::build(2);
    tlb.cache_element(1, 10);
    tlb.cache_element(2, 20);
    assert_eq!(tlb.front(), Some((1, 10)));
    assert_eq!(tlb.back(), Some((2, 20)));
    tlb.cache_element(3, 30);
    assert_eq!(tlb.len(), 2);
    assert_eq!(tlb.find(1), None);
    assert_eq!(tlb.find(2), Some(20));
    assert_eq!(tlb.find(3), Some(30));
    assert_eq!(tlb.front(), Some((2, 20)));
    assert_eq!(tlb.back(), Some((3, 30)));
}

#[test]
fn tlb_find_moves_nothing() {
    let mut tlb = TLB::build(2);
    tlb.cache_element(1, 10);
    tlb.cache_element(2, 20);
    assert_eq!(tlb.find(1), Some(10));
    assert_eq!(tlb.front(), Some((1, 10)));
    assert_eq!(tlb.back(), Some((2, 20)));
    tlb.cache_element(3, 30);
    assert_eq!(tlb.find(1), None);
}

#[test]
fn tlb_caching_a_cached_page_reseats_it() {
    let mut tlb = TLB::build(2);
    tlb.cache_element(1, 10);
    tlb.cache_element(2, 20);
    tlb.cache_element(1, 11);
    assert_eq!(tlb.len(), 2);
    assert_eq!(tlb.front(), Some((2, 20)));
    assert_eq!(tlb.back(), Some((1, 11)));
    assert_eq!(tlb.find(1), Some(11));
    assert_eq!(tlb.find(2), Some(20));
}

#[test]
fn tlb_flush_says_whether_it_removed() {
    let mut tlb = TLB::build(3);
    assert_eq!(tlb.front(), None);
    assert_eq!(tlb.back(), None);
    tlb.cache_element(1, 10);
    tlb.cache_element(2, 20);
    tlb.cache_element(3, 30);
    assert!(tlb.flush_element(2));
    assert!(!tlb.flush_element(2));
    assert!(!tlb.flush_element(9));
    assert_eq!(tlb.len(), 2);
    assert_eq!(tlb.front(), Some((1, 10)));
    assert_eq!(tlb.back(), Some((3, 30)));
    assert_eq!(tlb.find(2), None);
}

#[test]
fn frame_table_starts_in_index_order() {
    let mut ft = FrameTable::build(3, 8);
    assert_eq!(ft.len(), 3);
    assert_eq!(ft.front(), Some(0));
    assert_eq!(ft.back(), Some(2));
    assert_eq!(ft.owner(0), None);
    assert_eq!(ft.owner(2), None);
    assert_eq!(ft.allocate(), 0);
    assert_eq!(ft.allocate(), 1);
    assert_eq!(ft.back(), Some(1));
    ft.reference(2);
    assert_eq!(ft.back(), Some(2));
    assert_eq!(ft.front(), Some(0));
    assert_eq!(ft.allocate(), 0);
    assert_eq!(ft.allocate(), 1);
    assert_eq!(ft.allocate(), 2);
    assert_eq!(ft.allocate(), 0);
}

#[test]
fn frame_table_order_follows_the_references() {
    let mut ft = FrameTable::build(4, 8);
    assert_eq!(ft.order(), vec![0, 1, 2, 3]);
    ft.reference(1);
    assert_eq!(ft.order(), vec![0, 2, 3, 1]);
    ft.reference(1);
    assert_eq!(ft.order(), vec![0, 2, 3, 1]);
    assert_eq!(ft.allocate(), 0);
    assert_eq!(ft.order(), vec![2, 3, 1, 0]);
    ft.reference(3);
    assert_eq!(ft.order(), vec![2, 1, 0, 3]);
}

#[test]
fn tlb_entries_run_from_oldest_to_newest() {
    let mut tlb = TLB::build(3);
    assert_eq!(tlb.entries(), Vec::<(usize, usize)>::new());
    tlb.cache_element(7, 70);
    tlb.cache_element(5, 50);
    tlb.cache_element(9, 90);
    assert_eq!(tlb.entries(), vec![(7, 70), (5, 50), (9, 90)]);
    tlb.cache_element(5, 51);
    assert_eq!(tlb.entries(), vec![(7, 70), (9, 90), (5, 51)]);
    tlb.cache_element(1, 10);
    assert_eq!(tlb.entries(), vec![(9, 90), (5, 51), (1, 10)]);
    tlb.flush_element(5);
    assert_eq!(tlb.entries(), vec![(9, 90), (1, 10)]);
}

#[test]
fn frame_table_of_no_frames_has_no_order() {
    let ft = FrameTable::build(0, 8);
    assert_eq!(ft.order(), Vec::<usize>::new());
    assert_eq!(ft.len(), 0);
    assert_eq!(ft.front(), None);
    assert_eq!(ft.back(), None);
}

#[test]
fn frame_table_keeps_owner_and_bytes() {
    let mut ft = make_standard_frame_table();
    for x in 0..TEST_TABLE_SIZE {
        assert_eq!(ft.owner(x), Some(x));
        assert_eq!(ft.byte(x, 0), x as u8);
        assert_eq!(ft.byte(x, 1), 0);
        assert_eq!(ft.frame(x).associated_page_id, Some(x));
        assert_eq!(ft.frame(x).buffer.len(), TEST_FRAME_SIZE as usize);
    }
    ft.set_owner(2, 77);
    assert_eq!(ft.owner(2), Some(77));
    assert_eq!(ft.owner(1), Some(1));
}

#[test]
fn read_frame() {
    let store = Storage::build(canonical_image());
    let mut ft = FrameTable::build(256, 256);
    ft.load(0, &store, 0).unwrap();
    let frame = ft.frame(0);
    assert_eq!(frame.buffer[7], 0x01);
    assert_eq!(frame.buffer[11], 0x02);
    assert_eq!(frame.buffer[15], 0x03);
}

#[test]
fn load_past_the_end_leaves_the_frame() {
    let store = Storage::build(canonical_image());
    let mut ft = FrameTable::build(2, 256);
    ft.load(1, &store, 255).unwrap();
    assert_eq!(ft.byte(1, 255), 0xff);
    assert_eq!(ft.load(1, &store, 256), Err(storage::Error::UnexpectedEof));
    assert_eq!(ft.byte(1, 255), 0xff);
    assert_eq!(ft.byte(0, 255), 0);
}

#[test]
fn cold_access_loads_the_page_into_the_first_frame() {
    let image = canonical_image();
    let mut vm = standard_memory(16, SIZE_TABLE);
    let result = vm.access(VirtualAddress::from(16916)).unwrap();
    assert_eq!(result.virtual_address.number_page, 66);
    assert_eq!(result.virtual_address.number_offset, 20);
    assert_eq!(result.physical_address, 20);
    assert_eq!(result.value, image[66 * 256 + 20] as i8);
    assert_eq!(result.value, 0);
    assert_eq!(vm.frames().owner(0), Some(66));
    assert_eq!(vm.pages().find(66), Some(&Page { frame_index: 0, valid: true }));
    assert_eq!(vm.tlb().find(66), Some(0));
    assert_eq!(vm.frames().byte(0, 7), image[66 * 256 + 7]);
    assert_eq!(vm.frames().byte(0, 7), 129);
    assert_eq!(image[7], 0x01);
    assert_eq!(image[11], 0x02);
    assert_eq!(image[15], 0x03);
}

#[test]
fn access_reads_a_signed_byte() {
    let mut vm = standard_memory(16, SIZE_TABLE);
    let address = VirtualAddress::from(12107);
    assert_eq!(address.number_page, 47);
    assert_eq!(address.number_offset, 75);
    assert_eq!(address.extra_bits, 0);
    let result = vm.access(address).unwrap();
    assert_eq!(result.value, -46);
    assert_eq!(result.physical_address, 75);
}

#[test]
fn access_follows_the_first_records_of_the_trace() {
    let records: Vec<(u32, u32, i8)> = vec![
        (16916, 20, 0),
        (62493, 285, 0),
        (30198, 758, 29),
        (53683, 947, 108),
        (40185, 1273, 0),
        (28781, 1389, 0),
        (24462, 1678, 23),
        (48399, 1807, 67),
        (64815, 2095, 75),
        (18295, 2423, -35),
        (12218, 2746, 11),
        (22760, 3048, 0),
        (57982, 3198, 56),
        (27966, 3390, 27),
        (54894, 3694, 53),
        (38929, 3857, 0),
    ];
    let mut vm = standard_memory(16, SIZE_TABLE);
    for (address, physical_address, value) in records {
        let result = vm.access(VirtualAddress::from(address)).unwrap();
        assert_eq!(result.physical_address, physical_address);
        assert_eq!(result.value, value);
    }
    assert_eq!(vm.tracker().attempted_memory_accesses, 16);
    assert_eq!(vm.tracker().tlb_hits, 0);
    assert_eq!(vm.tracker().page_hits, 0);
}

#[test]
fn access_returns_frame_times_size_plus_offset() {
    let image = canonical_image();
    let mut vm = standard_memory(2, 3);
    let pages: Vec<u8> = vec![5, 9, 5, 200, 7, 9, 255, 0, 5];
    for (step, number) in pages.iter().enumerate() {
        let offset = (step * 37 % 256) as u8;
        let address = VirtualAddress { number_page: *number, number_offset: offset, extra_bits: 3 };
        let result = vm.access(address).unwrap();
        let frame = vm.pages().find(*number as usize).unwrap().frame_index;
        assert!(vm.pages().find(*number as usize).unwrap().valid);
        assert_eq!(result.virtual_address, address);
        assert_eq!(result.physical_address as usize, frame * 256 + offset as usize);
        assert_eq!(result.value, image[*number as usize * 256 + offset as usize] as i8);
        assert_eq!(vm.frames().owner(frame), Some(*number as usize));
        assert_eq!(vm.frames().back(), Some(frame));
    }
}

#[test]
fn tlb_hit_on_a_repeated_page() {
    let mut vm = standard_memory(2, SIZE_TABLE);
    vm.access(page(1)).unwrap();
    vm.access(page(2)).unwrap();
    assert_eq!(vm.tracker().tlb_hits, 0);
    vm.access(page(1)).unwrap();
    assert_eq!(vm.tracker().tlb_hits, 1);
    assert_eq!(vm.tlb().len(), 2);
    assert_eq!(vm.tlb().find(1), Some(0));
    assert_eq!(vm.tlb().find(2), Some(1));
    assert_eq!(vm.tlb().front(), Some((1, 0)));
    assert_eq!(vm.tlb().back(), Some((2, 1)));
    assert_eq!(vm.tlb().entries(), vec![(1, 0), (2, 1)]);
    assert_eq!(vm.frames().back(), Some(0));
    assert_eq!(vm.frames().order()[253..].to_vec(), vec![255, 1, 0]);
}

#[test]
fn tlb_replacement_leaves_the_page_table_alone() {
    let mut vm = standard_memory(2, SIZE_TABLE);
    vm.access(page(1)).unwrap();
    vm.access(page(2)).unwrap();
    vm.access(page(3)).unwrap();
    assert_eq!(vm.tlb().len(), 2);
    assert_eq!(vm.tlb().find(1), None);
    assert_eq!(vm.tlb().find(2), Some(1));
    assert_eq!(vm.tlb().find(3), Some(2));
    assert_eq!(vm.tlb().entries(), vec![(2, 1), (3, 2)]);
    assert_eq!(vm.pages().find(1), Some(&Page { frame_index: 0, valid: true }));
    assert_eq!(vm.tracker().tlb_flushes, 0);
    vm.access(page(1)).unwrap();
    assert_eq!(vm.tracker().page_hits, 1);
    assert_eq!(vm.tracker().tlb_hits, 0);
    assert_eq!(vm.tlb().find(2), None);
    assert_eq!(vm.tlb().back(), Some((1, 0)));
}

#[test]
fn page_fault_evicts_the_least_recently_used_frame() {
    let mut vm = standard_memory(2, 2);
    vm.access(page(1)).unwrap();
    vm.access(page(2)).unwrap();
    assert_eq!(vm.tlb().find(1), Some(0));
    let result = vm.access(page(3)).unwrap();
    assert_eq!(result.physical_address, 0);
    assert_eq!(vm.pages().find(1), Some(&Page { frame_index: 0, valid: false }));
    assert_eq!(vm.pages().find(3), Some(&Page { frame_index: 0, valid: true }));
    assert_eq!(vm.tlb().find(1), None);
    assert_eq!(vm.tracker().tlb_flushes, 1);
    assert_eq!(vm.frames().owner(0), Some(3));
    assert_eq!(vm.frames().owner(1), Some(2));
    assert_eq!(vm.tlb().front(), Some((2, 1)));
    assert_eq!(vm.tlb().back(), Some((3, 0)));
}

#[test]
fn page_fault_flushes_nothing_where_the_victim_is_not_cached() {
    let mut vm = standard_memory(1, 2);
    vm.access(page(1)).unwrap();
    vm.access(page(2)).unwrap();
    assert_eq!(vm.tlb().find(1), None);
    vm.access(page(3)).unwrap();
    assert_eq!(vm.pages().find(1), Some(&Page { frame_index: 0, valid: false }));
    assert_eq!(vm.tracker().tlb_flushes, 0);
}

#[test]
fn evicted_page_comes_back_on_its_next_access() {
    let image = canonical_image();
    let mut vm = standard_memory(2, 2);
    vm.access(page(1)).unwrap();
    vm.access(page(2)).unwrap();
    vm.access(page(3)).unwrap();
    let address = VirtualAddress { number_page: 1, number_offset: 7, extra_bits: 0 };
    let result = vm.access(address).unwrap();
    assert_eq!(result.physical_address, 256 + 7);
    assert_eq!(result.value, image[256 + 7] as i8);
    assert_eq!(vm.pages().find(1), Some(&Page { frame_index: 1, valid: true }));
    assert_eq!(vm.pages().find(2), Some(&Page { frame_index: 1, valid: false }));
    assert_eq!(vm.tracker().attempted_memory_accesses, 4);
    assert_eq!(vm.tracker().tlb_hits + vm.tracker().page_hits, 0);
}

#[test]
fn second_access_is_a_tlb_hit_with_the_same_result() {
    let mut vm = standard_memory(2, 2);
    vm.access(page(9)).unwrap();
    let address = VirtualAddress::from(0x0007_0c2b);
    let first = vm.access(address).unwrap();
    let hits = vm.tracker().tlb_hits;
    let second = vm.access(address).unwrap();
    assert_eq!(first, second);
    assert_eq!(first.physical_address, second.physical_address);
    assert_eq!(vm.tracker().tlb_hits, hits + 1);
    assert_eq!(vm.tracker().attempted_memory_accesses, 3);
}

#[test]
fn counters_add_up_and_the_order_keeps_every_frame() {
    let mut vm = standard_memory(3, 4);
    let pages: Vec<u8> = vec![1, 2, 3, 1, 4, 5, 1, 6, 2, 2, 7, 3, 1, 8, 9, 4, 4, 1];
    let mut loaded: Vec<u8> = Vec::new();
    for (done, number) in pages.iter().enumerate() {
        vm.access(page(*number)).unwrap();
        if !loaded.contains(number) {
            loaded.push(*number);
        }
        let tracker = vm.tracker();
        let faults = tracker.attempted_memory_accesses - tracker.tlb_hits - tracker.page_hits;
        assert_eq!(tracker.attempted_memory_accesses, done + 1);
        assert_eq!(vm.pages().0.len(), loaded.len());
        assert!(loaded.len() <= faults);
        let occupied = (0..4).filter(|f| vm.frames().owner(*f).is_some()).count();
        assert!(loaded.len() <= 4 + (faults - occupied));
        assert!(tracker.tlb_flushes <= faults - occupied);
        assert!(vm.tlb().len() <= 3);
        let mut order = vm.frames().order();
        assert_eq!(order.len(), 4);
        order.sort();
        assert_eq!(order, vec![0, 1, 2, 3]);
    }
}

#[test]
fn access_fails_where_the_store_lacks_the_page() {
    let mut image = canonical_image();
    image.truncate(3 * 256 + 255);
    let mut vm = VirtualMemory::build(2, 2, SIZE_FRAME, Storage::build(image));
    assert!(vm.access(page(2)).is_ok());
    let result = vm.access(page(3));
    assert_eq!(result, Err(Error::BackingRead(storage::Error::UnexpectedEof)));
    assert_eq!(vm.tracker().attempted_memory_accesses, 2);
    assert_eq!(vm.pages().find(3), None);
    assert_eq!(vm.tlb().find(3), None);
}

#[test]
fn error_comes_from_the_storage_error() {
    assert_eq!(Error::from(storage::Error::UnexpectedEof), Error::BackingRead(storage::Error::UnexpectedEof));
}

#[test]
fn record_correct_counts_one() {
    let mut vm = standard_memory(2, 2);
    vm.record_correct();
    vm.record_correct();
    assert_eq!(vm.tracker().correct_memory_accesses, 2);
    assert_eq!(vm.tracker().attempted_memory_accesses, 0);
}

#[test]
fn access_result_can_be_built_and_compared() {
    let a = AccessResult { virtual_address: VirtualAddress::from(1), physical_address: 1, value: -1 };
    assert!(a == a);
}
