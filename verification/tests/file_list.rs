use uefi_shell::cstr16::CStr16;
use uefi_shell::file_list::{
    FileList, ListEntry, ListLoader, ListMemory, ShellFileHandle, ShellFileInfo,
};
use uefi_shell::status::{Status, SUCCESS};

const NAMES: [&[u16]; 4] = [&[0], &[b'a' as u16, 0], &[b'b' as u16, 0], &[b'c' as u16, 0]];

fn record(flink: usize, blink: usize, name: usize) -> ShellFileInfo<'static> {
    let text = CStr16::from_u16_with_nul(NAMES[name]).unwrap();
    ShellFileInfo {
        link: ListEntry { flink, blink },
        status: Status(SUCCESS),
        full_name: text,
        file_name: text,
        shell_file_handle: ShellFileHandle(0x9000 + name),
        info: 0,
    }
}

/// A head at 0x100 followed by three entries at 0x400, 0x200 and 0x300.
fn three_entries() -> ListMemory<'static> {
    let mut memory = ListMemory::new();
    memory.insert(0x300, record(0, 0x200, 3));
    memory.insert(0x100, record(0x400, 0, 0));
    memory.insert(0x200, record(0x300, 0x400, 2));
    memory.insert(0x400, record(0x200, 0x100, 1));
    memory
}

fn name_of(record: &ShellFileInfo) -> u16 {
    record.file_name().to_u16_slice_with_nul()[0]
}

#[test]
fn forward_iteration_yields_entries_in_list_order() {
    let memory = three_entries();
    assert!(memory.holds_list(0x100));
    let mut list = FileList::new(0x100, memory);
    let mut iter = list.iter();
    assert_eq!(name_of(iter.next().unwrap()), b'a' as u16);
    assert_eq!(name_of(iter.next().unwrap()), b'b' as u16);
    assert_eq!(name_of(iter.next().unwrap()), b'c' as u16);
    assert!(iter.next().is_none());
    assert!(iter.next().is_none());
}

#[test]
fn backward_iteration_yields_entries_in_reverse_order() {
    let mut list = FileList::new(0x100, three_entries());
    let mut iter = list.iter();
    assert_eq!(name_of(iter.next_back().unwrap()), b'c' as u16);
    assert_eq!(name_of(iter.next_back().unwrap()), b'b' as u16);
    assert_eq!(name_of(iter.next_back().unwrap()), b'a' as u16);
    assert!(iter.next_back().is_none());
    assert!(iter.next_back().is_none());
}

#[test]
fn get_is_the_forward_item_at_that_index() {
    let mut list = FileList::new(0x100, three_entries());
    assert_eq!(name_of(list.get(0).unwrap()), b'a' as u16);
    assert_eq!(name_of(list.get(1).unwrap()), b'b' as u16);
    assert_eq!(name_of(list.get(2).unwrap()), b'c' as u16);
    assert!(list.get(3).is_none());
    assert!(list.get(usize::MAX).is_none());
}

#[test]
fn first_is_the_head_and_last_the_final_record() {
    let mut list = FileList::new(0x100, three_entries());
    assert_eq!(list.first().shell_file_handle, ShellFileHandle(0x9000));
    assert_eq!(list.last().shell_file_handle, ShellFileHandle(0x9003));
    assert_eq!(list.last().shell_file_handle, ShellFileHandle(0x9003));
}

#[test]
fn release_gives_the_head_the_list_was_made_with() {
    let mut list = FileList::new(0x100, three_entries());
    {
        let mut iter = list.iter();
        iter.next();
        iter.next_back();
    }
    list.get(1);
    assert_eq!(list.release(), 0x100);
}

#[test]
fn a_list_of_the_head_alone_has_no_entries() {
    let mut memory = ListMemory::new();
    memory.insert(0x100, record(0, 0, 0));
    assert!(memory.holds_list(0x100));
    let mut list = FileList::new(0x100, memory);
    assert!(list.get(0).is_none());
    assert_eq!(list.first().shell_file_handle, ShellFileHandle(0x9000));
    assert_eq!(list.last().shell_file_handle, ShellFileHandle(0x9000));
    let mut iter = list.iter();
    assert!(iter.next_back().is_none());
    assert!(iter.next().is_none());
}

#[test]
fn backward_steps_stop_where_they_meet_the_forward_cursor() {
    let mut list = FileList::new(0x100, three_entries());
    let mut iter = list.iter();
    assert_eq!(name_of(iter.next().unwrap()), b'a' as u16);
    assert_eq!(name_of(iter.next_back().unwrap()), b'c' as u16);
    assert_eq!(name_of(iter.next_back().unwrap()), b'b' as u16);
    assert!(iter.next_back().is_none());
    assert_eq!(name_of(iter.next().unwrap()), b'b' as u16);
}

#[test]
fn memory_keeps_what_was_inserted() {
    let mut memory = ListMemory::new();
    assert_eq!(memory.len(), 0);
    assert!(!memory.contains(0x10));
    assert!(memory.get(0x10).is_none());
    memory.insert(0x10, record(0, 0, 1));
    memory.insert(0x10, record(0, 0, 2));
    memory.insert(0x20, record(0, 0, 3));
    assert_eq!(memory.len(), 2);
    assert!(memory.contains(0x10));
    assert_eq!(memory.get(0x10).unwrap().shell_file_handle, ShellFileHandle(0x9002));
    assert_eq!(memory.get(0x20).unwrap().shell_file_handle, ShellFileHandle(0x9003));
}

#[test]
fn holds_list_refuses_what_is_no_list() {
    let memory = three_entries();
    assert!(!memory.holds_list(0));
    assert!(!memory.holds_list(0x500));
    // From the middle the backward links still fit, so a list stands there too.
    assert!(memory.holds_list(0x400));
    assert!(memory.holds_list(0x300));

    let mut dangling = ListMemory::new();
    dangling.insert(0x100, record(0x200, 0, 0));
    assert!(!dangling.holds_list(0x100));

    let mut bad_blink = ListMemory::new();
    bad_blink.insert(0x100, record(0x200, 0, 0));
    bad_blink.insert(0x200, record(0, 0x300, 1));
    assert!(!bad_blink.holds_list(0x100));

    let mut circle = ListMemory::new();
    circle.insert(0x100, record(0x200, 0x200, 0));
    circle.insert(0x200, record(0x100, 0x100, 1));
    assert!(!circle.holds_list(0x100));

    let mut at_null = ListMemory::new();
    at_null.insert(0, record(0, 0, 0));
    assert!(!at_null.holds_list(0));
}

#[test]
fn loader_follows_the_forward_links_and_stops_at_the_end() {
    let firmware = three_entries();
    let mut loader = ListLoader::new(0x100);
    let mut asked = Vec::new();
    while let Some(address) = loader.wanted() {
        asked.push(address);
        loader.supply(*firmware.get(address).unwrap());
    }
    assert_eq!(asked, [0x100, 0x400, 0x200, 0x300]);
    loader.supply(record(0x700, 0, 0));
    assert!(loader.wanted().is_none());
    let memory = loader.finish();
    assert_eq!(memory.len(), 4);
    assert!(memory.holds_list(0x100));
}

#[test]
fn loader_stops_where_the_links_lead_back() {
    let mut loader = ListLoader::new(0x100);
    assert_eq!(loader.wanted(), Some(0x100));
    loader.supply(record(0x200, 0x200, 0));
    assert_eq!(loader.wanted(), Some(0x200));
    loader.supply(record(0x100, 0x100, 1));
    assert!(loader.wanted().is_none());
    assert_eq!(loader.finish().len(), 2);
    assert!(ListLoader::new(0).wanted().is_none());
}

#[test]
fn file_name_is_the_leaf_name_of_the_record() {
    let info = record(0, 0, 2);
    assert_eq!(info.file_name().to_u16_slice(), &[b'b' as u16]);
}
