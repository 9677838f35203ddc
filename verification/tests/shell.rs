use uefi_shell::cstr16::CStr16;
use uefi_shell::file_list::{ListEntry, ListLoader, ListMemory, ShellFileHandle, ShellFileInfo};
use uefi_shell::shell::{
    create_file, execute, find_files, find_files_in_dir, get_cur_dir, get_env, holds_found_list,
    list_loader,
};
use uefi_shell::status::{Error, Status, ABORTED, NOT_FOUND, SUCCESS, WARN_FILE_SYSTEM};

fn units(text: &str) -> Vec<u16> {
    text.encode_utf16().collect()
}

#[test]
fn get_env_lists_the_names_of_the_environment() {
    let buffer = units("path\0nonesting\0\0");
    let names = get_env(None, Some(&buffer)).unwrap().vec().unwrap();
    let path = units("path\0");
    let nonesting = units("nonesting\0");
    assert_eq!(names.len(), 2);
    assert_eq!(*names.get(0).unwrap(), CStr16::from_u16_with_nul(&path).unwrap());
    assert_eq!(*names.get(1).unwrap(), CStr16::from_u16_with_nul(&nonesting).unwrap());
}

#[test]
fn get_env_of_an_unset_name_is_none_and_of_a_set_name_its_value() {
    let name = units("test_var\0");
    let name = CStr16::from_u16_with_nul(&name).unwrap();
    assert!(get_env(Some(&name), None).is_none());
    let stored = units("test_val\0");
    let value = get_env(Some(&name), Some(&stored)).unwrap().val().unwrap();
    assert_eq!(value, CStr16::from_u16_with_nul(&stored).unwrap());
}

#[test]
fn get_env_value_ends_at_the_first_null() {
    let name = units("v\0");
    let name = CStr16::from_u16_with_nul(&name).unwrap();
    let memory = units("one\0two\0\0");
    let value = get_env(Some(&name), Some(&memory)).unwrap().val().unwrap();
    assert_eq!(value.to_u16_slice_with_nul(), &units("one\0")[..]);
    let open = units("open");
    assert!(get_env(Some(&name), Some(&open)).is_none());
}

#[test]
fn get_env_answers_are_of_the_kind_asked_for() {
    let name = units("v\0");
    let name = CStr16::from_u16_with_nul(&name).unwrap();
    let memory = units("one\0\0");
    assert!(get_env(Some(&name), Some(&memory)).unwrap().vec().is_none());
    assert!(get_env(None, Some(&memory)).unwrap().val().is_none());
    assert!(get_env(None, None).is_none());
}

#[test]
fn get_cur_dir_turns_a_null_pointer_into_none() {
    assert!(get_cur_dir(None).is_none());
    let memory = units("fs0:\\efi\0junk");
    let dir = get_cur_dir(Some(&memory)).unwrap();
    assert_eq!(dir.to_u16_slice_with_nul(), &units("fs0:\\efi\0")[..]);
}

#[test]
fn execute_gives_the_command_status_on_success() {
    assert_eq!(execute(Status(SUCCESS), Status(NOT_FOUND)), Ok(Status(NOT_FOUND)));
    assert_eq!(
        execute(Status(ABORTED), Status(SUCCESS)),
        Err(Error { status: Status(ABORTED), data: () })
    );
}

#[test]
fn create_file_gives_the_handle_on_success() {
    let handle = ShellFileHandle(0x7000);
    assert_eq!(create_file(Status(SUCCESS), handle), Ok(handle));
    assert_eq!(
        create_file(Status(WARN_FILE_SYSTEM), handle),
        Err(Error { status: Status(WARN_FILE_SYSTEM), data: () })
    );
}

#[test]
fn find_files_without_matches_is_ok_none() {
    let found = find_files(Status(SUCCESS), 0, ListMemory::new());
    assert!(matches!(found, Ok(None)));
    let found = find_files_in_dir(Status(SUCCESS), 0, ListMemory::new());
    assert!(matches!(found, Ok(None)));
}

#[test]
fn find_files_passes_a_failure_on() {
    let found = find_files(Status(NOT_FOUND), 0, ListMemory::new());
    assert_eq!(found.err(), Some(Error { status: Status(NOT_FOUND), data: () }));
    let found = find_files_in_dir(Status(WARN_FILE_SYSTEM), 0x100, ListMemory::new());
    assert_eq!(found.err(), Some(Error { status: Status(WARN_FILE_SYSTEM), data: () }));
}

#[test]
fn find_files_wraps_the_list_that_was_loaded() {
    let names = [units("\0"), units("a.efi\0"), units("b.efi\0")];
    let firmware = [
        (0x1000usize, 0x3000usize, 0usize),
        (0x3000, 0x2000, 0x1000),
        (0x2000, 0, 0x3000),
    ];
    let mut loader = ListLoader::new(0x1000);
    let mut reads = 0;
    while let Some(address) = loader.wanted() {
        let at = firmware.iter().position(|r| r.0 == address).unwrap();
        let name = CStr16::from_u16_with_nul(&names[at]).unwrap();
        loader.supply(ShellFileInfo {
            link: ListEntry { flink: firmware[at].1, blink: firmware[at].2 },
            status: Status(SUCCESS),
            full_name: name,
            file_name: name,
            shell_file_handle: ShellFileHandle(at),
            info: 0,
        });
        reads += 1;
    }
    assert_eq!(reads, 3);
    let memory = loader.finish();
    assert!(memory.holds_list(0x1000));
    let mut list = find_files(Status(SUCCESS), 0x1000, memory).unwrap().unwrap();
    assert_eq!(list.get(0).unwrap().file_name().to_u16_slice(), &units("a.efi")[..]);
    assert_eq!(list.get(1).unwrap().file_name().to_u16_slice(), &units("b.efi")[..]);
    assert!(list.get(2).is_none());
    assert_eq!(list.release(), 0x1000);
}

fn head_record(flink: usize) -> ShellFileInfo<'static> {
    let name = CStr16::from_u16_with_nul(&[0]).unwrap();
    ShellFileInfo {
        link: ListEntry { flink, blink: 0 },
        status: Status(SUCCESS),
        full_name: name,
        file_name: name,
        shell_file_handle: ShellFileHandle(0),
        info: 0,
    }
}

#[test]
fn list_loader_reads_only_after_a_search_that_found_files() {
    assert_eq!(list_loader(Status(SUCCESS), 0x1000).wanted(), Some(0x1000));
    assert!(list_loader(Status(SUCCESS), 0).wanted().is_none());
    assert!(list_loader(Status(NOT_FOUND), 0x1000).wanted().is_none());
    assert!(list_loader(Status(WARN_FILE_SYSTEM), 0x1000).wanted().is_none());
}

#[test]
fn holds_found_list_asks_for_a_list_only_where_one_was_found() {
    let empty = ListMemory::new();
    assert!(holds_found_list(Status(NOT_FOUND), 0x1000, &empty));
    assert!(holds_found_list(Status(SUCCESS), 0, &empty));
    assert!(!holds_found_list(Status(SUCCESS), 0x1000, &empty));
    let mut memory = ListMemory::new();
    memory.insert(0x1000, head_record(0));
    assert!(holds_found_list(Status(SUCCESS), 0x1000, &memory));
    let mut broken = ListMemory::new();
    broken.insert(0x1000, head_record(0x2000));
    assert!(!holds_found_list(Status(SUCCESS), 0x1000, &broken));
}
