//! What the shell protocol's calls return, made from what the firmware
//! answered: a status, and what memory holds where a returned pointer points.

use crate::cstr16::{first_nul, CStr16};
use crate::env::{env_names, scan_names, views, EnvOutput};
use crate::file_list::{
    is_list, FileList, ListLoader, ListMemory, ShellFileHandle, ShellFileInfo,
};
use crate::status::{Error, Result, Status};
use vstd::prelude::*;

verus! {

/// The string that stands at the start of `units`, as far as its first null
/// unit.
pub open spec fn leading_string(units: Seq<u16>) -> Seq<u16> {
    units.subrange(0, first_nul(units, 0) + 1)
}

/// The outcome of running a command line: the status that the command
/// ended with, if the firmware ran it.
pub fn execute(status: Status, out_status: Status) -> (r: Result<Status>)
    ensures
        r == if status.is_success() {
            Ok::<Status, Error>(out_status)
        } else {
            Err::<Status, Error>(Error { status, data: () })
        },
{
    let command_status = || -> (s: Status)
        ensures
            s == out_status,
        { out_status };
    status.to_result_with_val(command_status)
}

/// The answer to a lookup in the environment. `answer` is what memory holds
/// where the returned pointer points, `None` for a null pointer.
///
/// A null pointer is no error: the variable is not set. With a name, the
/// answer is the string at the start of `answer`. Without one, it is the
/// list of all names in `answer`.
pub fn get_env<'a>(name: Option<&CStr16<'_>>, answer: Option<&'a [u16]>) -> (r: Option<
    EnvOutput<'a>,
>)
    ensures
        match (name, answer) {
            (_, None) => r is None,
            (Some(_), Some(units)) => if first_nul(units@, 0) < units@.len() {
                r matches Some(EnvOutput::Val(value)) && value@ == leading_string(units@)
            } else {
                r is None
            },
            (None, Some(units)) => r matches Some(EnvOutput::Vec(names)) && views(names@)
                == env_names(units@),
        },
{
    match answer {
        None => None,
        Some(units) => match name {
            Some(_) => match CStr16::from_u16_until_nul(units) {
                Some(value) => Some(EnvOutput::Val(value)),
                None => None,
            },
            None => Some(EnvOutput::Vec(scan_names(units))),
        },
    }
}

/// The current directory, from what memory holds where the returned pointer
/// points; `None` for a null pointer, which is no error.
pub fn get_cur_dir<'a>(answer: Option<&'a [u16]>) -> (r: Option<CStr16<'a>>)
    ensures
        match answer {
            Some(units) if first_nul(units@, 0) < units@.len() => r matches Some(dir) && dir@
                == leading_string(units@),
            _ => r is None,
        },
{
    match answer {
        None => None,
        Some(units) => CStr16::from_u16_until_nul(units),
    }
}

/// The outcome of creating a file: its handle, if the firmware made it.
pub fn create_file(status: Status, file_handle: ShellFileHandle) -> (r: Result<ShellFileHandle>)
    ensures
        r == if status.is_success() {
            Ok::<ShellFileHandle, Error>(file_handle)
        } else {
            Err::<ShellFileHandle, Error>(Error { status, data: () })
        },
{
    let created = || -> (h: ShellFileHandle)
        ensures
            h == file_handle,
        { file_handle };
    status.to_result_with_val(created)
}

/// Whether a search with this answer found files: it succeeded, and wrote
/// the address of a list.
pub open spec fn found_list(status: Status, out_list: usize) -> bool {
    status.is_success() && out_list != 0
}

/// The loader for the list that a search wrote. It wants the record at
/// `out_list` if the search found files, and nothing otherwise, so that no
/// memory is read after a failed search.
pub fn list_loader<'a>(status: Status, out_list: usize) -> (loader: ListLoader<'a>)
    ensures
        loader.memory() == Map::<usize, ShellFileInfo<'a>>::empty(),
        loader.cursor() == if found_list(status, out_list) {
            out_list
        } else {
            0
        },
{
    if status.is_success() {
        ListLoader::new(out_list)
    } else {
        ListLoader::new(0)
    }
}

/// Whether `memory` holds the list that a search with this answer found,
/// if it found one: what `find_files` asks of its arguments.
pub fn holds_found_list(status: Status, out_list: usize, memory: &ListMemory<'_>) -> (b: bool)
    ensures
        b == (found_list(status, out_list) ==> is_list(memory@, out_list)),
{
    !status.is_success() || out_list == 0 || memory.holds_list(out_list)
}

/// The outcome of a search for files. `out_list` is the address that the
/// firmware wrote for the head of the list, and `memory` what stands at the
/// list's records.
///
/// A search that succeeds without a list found no file: that is `Ok(None)`,
/// not a failure and not an empty list.
pub fn find_files<'a>(status: Status, out_list: usize, memory: ListMemory<'a>) -> (r: Result<
    Option<FileList<'a>>,
>)
    requires
        found_list(status, out_list) ==> is_list(memory@, out_list),
    ensures
        match r {
            Ok(None) => status.is_success() && out_list == 0,
            Ok(Some(list)) => {
                &&& found_list(status, out_list)
                &&& list.head() == out_list
                &&& list.memory() == memory@
                &&& !list.tail_resolved()
            },
            Err(e) => !status.is_success() && e == (Error { status, data: () }),
        },
{
    if status.is_success() {
        if out_list == 0 {
            Ok(None)
        } else {
            Ok(Some(FileList::new(out_list, memory)))
        }
    } else {
        Err(Error::new(status, ()))
    }
}

/// The outcome of a search for the files of a directory, which is made
/// from the firmware's answer as that of `find_files` is.
pub fn find_files_in_dir<'a>(status: Status, out_list: usize, memory: ListMemory<'a>) -> (r:
    Result<Option<FileList<'a>>>)
    requires
        found_list(status, out_list) ==> is_list(memory@, out_list),
    ensures
        match r {
            Ok(None) => status.is_success() && out_list == 0,
            Ok(Some(list)) => {
                &&& found_list(status, out_list)
                &&& list.head() == out_list
                &&& list.memory() == memory@
                &&& !list.tail_resolved()
            },
            Err(e) => !status.is_success() && e == (Error { status, data: () }),
        },
{
    find_files(status, out_list, memory)
}

} // verus!
