use uefi_shell::status::{
    accept_warning, Error, Result, ResultExt, Status, ABORTED, DEVICE_ERROR, ERROR_BIT,
    HTTP_ERROR, LOAD_ERROR, NOT_FOUND, SUCCESS, WARN_DELETE_FAILURE, WARN_RESET_REQUIRED,
    WARN_UNKNOWN_GLYPH,
};

#[test]
fn codes_have_their_standard_values() {
    assert_eq!(SUCCESS, 0);
    assert_eq!(WARN_UNKNOWN_GLYPH, 1);
    assert_eq!(WARN_RESET_REQUIRED, 7);
    assert_eq!(ERROR_BIT, 1usize << (usize::BITS - 1));
    assert_eq!(LOAD_ERROR, ERROR_BIT | 1);
    assert_eq!(NOT_FOUND, ERROR_BIT | 14);
    assert_eq!(ABORTED, ERROR_BIT | 21);
    assert_eq!(HTTP_ERROR, ERROR_BIT | 35);
}

#[test]
fn every_code_is_in_one_class() {
    let samples = [
        0,
        1,
        7,
        1000,
        ERROR_BIT - 1,
        ERROR_BIT,
        ERROR_BIT + 1,
        NOT_FOUND,
        usize::MAX,
    ];
    for code in samples {
        let status = Status(code);
        let classes =
            [status.is_success(), status.is_warning(), status.is_error()];
        assert_eq!(classes.iter().filter(|c| **c).count(), 1, "code {code:#x}");
    }
    assert!(Status(SUCCESS).is_success());
    assert!(Status(ERROR_BIT - 1).is_warning());
    assert!(Status(ERROR_BIT).is_error());
    assert!(Status(WARN_DELETE_FAILURE).is_warning());
    assert!(Status(DEVICE_ERROR).is_error());
}

#[test]
fn to_result_treats_warnings_as_failures() {
    assert_eq!(Status(SUCCESS).to_result(), Ok(()));
    assert_eq!(
        Status(WARN_RESET_REQUIRED).to_result(),
        Err(Error { status: Status(WARN_RESET_REQUIRED), data: () })
    );
    assert_eq!(
        Status(NOT_FOUND).to_result(),
        Err(Error { status: Status(NOT_FOUND), data: () })
    );
}

#[test]
fn to_result_with_val_makes_the_value_only_on_success() {
    assert_eq!(Status(SUCCESS).to_result_with_val(|| 5u8), Ok(5u8));
    let mut called = false;
    let failed = Status(DEVICE_ERROR).to_result_with_val(|| {
        called = true;
        5u8
    });
    assert_eq!(failed, Err(Error { status: Status(DEVICE_ERROR), data: () }));
    assert!(!called);
}

#[test]
fn to_result_with_err_attaches_data_to_a_failure() {
    assert_eq!(Status(SUCCESS).to_result_with_err(|s| s.0), Ok(()));
    assert_eq!(
        Status(WARN_UNKNOWN_GLYPH).to_result_with_err(|s| s.0 + 40),
        Err(Error { status: Status(WARN_UNKNOWN_GLYPH), data: 41usize })
    );
}

#[test]
fn error_parts() {
    let error = Error::new(Status(ABORTED), 9u32);
    assert_eq!(error.status(), Status(ABORTED));
    assert_eq!(*error.data(), 9);
    assert_eq!(error.split(), (Status(ABORTED), 9));
}

#[test]
fn status_of_a_result() {
    let ok: Result<u8, u8> = Ok(1);
    let warning: Result<u8, u8> = Err(Error::new(Status(WARN_DELETE_FAILURE), 2));
    let error: Result<u8, u8> = Err(Error::new(Status(NOT_FOUND), 3));
    assert_eq!(ok.status(), Status(SUCCESS));
    assert_eq!(warning.status(), Status(WARN_DELETE_FAILURE));
    assert_eq!(error.status(), Status(NOT_FOUND));
}

#[test]
fn discard_errdata_keeps_the_status() {
    let ok: Result<u8, u8> = Ok(1);
    let error: Result<u8, u8> = Err(Error::new(Status(NOT_FOUND), 3));
    assert_eq!(ok.discard_errdata(), Ok(1));
    assert_eq!(
        error.discard_errdata(),
        Err(Error { status: Status(NOT_FOUND), data: () })
    );
}

fn reset_is_fine(err: Error<u8>) -> Result<u8, u8> {
    if err.status() == Status(WARN_RESET_REQUIRED) {
        Ok(0)
    } else {
        Err(err)
    }
}

#[test]
fn handle_warning_converts_the_expected_warning() {
    let result: Result<u8, u8> = Err(Error::new(Status(WARN_RESET_REQUIRED), 3));
    assert_eq!(result.handle_warning(reset_is_fine), Ok(0));
}

#[test]
fn handle_warning_passes_other_warnings_through() {
    let result: Result<u8, u8> = Err(Error::new(Status(WARN_DELETE_FAILURE), 3));
    assert_eq!(
        result.handle_warning(reset_is_fine),
        Err(Error { status: Status(WARN_DELETE_FAILURE), data: 3 })
    );
}

#[test]
fn handle_warning_does_not_call_op_on_errors_or_success() {
    let error: Result<u8, u8> = Err(Error::new(Status(DEVICE_ERROR), 3));
    let handled = error.handle_warning(|_| Ok(77));
    assert_eq!(handled, Err(Error { status: Status(DEVICE_ERROR), data: 3 }));
    let ok: Result<u8, u8> = Ok(4);
    assert_eq!(ok.handle_warning(|_| Ok(77)), Ok(4));
}

#[test]
fn accept_warning_takes_only_the_expected_warning() {
    let expected = Status(WARN_RESET_REQUIRED);
    let hit: Result<u8, u8> = Err(Error::new(expected, 3));
    let other: Result<u8, u8> = Err(Error::new(Status(WARN_UNKNOWN_GLYPH), 3));
    let error: Result<u8, u8> = Err(Error::new(Status(NOT_FOUND), 3));
    let ok: Result<u8, u8> = Ok(4);
    assert_eq!(accept_warning(hit, expected, 9), Ok(9));
    assert_eq!(
        accept_warning(other, expected, 9),
        Err(Error { status: Status(WARN_UNKNOWN_GLYPH), data: 3 })
    );
    assert_eq!(
        accept_warning(error, expected, 9),
        Err(Error { status: Status(NOT_FOUND), data: 3 })
    );
    assert_eq!(accept_warning(ok, expected, 9), Ok(4));
    let as_error: Result<u8, u8> = Err(Error::new(Status(NOT_FOUND), 3));
    assert_eq!(
        accept_warning(as_error, Status(NOT_FOUND), 9),
        Err(Error { status: Status(NOT_FOUND), data: 3 })
    );
}
