use uefi_shell::cstr16::{CStr16, FromSliceWithNulError};

#[test]
fn from_u16_with_nul_accepts_a_terminated_string() {
    let units = [b'h' as u16, b'i' as u16, 0];
    let text = CStr16::from_u16_with_nul(&units).unwrap();
    assert_eq!(text.to_u16_slice_with_nul(), &units[..]);
    assert_eq!(text.to_u16_slice(), &units[..2]);
    assert_eq!(text.num_chars(), 2);
    assert!(!text.is_empty());
}

#[test]
fn from_u16_with_nul_reports_the_first_interior_null() {
    let units = [b'h' as u16, 0, b'i' as u16, 0, 0];
    assert_eq!(
        CStr16::from_u16_with_nul(&units),
        Err(FromSliceWithNulError::InteriorNul(1))
    );
}

#[test]
fn from_u16_with_nul_wants_a_terminator() {
    let units = [b'h' as u16, b'i' as u16];
    assert_eq!(
        CStr16::from_u16_with_nul(&units),
        Err(FromSliceWithNulError::NotNulTerminated)
    );
    assert_eq!(CStr16::from_u16_with_nul(&[]), Err(FromSliceWithNulError::NotNulTerminated));
}

#[test]
fn the_empty_string_is_one_null() {
    let text = CStr16::from_u16_with_nul(&[0]).unwrap();
    assert!(text.is_empty());
    assert_eq!(text.num_chars(), 0);
    assert_eq!(text.to_u16_slice(), &[] as &[u16]);
}

#[test]
fn from_u16_until_nul_stops_at_the_first_null() {
    let units = [b'h' as u16, b'i' as u16, 0, b'x' as u16, 0];
    let text = CStr16::from_u16_until_nul(&units).unwrap();
    assert_eq!(text.to_u16_slice_with_nul(), &units[..3]);
    assert!(CStr16::from_u16_until_nul(&units[..2]).is_none());
    assert!(CStr16::from_u16_until_nul(&[]).is_none());
}

#[test]
fn unchecked_view_keeps_the_units() {
    let units = [b'o' as u16, b'k' as u16, 0];
    let text = CStr16::from_u16_with_nul_unchecked(&units);
    assert_eq!(text, CStr16::from_u16_with_nul(&units).unwrap());
}
