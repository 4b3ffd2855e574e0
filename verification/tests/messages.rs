use naths_fat_fs::error::{BoundsError, FormatError, FsError};

#[test]
fn bounds_errors_say_what_is_wrong() {
    assert_eq!(BoundsError::Unallocated.message(), "unallocated cluster");
    assert_eq!(BoundsError::BadBlock.message(), "bad block");
    assert_eq!(BoundsError::EndOfChain.message(), "end of chain");
    assert_eq!(BoundsError::OutOfBounds(17).message(), format!("fat out of bounds {:#010X}", 17));
    assert_eq!(BoundsError::OutOfBounds(17).message(), "fat out of bounds 0x00000011");
    assert_eq!(
        BoundsError::OutOfBounds(0xDEAD_BEEF).message(),
        "fat out of bounds 0xDEADBEEF"
    );
    assert_eq!(BoundsError::Slot(16).message(), "slot out of bounds 0x00000010");
    assert_eq!(
        BoundsError::Address(0x0123_4567_89AB_CDEF).message(),
        "address out of bounds 0x0123456789ABCDEF"
    );
    assert_eq!(BoundsError::Address(0).message(), "address out of bounds 0x0000000000000000");
}

#[test]
fn filesystem_errors_say_what_went_wrong() {
    assert_eq!(FsError::Format(FormatError::Magic).message(), "invalid filesystem");
    assert_eq!(
        FsError::Format(FormatError::Version(2)).message(),
        "invalid filesystem version 2"
    );
    assert_eq!(
        FsError::Format(FormatError::Version(0)).message(),
        "invalid filesystem version 0"
    );
    assert_eq!(
        FsError::Format(FormatError::Version(255)).message(),
        "invalid filesystem version 255"
    );
    assert_eq!(FsError::Bounds(BoundsError::BadBlock).message(), "bad block");
    assert_eq!(FsError::Io.message(), "device too short");
    assert_eq!(FsError::Encoding.message(), "name is not UTF-8");
    assert_eq!(FsError::Cycle.message(), "chain does not end");
}
